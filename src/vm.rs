use vstd::arithmetic::power::pow;
use vstd::prelude::*;

use crate::chunk::{Chunk, OpCode, VectorType};
use crate::compiler::CompileError;
use crate::interner::{interned, Interner};
use crate::value::{in_i64, is_number, tag_of, ValueTag, ValueType, SIGN_BIT};

verus! {

broadcast use vstd::std_specs::hash::group_hash_axioms;

/// Capacity of the operand stack.
pub const STACK_MAX: usize = 256;

/// Why execution stopped early.
#[derive(Clone, Copy, Debug, PartialEq, Eq, Structural)]
pub enum RuntimeError {
    /// A binary instruction met operands of these tags.
    TypeMismatch(OpCode, ValueTag, ValueTag),
    /// A unary instruction met an operand of this tag.
    OperandType(OpCode, ValueTag),
    /// A global with this interned name was read or assigned before definition.
    UndefinedVariable(usize),
    DivisionByZero,
    /// An integer result left the `i64` range, or an exponent exceeded `u32`.
    IntegerOverflow,
    NegativeExponent,
    StackOverflow,
    StackUnderflow,
    /// The cell at this position is not a valid instruction with valid operands.
    MalformedCode(usize),
    /// The run took `u64::MAX` steps.
    StepLimit,
}

/// A floating-point operation that the caller performs on the VM's behalf.
#[derive(Clone, Copy, Debug, PartialEq, Eq, Structural)]
pub enum FloatOp {
    Add,
    Sub,
    Mul,
    Div,
    Pow,
    Equal,
    Greater,
    Less,
}

/// Operands are `Integer` or `Float`; the caller converts both to binary64,
/// applies `op`, and hands back a `Float` (arithmetic) or a `Boolean` (comparison).
#[derive(Clone, Copy, Debug, PartialEq, Eq, Structural)]
pub struct FloatRequest {
    pub op: FloatOp,
    pub lhs: ValueType,
    pub rhs: ValueType,
}

/// The outcome of a run.
#[derive(Debug)]
pub enum Result {
    /// The program returned; these are the values it printed, in order.
    Done(Vec<ValueType>),
    CompileErr(CompileError),
    RuntimeErr(RuntimeError),
    /// The run is paused until the result of this float operation is supplied.
    NeedsFloat(FloatRequest),
}

/// The machine state as the contracts see it.
pub struct Machine {
    pub ip: int,
    pub stack: Seq<ValueType>,
    pub globals: Map<usize, ValueType>,
    pub strs: Seq<Seq<char>>,
    pub outputs: Seq<ValueType>,
}

/// What one instruction does.
pub enum Step {
    Next(Machine),
    Halt(Seq<ValueType>),
    Fail(RuntimeError),
    Float(FloatRequest, Machine),
}

/// What a binary instruction makes of two operands.
pub enum Outcome {
    Value(ValueType),
    Float(FloatRequest),
    Concat(usize, usize),
    Error(RuntimeError),
}

pub open spec fn is_binary(op: OpCode) -> bool {
    match op {
        OpCode::OpAdd | OpCode::OpSubtract | OpCode::OpMultiply | OpCode::OpDivide
        | OpCode::OpPower | OpCode::OpEqualEqual | OpCode::OpGreater | OpCode::OpLess => true,
        _ => false,
    }
}

pub open spec fn float_op(op: OpCode) -> FloatOp {
    match op {
        OpCode::OpAdd => FloatOp::Add,
        OpCode::OpSubtract => FloatOp::Sub,
        OpCode::OpMultiply => FloatOp::Mul,
        OpCode::OpDivide => FloatOp::Div,
        OpCode::OpPower => FloatOp::Pow,
        OpCode::OpEqualEqual => FloatOp::Equal,
        OpCode::OpGreater => FloatOp::Greater,
        _ => FloatOp::Less,
    }
}

/// `Integer op Integer` for the arithmetic instructions.
pub open spec fn int_arith(op: OpCode, a: i64, b: i64) -> core::result::Result<i64, RuntimeError> {
    match op {
        OpCode::OpAdd => if in_i64(a + b) {
            Ok((a + b) as i64)
        } else {
            Err(RuntimeError::IntegerOverflow)
        },
        OpCode::OpSubtract => if in_i64(a - b) {
            Ok((a - b) as i64)
        } else {
            Err(RuntimeError::IntegerOverflow)
        },
        OpCode::OpMultiply => if in_i64(a * b) {
            Ok((a * b) as i64)
        } else {
            Err(RuntimeError::IntegerOverflow)
        },
        OpCode::OpDivide => if b == 0 {
            Err(RuntimeError::DivisionByZero)
        } else {
            match a.checked_div(b) {
                Some(q) => Ok(q),
                None => Err(RuntimeError::IntegerOverflow),
            }
        },
        _ => if b < 0 {
            Err(RuntimeError::NegativeExponent)
        } else if b > u32::MAX || !in_i64(pow(a as int, b as nat)) {
            Err(RuntimeError::IntegerOverflow)
        } else {
            Ok(pow(a as int, b as nat) as i64)
        },
    }
}

/// The result of a binary instruction on `a` (below) and `b` (top of stack).
pub open spec fn binary_outcome(op: OpCode, a: ValueType, b: ValueType) -> Outcome {
    match (a, b) {
        (ValueType::Integer(x), ValueType::Integer(y)) => match op {
            OpCode::OpEqualEqual => Outcome::Value(ValueType::Boolean(x == y)),
            OpCode::OpGreater => Outcome::Value(ValueType::Boolean(x > y)),
            OpCode::OpLess => Outcome::Value(ValueType::Boolean(x < y)),
            _ => match int_arith(op, x, y) {
                Ok(v) => Outcome::Value(ValueType::Integer(v)),
                Err(e) => Outcome::Error(e),
            },
        },
        _ => if is_number(a) && is_number(b) {
            Outcome::Float(FloatRequest { op: float_op(op), lhs: a, rhs: b })
        } else if op == OpCode::OpAdd && a is String && b is String {
            Outcome::Concat(a->String_0, b->String_0)
        } else if op == OpCode::OpEqualEqual {
            Outcome::Value(ValueType::Boolean(a == b))
        } else {
            Outcome::Error(RuntimeError::TypeMismatch(op, tag_of(a), tag_of(b)))
        },
    }
}

/// The value of the constant that the cell after `ip` refers to.
pub open spec fn operand(code: Seq<VectorType>, consts: Seq<ValueType>, ip: int) -> Option<ValueType> {
    if 0 <= ip + 1 < code.len() && code[ip + 1] is Constant && code[ip + 1]->Constant_0
        < consts.len() {
        Some(consts[code[ip + 1]->Constant_0 as int])
    } else {
        None
    }
}

/// Pushes `v` and moves `width` cells on, unless the stack is full.
pub open spec fn push_next(m: Machine, v: ValueType, width: int) -> Step {
    if m.stack.len() >= STACK_MAX {
        Step::Fail(RuntimeError::StackOverflow)
    } else {
        Step::Next(Machine { ip: m.ip + width, stack: m.stack.push(v), ..m })
    }
}

/// Replaces the top of the stack and moves one cell on.
pub open spec fn replace_top(m: Machine, v: ValueType) -> Step {
    Step::Next(Machine { ip: m.ip + 1, stack: m.stack.drop_last().push(v), ..m })
}

/// A binary instruction at `m.ip` with at least two operands on the stack.
pub open spec fn binary_step(op: OpCode, m: Machine) -> Step {
    let n = m.stack.len();
    let rest = m.stack.take(n - 2);
    match binary_outcome(op, m.stack[n - 2], m.stack[n - 1]) {
        Outcome::Value(v) => Step::Next(Machine { ip: m.ip + 1, stack: rest.push(v), ..m }),
        Outcome::Float(req) => Step::Float(req, Machine { ip: m.ip + 1, stack: rest, ..m }),
        Outcome::Concat(x, y) => if x >= m.strs.len() || y >= m.strs.len() {
            Step::Fail(RuntimeError::MalformedCode(m.ip as usize))
        } else {
            let (t, id) = interned(m.strs, m.strs[x as int] + m.strs[y as int]);
            Step::Next(
                Machine {
                    ip: m.ip + 1,
                    stack: rest.push(ValueType::String(id as usize)),
                    strs: t,
                    ..m
                },
            )
        },
        Outcome::Error(e) => Step::Fail(e),
    }
}

/// An instruction that reads the constant after it, `v`.
pub open spec fn operand_step(op: OpCode, v: ValueType, m: Machine) -> Step {
    let n = m.stack.len();
    let bad = Step::Fail(RuntimeError::MalformedCode(m.ip as usize));
    match op {
        OpCode::OpConstant => push_next(m, v, 2),
        OpCode::OpDefineGlobal => match v {
            ValueType::Identifier(id) => if n < 1 {
                Step::Fail(RuntimeError::StackUnderflow)
            } else {
                Step::Next(
                    Machine {
                        ip: m.ip + 2,
                        stack: m.stack.drop_last(),
                        globals: m.globals.insert(id, m.stack[n - 1]),
                        ..m
                    },
                )
            },
            _ => bad,
        },
        OpCode::OpGetGlobal => match v {
            ValueType::Identifier(id) => if m.globals.contains_key(id) {
                push_next(m, m.globals[id], 2)
            } else {
                Step::Fail(RuntimeError::UndefinedVariable(id))
            },
            _ => bad,
        },
        OpCode::OpSetGlobal => match v {
            ValueType::Identifier(id) => if n < 1 {
                Step::Fail(RuntimeError::StackUnderflow)
            } else if !m.globals.contains_key(id) {
                Step::Fail(RuntimeError::UndefinedVariable(id))
            } else {
                Step::Next(
                    Machine { ip: m.ip + 2, globals: m.globals.insert(id, m.stack[n - 1]), ..m },
                )
            },
            _ => bad,
        },
        OpCode::OpGetLocal => match v {
            ValueType::Integer(slot) => if 0 <= slot < n {
                push_next(m, m.stack[slot as int], 2)
            } else {
                bad
            },
            _ => bad,
        },
        OpCode::OpSetLocal => match v {
            ValueType::Integer(slot) => if n < 1 {
                Step::Fail(RuntimeError::StackUnderflow)
            } else if 0 <= slot < n {
                Step::Next(
                    Machine { ip: m.ip + 2, stack: m.stack.update(slot as int, m.stack[n - 1]), ..m },
                )
            } else {
                bad
            },
            _ => bad,
        },
        OpCode::OpJumpIfFalse => match v {
            ValueType::JumpOffset(t) => if n < 1 {
                Step::Fail(RuntimeError::StackUnderflow)
            } else if m.stack[n - 1] == ValueType::Boolean(false) {
                Step::Next(Machine { ip: t as int, ..m })
            } else {
                Step::Next(Machine { ip: m.ip + 2, ..m })
            },
            _ => bad,
        },
        OpCode::OpJump | OpCode::OpLoop => match v {
            ValueType::JumpOffset(t) => Step::Next(Machine { ip: t as int, ..m }),
            _ => bad,
        },
        _ => bad,
    }
}

/// What the instruction at `m.ip` does.
pub open spec fn next_step(code: Seq<VectorType>, consts: Seq<ValueType>, m: Machine) -> Step {
    let n = m.stack.len();
    let bad = Step::Fail(RuntimeError::MalformedCode(m.ip as usize));
    if m.ip < 0 || m.ip >= code.len() {
        bad
    } else {
        match code[m.ip] {
            VectorType::Constant(_) => bad,
            VectorType::Code(op) => match op {
                OpCode::OpReturn => Step::Halt(m.outputs),
                OpCode::OpNil => push_next(m, ValueType::Nil, 1),
                OpCode::OpTrue => push_next(m, ValueType::Boolean(true), 1),
                OpCode::OpFalse => push_next(m, ValueType::Boolean(false), 1),
                OpCode::OpNegate => if n < 1 {
                    Step::Fail(RuntimeError::StackUnderflow)
                } else {
                    match m.stack[n - 1] {
                        ValueType::Integer(x) => if x == i64::MIN {
                            Step::Fail(RuntimeError::IntegerOverflow)
                        } else {
                            replace_top(m, ValueType::Integer(-x as i64))
                        },
                        ValueType::Float(b) => replace_top(m, ValueType::Float(b ^ SIGN_BIT)),
                        v => Step::Fail(RuntimeError::OperandType(op, tag_of(v))),
                    }
                },
                OpCode::OpNot => if n < 1 {
                    Step::Fail(RuntimeError::StackUnderflow)
                } else {
                    match m.stack[n - 1] {
                        ValueType::Boolean(b) => replace_top(m, ValueType::Boolean(!b)),
                        v => Step::Fail(RuntimeError::OperandType(op, tag_of(v))),
                    }
                },
                OpCode::OpPrint => if n < 1 {
                    Step::Fail(RuntimeError::StackUnderflow)
                } else {
                    Step::Next(
                        Machine {
                            ip: m.ip + 1,
                            stack: m.stack.drop_last(),
                            outputs: m.outputs.push(m.stack[n - 1]),
                            ..m
                        },
                    )
                },
                OpCode::OpPop => if n < 1 {
                    Step::Fail(RuntimeError::StackUnderflow)
                } else {
                    Step::Next(Machine { ip: m.ip + 1, stack: m.stack.drop_last(), ..m })
                },
                _ => if is_binary(op) {
                    if n < 2 {
                        Step::Fail(RuntimeError::StackUnderflow)
                    } else {
                        binary_step(op, m)
                    }
                } else {
                    match operand(code, consts, m.ip) {
                        Some(v) => operand_step(op, v, m),
                        None => bad,
                    }
                },
            },
        }
    }
}

/// Runs up to `fuel` instructions; `Next` means the fuel ran out first.
pub open spec fn run_steps(code: Seq<VectorType>, consts: Seq<ValueType>, m: Machine, fuel: nat) -> Step
    decreases fuel,
{
    if fuel == 0 {
        Step::Next(m)
    } else {
        match next_step(code, consts, m) {
            Step::Next(m2) => run_steps(code, consts, m2, (fuel - 1) as nat),
            other => other,
        }
    }
}

/// Runs up to `fuel` instructions when every float operation that the machine
/// hands out is answered with `answer`, as `supply_float` does.
pub open spec fn run_answering(
    code: Seq<VectorType>,
    consts: Seq<ValueType>,
    m: Machine,
    fuel: nat,
    answer: spec_fn(FloatRequest) -> ValueType,
) -> Step
    decreases fuel,
{
    if fuel == 0 {
        Step::Next(m)
    } else {
        match next_step(code, consts, m) {
            Step::Next(m2) => run_answering(code, consts, m2, (fuel - 1) as nat, answer),
            Step::Float(req, m2) => run_answering(
                code,
                consts,
                Machine { stack: m2.stack.push(answer(req)), ..m2 },
                (fuel - 1) as nat,
                answer,
            ),
            other => other,
        }
    }
}

/// A run paused on a float operation after `n` steps, once `supply_float` hands
/// it `answer(req)`, stands where a run answering with `answer` stands after
/// `n + 1` steps.
pub proof fn lemma_pause_then_answer(
    code: Seq<VectorType>,
    consts: Seq<ValueType>,
    m: Machine,
    n: nat,
    req: FloatRequest,
    paused: Machine,
    answer: spec_fn(FloatRequest) -> ValueType,
)
    requires
        run_steps(code, consts, m, n) is Next,
        next_step(code, consts, run_steps(code, consts, m, n)->Next_0) == Step::Float(req, paused),
    ensures
        run_answering(code, consts, m, n + 1, answer) == Step::Next(
            Machine { stack: paused.stack.push(answer(req)), ..paused },
        ),
    decreases n,
{
    if n == 0 {
        let resumed = Machine { stack: paused.stack.push(answer(req)), ..paused };
        assert(run_answering(code, consts, resumed, 0, answer) == Step::Next(resumed));
    } else {
        match next_step(code, consts, m) {
            Step::Next(m1) => {
                assert(run_steps(code, consts, m, n) == run_steps(code, consts, m1, (n - 1) as nat));
                lemma_pause_then_answer(code, consts, m1, (n - 1) as nat, req, paused, answer);
                assert((n + 1 - 1) as nat == ((n - 1) as nat + 1) as nat);
            },
            _ => {},
        }
    }
}

/// Taking one more step after `k` steps that all continued.
pub proof fn lemma_run_extend(code: Seq<VectorType>, consts: Seq<ValueType>, m0: Machine, k: nat)
    requires
        run_steps(code, consts, m0, k) is Next,
    ensures
        run_steps(code, consts, m0, k + 1) == next_step(
            code,
            consts,
            run_steps(code, consts, m0, k)->Next_0,
        ),
    decreases k,
{
    if k > 0 {
        match next_step(code, consts, m0) {
            Step::Next(m1) => {
                assert(run_steps(code, consts, m0, k) == run_steps(code, consts, m1, (k - 1) as nat));
                assert(run_steps(code, consts, m0, k + 1) == run_steps(code, consts, m1, k));
                lemma_run_extend(code, consts, m1, (k - 1) as nat);
            },
            _ => {},
        }
    } else {
        assert(run_steps(code, consts, m0, 0) == Step::Next(m0));
        match next_step(code, consts, m0) {
            Step::Next(m2) => {
                assert(run_steps(code, consts, m2, 0) == Step::Next(m2));
            },
            _ => {},
        }
    }
}

/// The machine of a fresh VM over string table `strs`.
pub open spec fn start_machine(strs: Seq<Seq<char>>) -> Machine {
    Machine { ip: 0, stack: Seq::empty(), globals: Map::empty(), strs, outputs: Seq::empty() }
}

/// What one executed instruction did.
#[derive(Clone, Copy, Debug, PartialEq, Eq, Structural)]
pub enum Flow {
    Continue,
    Halt,
    Fail(RuntimeError),
    Float(FloatRequest),
}

/// `r` and the machine `after` are what `s` says, starting from `before`.
pub open spec fn flow_matches(s: Step, r: Flow, before: Machine, after: Machine) -> bool {
    match s {
        Step::Next(m) => r == Flow::Continue && after == m,
        Step::Halt(out) => r == Flow::Halt && after == before && out == before.outputs,
        Step::Fail(e) => r == Flow::Fail(e),
        Step::Float(req, m) => r == Flow::Float(req) && after == m,
    }
}

/// A stack machine that runs a chunk.
pub struct VM {
    chunk: Chunk,
    ip: usize,
    stack: Vec<ValueType>,
    interner: Interner,
    globals: std::collections::HashMap<usize, ValueType>,
    outputs: Vec<ValueType>,
    pending: Option<FloatRequest>,
}

impl VM {
    pub closed spec fn machine(&self) -> Machine {
        Machine {
            ip: self.ip as int,
            stack: self.stack@,
            globals: self.globals@,
            strs: self.interner@,
            outputs: self.outputs@,
        }
    }

    pub closed spec fn code(&self) -> Seq<VectorType> {
        self.chunk.code@
    }

    pub closed spec fn consts(&self) -> Seq<ValueType> {
        self.chunk.constants@
    }

    /// The float request that the machine waits on, if any.
    pub closed spec fn pending(&self) -> Option<FloatRequest> {
        self.pending
    }

    pub closed spec fn wf(&self) -> bool {
        &&& self.interner.wf()
        &&& self.stack.len() <= STACK_MAX
        &&& self.pending is Some ==> self.stack.len() <= STACK_MAX - 1
    }

    /// A machine at the start of `chunk`, with an empty stack and no globals.
    pub fn init(chunk: Chunk, interner: Interner) -> (r: VM)
        requires
            interner.wf(),
        ensures
            r.wf(),
            r.code() == chunk.code@,
            r.consts() == chunk.constants@,
            r.pending() is None,
            r.machine() == start_machine(interner@),
    {
        VM {
            chunk,
            ip: 0,
            stack: Vec::new(),
            interner,
            globals: std::collections::HashMap::new(),
            outputs: Vec::new(),
            pending: None,
        }
    }

    /// The value of the constant that the cell after the current one refers to.
    fn read_operand(&self) -> (r: Option<ValueType>)
        requires
            self.ip < self.chunk.code.len(),
        ensures
            r == operand(self.code(), self.consts(), self.ip as int),
    {
        if self.ip + 1 < self.chunk.code.len() {
            match self.chunk.code[self.ip + 1] {
                VectorType::Constant(k) => if k < self.chunk.constants.len() {
                    Some(self.chunk.constants[k])
                } else {
                    None
                },
                _ => None,
            }
        } else {
            None
        }
    }

    fn push_next(&mut self, v: ValueType, width: usize) -> (r: Flow)
        requires
            old(self).wf(),
            old(self).pending is None,
            old(self).ip + width <= usize::MAX,
        ensures
            final(self).wf(),
            final(self).code() == old(self).code(),
            final(self).consts() == old(self).consts(),
            final(self).pending() == old(self).pending(),
            flow_matches(
                push_next(old(self).machine(), v, width as int),
                r,
                old(self).machine(),
                final(self).machine(),
            ),
    {
        if self.stack.len() >= STACK_MAX {
            return Flow::Fail(RuntimeError::StackOverflow);
        }
        self.stack.push(v);
        self.ip = self.ip + width;
        Flow::Continue
    }

    /// A binary instruction; see `binary_step`.
    fn exec_binary(&mut self, op: OpCode) -> (r: Flow)
        requires
            old(self).wf(),
            old(self).pending is None,
            is_binary(op),
            old(self).ip < old(self).chunk.code.len(),
            old(self).stack.len() >= 2,
        ensures
            final(self).wf(),
            final(self).code() == old(self).code(),
            final(self).consts() == old(self).consts(),
            final(self).pending() == old(self).pending(),
            flow_matches(binary_step(op, old(self).machine()), r, old(self).machine(), final(self).machine()),
    {
        let ghost m = self.machine();
        let b = self.stack.pop().unwrap();
        let a = self.stack.pop().unwrap();
        proof {
            assert(self.stack@ =~= m.stack.take(m.stack.len() - 2));
        }
        match outcome_of(op, a, b) {
            Outcome::Value(v) => {
                self.stack.push(v);
                self.ip = self.ip + 1;
                Flow::Continue
            },
            Outcome::Float(req) => {
                self.ip = self.ip + 1;
                Flow::Float(req)
            },
            Outcome::Concat(x, y) => {
                if x >= self.interner.len() || y >= self.interner.len() {
                    return Flow::Fail(RuntimeError::MalformedCode(self.ip));
                }
                let mut joined = String::new();
                joined.append(self.interner.lookup(x));
                joined.append(self.interner.lookup(y));
                proof {
                    assert(joined@ =~= m.strs[x as int] + m.strs[y as int]);
                }
                let id = self.interner.intern_string(joined);
                self.stack.push(ValueType::String(id));
                self.ip = self.ip + 1;
                Flow::Continue
            },
            Outcome::Error(e) => Flow::Fail(e),
        }
    }

    /// An instruction that reads the constant `v` after it; see `operand_step`.
    fn exec_operand(&mut self, op: OpCode, v: ValueType) -> (r: Flow)
        requires
            old(self).wf(),
            old(self).pending is None,
            old(self).ip + 1 < old(self).chunk.code.len(),
        ensures
            final(self).wf(),
            final(self).code() == old(self).code(),
            final(self).consts() == old(self).consts(),
            final(self).pending() == old(self).pending(),
            flow_matches(operand_step(op, v, old(self).machine()), r, old(self).machine(), final(self).machine()),
    {
        let ghost m = self.machine();
        let bad = Flow::Fail(RuntimeError::MalformedCode(self.ip));
        let n = self.stack.len();
        match op {
            OpCode::OpConstant => self.push_next(v, 2),
            OpCode::OpDefineGlobal => match v {
                ValueType::Identifier(id) => {
                    if n < 1 {
                        return Flow::Fail(RuntimeError::StackUnderflow);
                    }
                    let top = self.stack.pop().unwrap();
                    self.globals.insert(id, top);
                    self.ip = self.ip + 2;
                    Flow::Continue
                },
                _ => bad,
            },
            OpCode::OpGetGlobal => match v {
                ValueType::Identifier(id) => match self.globals.get(&id) {
                    Some(val) => {
                        let val = *val;
                        self.push_next(val, 2)
                    },
                    None => Flow::Fail(RuntimeError::UndefinedVariable(id)),
                },
                _ => bad,
            },
            OpCode::OpSetGlobal => match v {
                ValueType::Identifier(id) => {
                    if n < 1 {
                        return Flow::Fail(RuntimeError::StackUnderflow);
                    }
                    if !self.globals.contains_key(&id) {
                        return Flow::Fail(RuntimeError::UndefinedVariable(id));
                    }
                    let top = self.stack[n - 1];
                    self.globals.insert(id, top);
                    self.ip = self.ip + 2;
                    Flow::Continue
                },
                _ => bad,
            },
            OpCode::OpGetLocal => match v {
                ValueType::Integer(slot) => {
                    if slot >= 0 && (slot as u64) < (n as u64) {
                        let val = self.stack[slot as usize];
                        self.push_next(val, 2)
                    } else {
                        bad
                    }
                },
                _ => bad,
            },
            OpCode::OpSetLocal => match v {
                ValueType::Integer(slot) => {
                    if n < 1 {
                        return Flow::Fail(RuntimeError::StackUnderflow);
                    }
                    if slot >= 0 && (slot as u64) < (n as u64) {
                        let top = self.stack[n - 1];
                        self.stack.set(slot as usize, top);
                        self.ip = self.ip + 2;
                        Flow::Continue
                    } else {
                        bad
                    }
                },
                _ => bad,
            },
            OpCode::OpJumpIfFalse => match v {
                ValueType::JumpOffset(t) => {
                    if n < 1 {
                        return Flow::Fail(RuntimeError::StackUnderflow);
                    }
                    match self.stack[n - 1] {
                        ValueType::Boolean(false) => {
                            self.ip = t;
                        },
                        _ => {
                            self.ip = self.ip + 2;
                        },
                    }
                    Flow::Continue
                },
                _ => bad,
            },
            OpCode::OpJump | OpCode::OpLoop => match v {
                ValueType::JumpOffset(t) => {
                    self.ip = t;
                    Flow::Continue
                },
                _ => bad,
            },
            _ => bad,
        }
    }

    /// Executes the instruction at the instruction pointer; see `next_step`.
    fn step(&mut self) -> (r: Flow)
        requires
            old(self).wf(),
            old(self).pending is None,
        ensures
            final(self).wf(),
            final(self).code() == old(self).code(),
            final(self).consts() == old(self).consts(),
            final(self).pending() == old(self).pending(),
            flow_matches(
                next_step(old(self).code(), old(self).consts(), old(self).machine()),
                r,
                old(self).machine(),
                final(self).machine(),
            ),
    {
        let ghost m = self.machine();
        if self.ip >= self.chunk.code.len() {
            return Flow::Fail(RuntimeError::MalformedCode(self.ip));
        }
        let n = self.stack.len();
        match self.chunk.code[self.ip] {
            VectorType::Constant(_) => Flow::Fail(RuntimeError::MalformedCode(self.ip)),
            VectorType::Code(op) => match op {
                OpCode::OpReturn => Flow::Halt,
                OpCode::OpNil => self.push_next(ValueType::Nil, 1),
                OpCode::OpTrue => self.push_next(ValueType::Boolean(true), 1),
                OpCode::OpFalse => self.push_next(ValueType::Boolean(false), 1),
                OpCode::OpNegate => {
                    if n < 1 {
                        return Flow::Fail(RuntimeError::StackUnderflow);
                    }
                    let v = match self.stack[n - 1] {
                        ValueType::Integer(x) => {
                            if x == i64::MIN {
                                return Flow::Fail(RuntimeError::IntegerOverflow);
                            }
                            ValueType::Integer(-x)
                        },
                        ValueType::Float(b) => ValueType::Float(b ^ SIGN_BIT),
                        other => {
                            return Flow::Fail(RuntimeError::OperandType(op, other.tag()));
                        },
                    };
                    self.stack.set(n - 1, v);
                    self.ip = self.ip + 1;
                    proof {
                        assert(self.stack@ =~= m.stack.drop_last().push(v));
                    }
                    Flow::Continue
                },
                OpCode::OpNot => {
                    if n < 1 {
                        return Flow::Fail(RuntimeError::StackUnderflow);
                    }
                    let v = match self.stack[n - 1] {
                        ValueType::Boolean(b) => ValueType::Boolean(!b),
                        other => {
                            return Flow::Fail(RuntimeError::OperandType(op, other.tag()));
                        },
                    };
                    self.stack.set(n - 1, v);
                    self.ip = self.ip + 1;
                    proof {
                        assert(self.stack@ =~= m.stack.drop_last().push(v));
                    }
                    Flow::Continue
                },
                OpCode::OpPrint => {
                    if n < 1 {
                        return Flow::Fail(RuntimeError::StackUnderflow);
                    }
                    let v = self.stack.pop().unwrap();
                    self.outputs.push(v);
                    self.ip = self.ip + 1;
                    Flow::Continue
                },
                OpCode::OpPop => {
                    if n < 1 {
                        return Flow::Fail(RuntimeError::StackUnderflow);
                    }
                    self.stack.pop();
                    self.ip = self.ip + 1;
                    Flow::Continue
                },
                OpCode::OpAdd | OpCode::OpSubtract | OpCode::OpMultiply | OpCode::OpDivide
                | OpCode::OpPower | OpCode::OpEqualEqual | OpCode::OpGreater | OpCode::OpLess => {
                    if n < 2 {
                        return Flow::Fail(RuntimeError::StackUnderflow);
                    }
                    self.exec_binary(op)
                },
                _ => match self.read_operand() {
                    Some(v) => self.exec_operand(op, v),
                    None => Flow::Fail(RuntimeError::MalformedCode(self.ip)),
                },
            },
        }
    }

    /// Runs until the program returns, fails, or needs a float operation; in the
    /// last case the run resumes after `supply_float`.
    pub fn run(&mut self) -> (r: Result)
        requires
            old(self).wf(),
        ensures
            final(self).wf(),
            final(self).code() == old(self).code(),
            final(self).consts() == old(self).consts(),
            old(self).pending() is Some ==> r == Result::NeedsFloat(old(self).pending()->Some_0)
                && final(self).machine() == old(self).machine() && final(self).pending()
                == old(self).pending(),
            old(self).pending() is None ==> match r {
                Result::Done(out) => exists|n: nat|
                    run_steps(old(self).code(), old(self).consts(), old(self).machine(), n)
                        == Step::Halt(out@),
                Result::RuntimeErr(e) => (e == RuntimeError::StepLimit && run_steps(
                    old(self).code(),
                    old(self).consts(),
                    old(self).machine(),
                    u64::MAX as nat,
                ) == Step::Next(final(self).machine())) || exists|n: nat|
                    run_steps(old(self).code(), old(self).consts(), old(self).machine(), n)
                        == Step::Fail(e),
                Result::NeedsFloat(req) => final(self).pending() == Some(req) && exists|n: nat|
                    #[trigger] run_steps(old(self).code(), old(self).consts(), old(self).machine(), n)
                        is Next && next_step(
                        old(self).code(),
                        old(self).consts(),
                        run_steps(old(self).code(), old(self).consts(), old(self).machine(), n)->Next_0,
                    ) == Step::Float(req, final(self).machine()),
                Result::CompileErr(_) => false,
            },
    {
        match self.pending {
            Some(req) => {
                return Result::NeedsFloat(req);
            },
            None => {},
        }
        let ghost m0 = self.machine();
        let ghost code = self.code();
        let ghost consts = self.consts();
        let mut taken: u64 = 0;
        while taken < u64::MAX
            invariant
                self.wf(),
                self.pending is None,
                old(self).pending is None,
                self.code() == code,
                self.consts() == consts,
                code == old(self).code(),
                consts == old(self).consts(),
                m0 == old(self).machine(),
                run_steps(code, consts, m0, taken as nat) == Step::Next(self.machine()),
            decreases u64::MAX - taken,
        {
            proof {
                lemma_run_extend(code, consts, m0, taken as nat);
            }
            let ghost before = self.machine();
            match self.step() {
                Flow::Continue => {},
                Flow::Halt => {
                    let mut out = Vec::new();
                    std::mem::swap(&mut out, &mut self.outputs);
                    proof {
                        assert(run_steps(code, consts, m0, (taken + 1) as nat) == Step::Halt(
                            out@,
                        ));
                    }
                    return Result::Done(out);
                },
                Flow::Fail(e) => {
                    proof {
                        assert(run_steps(code, consts, m0, (taken + 1) as nat) == Step::Fail(e));
                    }
                    return Result::RuntimeErr(e);
                },
                Flow::Float(req) => {
                    self.pending = Some(req);
                    proof {
                        assert(next_step(code, consts, before) == Step::Float(req, self.machine()));
                    }
                    return Result::NeedsFloat(req);
                },
            }
            taken = taken + 1;
        }
        Result::RuntimeErr(RuntimeError::StepLimit)
    }

    /// Hands the VM the result of the float operation it asked for: pushes `v` and
    /// returns true, or returns false when nothing was asked.
    pub fn supply_float(&mut self, v: ValueType) -> (r: bool)
        requires
            old(self).wf(),
        ensures
            final(self).wf(),
            final(self).code() == old(self).code(),
            final(self).consts() == old(self).consts(),
            final(self).pending() is None,
            r == old(self).pending() is Some,
            r ==> final(self).machine() == (Machine {
                stack: old(self).machine().stack.push(v),
                ..old(self).machine()
            }),
            !r ==> final(self).machine() == old(self).machine(),
    {
        match self.pending {
            Some(_) => {
                self.stack.push(v);
                self.pending = None;
                true
            },
            None => false,
        }
    }

    /// The string table, which concatenation may have grown.
    pub fn interner(&self) -> (r: &Interner)
        ensures
            r@ == self.machine().strs,
    {
        &self.interner
    }
}

/// Relies on i64::checked_pow: `base` raised to `exp`, or `None` when that
/// leaves the i64 range.
#[verifier::external_body]
fn checked_pow(base: i64, exp: u32) -> (r: Option<i64>)
    ensures
        in_i64(pow(base as int, exp as nat)) ==> r == Some(pow(base as int, exp as nat) as i64),
        !in_i64(pow(base as int, exp as nat)) ==> r is None,
{
    base.checked_pow(exp)
}

/// `Integer op Integer` for the arithmetic instructions; see `int_arith`.
fn int_arith_exec(op: OpCode, a: i64, b: i64) -> (r: core::result::Result<i64, RuntimeError>)
    ensures
        r == int_arith(op, a, b),
{
    let overflow = Err(RuntimeError::IntegerOverflow);
    match op {
        OpCode::OpAdd => match a.checked_add(b) {
            Some(v) => Ok(v),
            None => overflow,
        },
        OpCode::OpSubtract => match a.checked_sub(b) {
            Some(v) => Ok(v),
            None => overflow,
        },
        OpCode::OpMultiply => match a.checked_mul(b) {
            Some(v) => Ok(v),
            None => overflow,
        },
        OpCode::OpDivide => if b == 0 {
            Err(RuntimeError::DivisionByZero)
        } else {
            match a.checked_div(b) {
                Some(v) => Ok(v),
                None => overflow,
            }
        },
        _ => if b < 0 {
            Err(RuntimeError::NegativeExponent)
        } else if b > u32::MAX as i64 {
            overflow
        } else {
            match checked_pow(a, b as u32) {
                Some(v) => Ok(v),
                None => overflow,
            }
        },
    }
}

/// The result of a binary instruction; see `binary_outcome`.
fn outcome_of(op: OpCode, a: ValueType, b: ValueType) -> (r: Outcome)
    ensures
        r == binary_outcome(op, a, b),
{
    match (a, b) {
        (ValueType::Integer(x), ValueType::Integer(y)) => match op {
            OpCode::OpEqualEqual => Outcome::Value(ValueType::Boolean(x == y)),
            OpCode::OpGreater => Outcome::Value(ValueType::Boolean(x > y)),
            OpCode::OpLess => Outcome::Value(ValueType::Boolean(x < y)),
            _ => match int_arith_exec(op, x, y) {
                Ok(v) => Outcome::Value(ValueType::Integer(v)),
                Err(e) => Outcome::Error(e),
            },
        },
        _ => if a.is_number() && b.is_number() {
            Outcome::Float(FloatRequest { op: float_op_of(op), lhs: a, rhs: b })
        } else {
            match (op, a, b) {
                (OpCode::OpAdd, ValueType::String(x), ValueType::String(y)) => Outcome::Concat(x, y),
                (OpCode::OpEqualEqual, _, _) => Outcome::Value(ValueType::Boolean(a == b)),
                _ => Outcome::Error(RuntimeError::TypeMismatch(op, a.tag(), b.tag())),
            }
        },
    }
}

fn float_op_of(op: OpCode) -> (r: FloatOp)
    ensures
        r == float_op(op),
{
    match op {
        OpCode::OpAdd => FloatOp::Add,
        OpCode::OpSubtract => FloatOp::Sub,
        OpCode::OpMultiply => FloatOp::Mul,
        OpCode::OpDivide => FloatOp::Div,
        OpCode::OpPower => FloatOp::Pow,
        OpCode::OpEqualEqual => FloatOp::Equal,
        OpCode::OpGreater => FloatOp::Greater,
        _ => FloatOp::Less,
    }
}

} // verus!
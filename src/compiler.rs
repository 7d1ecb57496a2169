use vstd::prelude::*;

use crate::ast::{arity, ASTNode, BinaryOp, Ops, PostfixOp, UnaryOp};
use crate::chunk::{is_jump, lemma_jump_takes_operand, takes_operand, Chunk, OpCode, VectorType};
use crate::interner::{interned, Interner};
use crate::value::ValueType;

verus! {

/// Most locals that can be live at once; each takes one operand-stack slot.
pub const MAX_LOCALS: usize = 256;

/// Why a program tree could not be compiled.
#[derive(Clone, Copy, Debug, PartialEq, Eq, Structural)]
pub enum CompileError {
    /// A block declared a local while `MAX_LOCALS` were already live.
    TooManyLocals,
    /// An operator with no lowering (indexing, method calls).
    UnsupportedOperator(Ops),
    /// Function definitions and callees are not compiled.
    UnsupportedFunction,
    /// A node of the wrong shape: a statement where an expression belongs, or
    /// the wrong number of children.
    MalformedNode,
    /// Blocks nested deeper than a `usize` can count.
    NestingTooDeep,
    /// The constant pool is full.
    ProgramTooLarge,
}

/// The compiler's state as the contracts see it: code, constant pool, interned
/// strings, the live locals as (name, scope depth), and the current scope depth.
pub struct Emit {
    pub code: Seq<VectorType>,
    pub consts: Seq<ValueType>,
    pub strs: Seq<Seq<char>>,
    pub locals: Seq<(Seq<char>, nat)>,
    pub depth: nat,
}

pub open spec fn emit_op(st: Emit, op: OpCode) -> Emit {
    Emit { code: st.code.push(VectorType::Code(op)), ..st }
}

/// Adds `v` to the pool and a reference to it to the code.
pub open spec fn emit_const(st: Emit, v: ValueType) -> Result<Emit, CompileError> {
    if st.consts.len() >= usize::MAX {
        Err(CompileError::ProgramTooLarge)
    } else {
        Ok(
            Emit {
                code: st.code.push(VectorType::Constant(st.consts.len() as usize)),
                consts: st.consts.push(v),
                ..st
            },
        )
    }
}

pub open spec fn intern_in(st: Emit, s: Seq<char>) -> (Emit, nat) {
    let (t, i) = interned(st.strs, s);
    (Emit { strs: t, ..st }, i)
}

/// Slot of the most recently declared local called `name`.
pub open spec fn resolve(locals: Seq<(Seq<char>, nat)>, name: Seq<char>) -> Option<nat>
    decreases locals.len(),
{
    if locals.len() == 0 {
        None
    } else if locals.last().0 == name {
        Some((locals.len() - 1) as nat)
    } else {
        resolve(locals.drop_last(), name)
    }
}

proof fn lemma_resolve_bound(locals: Seq<(Seq<char>, nat)>, name: Seq<char>)
    ensures
        resolve(locals, name) is Some ==> resolve(locals, name)->Some_0 < locals.len(),
    decreases locals.len(),
{
    if locals.len() > 0 && locals.last().0 != name {
        lemma_resolve_bound(locals.drop_last(), name);
    }
}

/// Instructions that implement an operator; the derived comparisons take two.
pub open spec fn op_codes(op: Ops) -> Seq<OpCode> {
    match op {
        Ops::BinaryOp(BinaryOp::Add) => seq![OpCode::OpAdd],
        Ops::BinaryOp(BinaryOp::Sub) => seq![OpCode::OpSubtract],
        Ops::BinaryOp(BinaryOp::Mul) => seq![OpCode::OpMultiply],
        Ops::BinaryOp(BinaryOp::At) => seq![OpCode::OpMultiply],
        Ops::BinaryOp(BinaryOp::Div) => seq![OpCode::OpDivide],
        Ops::BinaryOp(BinaryOp::Eq) => seq![OpCode::OpEqualEqual],
        Ops::BinaryOp(BinaryOp::Ne) => seq![OpCode::OpEqualEqual, OpCode::OpNot],
        Ops::BinaryOp(BinaryOp::Lt) => seq![OpCode::OpLess],
        Ops::BinaryOp(BinaryOp::Le) => seq![OpCode::OpGreater, OpCode::OpNot],
        Ops::BinaryOp(BinaryOp::Gt) => seq![OpCode::OpGreater],
        Ops::BinaryOp(BinaryOp::Ge) => seq![OpCode::OpLess, OpCode::OpNot],
        Ops::UnaryOp(UnaryOp::Negate) => seq![OpCode::OpNegate],
        Ops::UnaryOp(UnaryOp::Not) => seq![OpCode::OpNot],
        Ops::PostfixOp(PostfixOp::StarStar) => seq![OpCode::OpPower],
        Ops::PostfixOp(_) => seq![],
    }
}

pub open spec fn op_supported(op: Ops) -> bool {
    op != Ops::PostfixOp(PostfixOp::Index) && op != Ops::PostfixOp(PostfixOp::Call)
}

pub open spec fn emit_ops(st: Emit, op: Ops) -> Emit {
    Emit { code: st.code + op_codes(op).map_values(|o: OpCode| VectorType::Code(o)), ..st }
}

/// Lowering of an expression: it leaves exactly one value on the stack.
pub open spec fn lower_expr(st: Emit, n: ASTNode) -> Result<Emit, CompileError>
    decreases n,
{
    match n {
        ASTNode::IntNumber(v) => emit_const(emit_op(st, OpCode::OpConstant), ValueType::Integer(v)),
        ASTNode::FloatNumber(b) => emit_const(emit_op(st, OpCode::OpConstant), ValueType::Float(b)),
        ASTNode::Boolean(b) => Ok(
            emit_op(
                st,
                if b {
                    OpCode::OpTrue
                } else {
                    OpCode::OpFalse
                },
            ),
        ),
        ASTNode::String(s) => {
            let (s1, id) = intern_in(st, s@);
            emit_const(emit_op(s1, OpCode::OpConstant), ValueType::String(id as usize))
        },
        ASTNode::Identifier(name) => match resolve(st.locals, name@) {
            Some(slot) => emit_const(
                emit_op(st, OpCode::OpGetLocal),
                ValueType::Integer(slot as i64),
            ),
            None => {
                let (s1, id) = intern_in(st, name@);
                emit_const(emit_op(s1, OpCode::OpGetGlobal), ValueType::Identifier(id as usize))
            },
        },
        ASTNode::Op(op, args) => {
            if args.len() != arity(op) {
                Err(CompileError::MalformedNode)
            } else if !op_supported(op) {
                Err(CompileError::UnsupportedOperator(op))
            } else if args.len() == 1 {
                match lower_expr(st, args@[0]) {
                    Ok(s1) => Ok(emit_ops(s1, op)),
                    Err(e) => Err(e),
                }
            } else {
                match lower_expr(st, args@[0]) {
                    Ok(s1) => match lower_expr(s1, args@[1]) {
                        Ok(s2) => Ok(emit_ops(s2, op)),
                        Err(e) => Err(e),
                    },
                    Err(e) => Err(e),
                }
            }
        },
        ASTNode::Callee(..) | ASTNode::Function(..) => Err(CompileError::UnsupportedFunction),
        _ => Err(CompileError::MalformedNode),
    }
}

/// Drops the locals declared deeper than the current depth, one pop each.
pub open spec fn close_scope(st: Emit) -> Emit
    decreases st.locals.len(),
{
    if st.locals.len() > 0 && st.locals.last().1 > st.depth {
        close_scope(
            Emit {
                code: st.code.push(VectorType::Code(OpCode::OpPop)),
                locals: st.locals.drop_last(),
                ..st
            },
        )
    } else {
        st
    }
}

/// A jump instruction with a placeholder target; also yields the index of the
/// target's constant.
pub open spec fn emit_jump(st: Emit, op: OpCode) -> Result<(Emit, nat), CompileError> {
    if st.consts.len() >= usize::MAX {
        Err(CompileError::ProgramTooLarge)
    } else {
        Ok(
            (
                Emit {
                    code: st.code.push(VectorType::Code(op)).push(
                        VectorType::Constant(st.consts.len() as usize),
                    ),
                    consts: st.consts.push(ValueType::JumpOffset(0)),
                    ..st
                },
                st.consts.len(),
            ),
        )
    }
}

/// Sets the target of the jump whose constant is at `k` to the current end of code.
pub open spec fn patch_here(st: Emit, k: nat) -> Emit {
    Emit { consts: st.consts.update(k as int, ValueType::JumpOffset(st.code.len() as usize)), ..st }
}

/// Lowering of a statement: it leaves the stack as it found it, except that a
/// `let` inside a block leaves its value as the new local's slot. The branches of
/// a conditional and the body of a loop are scopes of their own, as blocks are.
pub open spec fn lower_stmt(st: Emit, n: ASTNode) -> Result<Emit, CompileError>
    decreases n, 0nat,
{
    match n {
        ASTNode::IntNumber(_) | ASTNode::FloatNumber(_) | ASTNode::Boolean(_) | ASTNode::String(_)
        | ASTNode::Identifier(_) | ASTNode::Op(..) => match lower_expr(st, n) {
            Ok(s1) => Ok(emit_op(s1, OpCode::OpPop)),
            Err(e) => Err(e),
        },
        ASTNode::Print(v) => if v.len() != 1 {
            Err(CompileError::MalformedNode)
        } else {
            match lower_expr(st, v@[0]) {
                Ok(s1) => Ok(emit_op(s1, OpCode::OpPrint)),
                Err(e) => Err(e),
            }
        },
        ASTNode::Let(name, v) => if v.len() != 1 {
            Err(CompileError::MalformedNode)
        } else if st.depth > 0 {
            if st.locals.len() >= MAX_LOCALS {
                Err(CompileError::TooManyLocals)
            } else {
                match lower_expr(st, v@[0]) {
                    Ok(s1) => Ok(Emit { locals: s1.locals.push((name@, st.depth)), ..s1 }),
                    Err(e) => Err(e),
                }
            }
        } else {
            let (s1, id) = intern_in(st, name@);
            if s1.consts.len() >= usize::MAX {
                Err(CompileError::ProgramTooLarge)
            } else {
                let k = s1.consts.len();
                let s2 = Emit { consts: s1.consts.push(ValueType::Identifier(id as usize)), ..s1 };
                match lower_expr(s2, v@[0]) {
                    Ok(s3) => Ok(
                        Emit {
                            code: s3.code.push(VectorType::Code(OpCode::OpDefineGlobal)).push(
                                VectorType::Constant(k as usize),
                            ),
                            ..s3
                        },
                    ),
                    Err(e) => Err(e),
                }
            }
        },
        ASTNode::Assign(name, v) => if v.len() != 1 {
            Err(CompileError::MalformedNode)
        } else {
            match lower_expr(st, v@[0]) {
                Ok(s1) => {
                    let s2 = match resolve(s1.locals, name@) {
                        Some(slot) => emit_const(
                            emit_op(s1, OpCode::OpSetLocal),
                            ValueType::Integer(slot as i64),
                        ),
                        None => {
                            let (t, id) = intern_in(s1, name@);
                            emit_const(
                                emit_op(t, OpCode::OpSetGlobal),
                                ValueType::Identifier(id as usize),
                            )
                        },
                    };
                    match s2 {
                        Ok(s3) => Ok(emit_op(s3, OpCode::OpPop)),
                        Err(e) => Err(e),
                    }
                },
                Err(e) => Err(e),
            }
        },
        ASTNode::Block(v) => lower_scope(st, v@),
        ASTNode::If(c, t, e) => if c.len() != 1 {
            Err(CompileError::MalformedNode)
        } else {
            match lower_expr(st, c@[0]) {
                Err(err) => Err(err),
                Ok(s1) => match emit_jump(s1, OpCode::OpJumpIfFalse) {
                    Err(err) => Err(err),
                    Ok((s2, k1)) => match lower_scope(emit_op(s2, OpCode::OpPop), t@) {
                        Err(err) => Err(err),
                        Ok(s4) => match emit_jump(s4, OpCode::OpJump) {
                            Err(err) => Err(err),
                            Ok((s5, k2)) => {
                                let s6 = emit_op(patch_here(s5, k1), OpCode::OpPop);
                                match e {
                                    None => Ok(patch_here(s6, k2)),
                                    Some(ev) => match lower_scope(s6, ev@) {
                                        Err(err) => Err(err),
                                        Ok(s7) => Ok(patch_here(s7, k2)),
                                    },
                                }
                            },
                        },
                    },
                },
            }
        },
        ASTNode::While(c, b) => if c.len() != 1 {
            Err(CompileError::MalformedNode)
        } else {
            match lower_expr(st, c@[0]) {
                Err(err) => Err(err),
                Ok(s1) => match emit_jump(s1, OpCode::OpJumpIfFalse) {
                    Err(err) => Err(err),
                    Ok((s2, k1)) => match lower_scope(emit_op(s2, OpCode::OpPop), b@) {
                        Err(err) => Err(err),
                        Ok(s4) => match emit_const(
                            emit_op(s4, OpCode::OpLoop),
                            ValueType::JumpOffset(st.code.len() as usize),
                        ) {
                            Err(err) => Err(err),
                            Ok(s5) => Ok(emit_op(patch_here(s5, k1), OpCode::OpPop)),
                        },
                    },
                },
            }
        },
        ASTNode::Callee(..) | ASTNode::Function(..) => Err(CompileError::UnsupportedFunction),
    }
}

/// Statements one after another, at the current depth.
pub open spec fn lower_stmts(st: Emit, s: Seq<ASTNode>) -> Result<Emit, CompileError>
    decreases s, 0nat,
{
    if s.len() == 0 {
        Ok(st)
    } else {
        match lower_stmts(st, s.drop_last()) {
            Ok(s1) => lower_stmt(s1, s.last()),
            Err(e) => Err(e),
        }
    }
}

/// Statements in a scope one level deeper; its locals are popped at the end.
pub open spec fn lower_scope(st: Emit, s: Seq<ASTNode>) -> Result<Emit, CompileError>
    decreases s, 1nat,
{
    if st.depth >= usize::MAX {
        Err(CompileError::NestingTooDeep)
    } else {
        match lower_stmts(Emit { depth: st.depth + 1, ..st }, s) {
            Ok(s1) => Ok(close_scope(Emit { depth: st.depth, ..s1 })),
            Err(e) => Err(e),
        }
    }
}

/// A chunk that only grew keeps its old cells sound; with its new cells sound it is
/// well formed.
proof fn lemma_grow(a: Chunk, b: Chunk)
    requires
        a.wf(),
        a.code.len() <= b.code.len(),
        b.code@.subrange(0, a.code.len() as int) == a.code@,
        a.constants.len() <= b.constants.len(),
        b.constants@.subrange(0, a.constants.len() as int) == a.constants@,
    ensures
        forall|i: int| 0 <= i < a.code.len() ==> #[trigger] b.cell_ok(i),
        (forall|i: int| a.code.len() <= i < b.code.len() ==> #[trigger] b.cell_ok(i)) ==> b.wf(),
{
    assert forall|i: int| 0 <= i < a.code.len() implies #[trigger] b.cell_ok(i) by {
        assert(a.cell_ok(i));
        assert(b.code@[i] == a.code@[i]);
        if i + 1 < a.code.len() {
            assert(b.code@[i + 1] == a.code@[i + 1]);
        }
        match a.code@[i] {
            VectorType::Code(op) => {
                if is_jump(op) {
                    let k = a.code@[i + 1]->Constant_0;
                    assert(b.constants@[k as int] == a.constants@[k as int]);
                }
            },
            _ => {},
        }
    }
    if forall|i: int| a.code.len() <= i < b.code.len() ==> #[trigger] b.cell_ok(i) {
        assert forall|i: int| 0 <= i < b.code.len() implies #[trigger] b.cell_ok(i) by {
            if i < a.code.len() {
            }
        }
    }
}

/// Code and pool only grew, and the scope depth is back where it was.
pub open spec fn grew(a: Emit, b: Emit) -> bool {
    &&& a.code.len() <= b.code.len()
    &&& a.consts.len() <= b.consts.len()
    &&& a.depth == b.depth
}

/// An error among the first `i` statements is the error of them all.
proof fn lemma_stmts_err(st: Emit, s: Seq<ASTNode>, i: int)
    requires
        0 <= i <= s.len(),
        lower_stmts(st, s.take(i)) is Err,
    ensures
        lower_stmts(st, s) == lower_stmts(st, s.take(i)),
    decreases s.len() - i,
{
    if i < s.len() {
        assert(s.take(i + 1).drop_last() =~= s.take(i));
        lemma_stmts_err(st, s, i + 1);
    } else {
        assert(s.take(i) =~= s);
    }
}

/// The state before anything is compiled.
pub open spec fn initial_emit() -> Emit {
    Emit {
        code: Seq::empty(),
        consts: Seq::empty(),
        strs: Seq::empty(),
        locals: Seq::empty(),
        depth: 0,
    }
}

/// What compiling a whole program yields: its statements, then `OpReturn`.
pub open spec fn lower_program(nodes: Seq<ASTNode>) -> Result<Emit, CompileError> {
    match lower_stmts(initial_emit(), nodes) {
        Ok(st) => Ok(emit_op(st, OpCode::OpReturn)),
        Err(e) => Err(e),
    }
}

/// `r` holds exactly the code, pool and strings of `expected`, or its error.
pub open spec fn compiled_as(
    r: Result<(Chunk, Interner), CompileError>,
    expected: Result<Emit, CompileError>,
) -> bool {
    match expected {
        Ok(st) => {
            &&& r is Ok
            &&& r->Ok_0.0.code@ == st.code
            &&& r->Ok_0.0.constants@ == st.consts
            &&& r->Ok_0.1@ == st.strs
        },
        Err(e) => r == Err::<(Chunk, Interner), CompileError>(e),
    }
}

/// Compiling the same program twice gives the same code, constant pool and
/// string table, or the same error.
pub proof fn compile_is_deterministic(
    nodes: Seq<ASTNode>,
    r1: Result<(Chunk, Interner), CompileError>,
    r2: Result<(Chunk, Interner), CompileError>,
)
    requires
        compiled_as(r1, lower_program(nodes)),
        compiled_as(r2, lower_program(nodes)),
    ensures
        r1 is Ok <==> r2 is Ok,
        r1 is Ok ==> {
            &&& r1->Ok_0.0.code@ == r2->Ok_0.0.code@
            &&& r1->Ok_0.0.constants@ == r2->Ok_0.0.constants@
            &&& r1->Ok_0.1@ == r2->Ok_0.1@
        },
        r1 is Err ==> r1 == r2,
{
}

/// A jump whose target is not known yet: the index of its placeholder
/// `JumpOffset` constant. It is consumed by the one patch that sets the target.
struct PendingJump {
    constant: usize,
}

/// A local variable known at compile time; its slot is its position in the list.
#[derive(Debug)]
struct Local {
    name: String,
    depth: usize,
}

/// Lowers a program tree to a chunk in one pass.
pub struct Compiler {
    chunk: Chunk,
    interner: Interner,
    locals: Vec<Local>,
    scope_depth: usize,
}

impl Compiler {
    pub closed spec fn state(&self) -> Emit {
        Emit {
            code: self.chunk.code@,
            consts: self.chunk.constants@,
            strs: self.interner@,
            locals: self.locals@.map_values(|l: Local| (l.name@, l.depth as nat)),
            depth: self.scope_depth as nat,
        }
    }

    pub closed spec fn wf(&self) -> bool {
        &&& self.chunk.wf()
        &&& self.interner.wf()
        &&& self.locals.len() <= MAX_LOCALS
    }

    pub fn new() -> (r: Self)
        ensures
            r.wf(),
            r.state() == initial_emit(),
    {
        let r = Compiler {
            chunk: Chunk::new(),
            interner: Interner::new(),
            locals: Vec::new(),
            scope_depth: 0,
        };
        proof {
            assert(r.state().locals =~= Seq::<(Seq<char>, nat)>::empty());
        }
        r
    }

    /// Appends an instruction that takes no operand.
    fn emit_op(&mut self, op: OpCode)
        requires
            old(self).wf(),
            !takes_operand(op),
        ensures
            final(self).wf(),
            final(self).state() == emit_op(old(self).state(), op),
    {
        let ghost c0 = self.chunk;
        self.chunk.write(VectorType::Code(op));
        proof {
            assert(self.chunk.code@.subrange(0, c0.code.len() as int) =~= c0.code@);
            assert(self.chunk.constants@.subrange(0, c0.constants.len() as int) =~= c0.constants@);
            lemma_grow(c0, self.chunk);
            assert(self.chunk.cell_ok(c0.code.len() as int));
        }
    }

    /// Appends an instruction with a reference to constant `k`, already in the pool.
    fn emit_with_ref(&mut self, op: OpCode, k: usize)
        requires
            old(self).wf(),
            takes_operand(op),
            !is_jump(op),
            k < old(self).chunk.constants.len(),
        ensures
            final(self).wf(),
            final(self).state() == (Emit {
                code: old(self).state().code.push(VectorType::Code(op)).push(
                    VectorType::Constant(k),
                ),
                ..old(self).state()
            }),
    {
        let ghost c0 = self.chunk;
        self.chunk.write(VectorType::Code(op));
        self.chunk.write(VectorType::Constant(k));
        proof {
            assert(self.chunk.code@.subrange(0, c0.code.len() as int) =~= c0.code@);
            assert(self.chunk.constants@.subrange(0, c0.constants.len() as int) =~= c0.constants@);
            lemma_grow(c0, self.chunk);
            assert(self.chunk.cell_ok(c0.code.len() as int));
            assert(self.chunk.cell_ok(c0.code.len() + 1));
        }
    }

    /// Adds `v` to the pool and appends `op` with a reference to it.
    fn emit_with_constant(&mut self, op: OpCode, v: ValueType) -> (r: Result<(), CompileError>)
        requires
            old(self).wf(),
            takes_operand(op),
            is_jump(op) ==> v is JumpOffset && v->JumpOffset_0 <= old(self).chunk.code.len(),
        ensures
            match emit_const(emit_op(old(self).state(), op), v) {
                Ok(st) => r is Ok && final(self).wf() && final(self).state() == st,
                Err(e) => r == Err::<(), CompileError>(e),
            },
    {
        if self.chunk.constants.len() == usize::MAX {
            return Err(CompileError::ProgramTooLarge);
        }
        let ghost c0 = self.chunk;
        let k = self.chunk.add_constant(v);
        self.chunk.write(VectorType::Code(op));
        self.chunk.write(VectorType::Constant(k));
        proof {
            assert(self.chunk.code@.subrange(0, c0.code.len() as int) =~= c0.code@);
            assert(self.chunk.constants@.subrange(0, c0.constants.len() as int) =~= c0.constants@);
            lemma_grow(c0, self.chunk);
            assert(self.chunk.cell_ok(c0.code.len() as int));
            assert(self.chunk.cell_ok(c0.code.len() + 1));
        }
        Ok(())
    }

    /// Appends a jump with a placeholder target and returns the handle that
    /// patches it.
    fn emit_jump(&mut self, op: OpCode) -> (r: Result<PendingJump, CompileError>)
        requires
            old(self).wf(),
            is_jump(op),
        ensures
            match emit_jump(old(self).state(), op) {
                Ok((st, k)) => r is Ok && r->Ok_0.constant == k && final(self).wf()
                    && final(self).state() == st,
                Err(e) => r matches Err(e2) && e2 == e,
            },
    {
        if self.chunk.constants.len() == usize::MAX {
            return Err(CompileError::ProgramTooLarge);
        }
        let ghost c0 = self.chunk;
        let k = self.chunk.add_constant(ValueType::JumpOffset(0));
        self.chunk.write(VectorType::Code(op));
        self.chunk.write(VectorType::Constant(k));
        proof {
            lemma_jump_takes_operand(op);
            assert(self.chunk.code@.subrange(0, c0.code.len() as int) =~= c0.code@);
            assert(self.chunk.constants@.subrange(0, c0.constants.len() as int) =~= c0.constants@);
            lemma_grow(c0, self.chunk);
            assert(self.chunk.cell_ok(c0.code.len() as int));
            assert(self.chunk.cell_ok(c0.code.len() + 1));
        }
        Ok(PendingJump { constant: k })
    }

    /// Points the pending jump at the current end of code; the handle is used up.
    fn patch_here(&mut self, jump: PendingJump)
        requires
            old(self).wf(),
            jump.constant < old(self).chunk.constants.len(),
        ensures
            final(self).wf(),
            final(self).state() == patch_here(old(self).state(), jump.constant as nat),
            final(self).chunk.constants.len() == old(self).chunk.constants.len(),
    {
        let ghost c0 = self.chunk;
        let target = self.chunk.code.len();
        self.chunk.constants.set(jump.constant, ValueType::JumpOffset(target));
        proof {
            let c = self.chunk;
            assert forall|i: int| 0 <= i < c.code.len() implies #[trigger] c.cell_ok(i) by {
                assert(c0.cell_ok(i));
            }
        }
    }

    /// Slot of the most recently declared local called `name`, if any.
    fn resolve_local(&self, name: &String) -> (r: Option<usize>)
        ensures
            r is Some ==> r->Some_0 < self.locals.len(),
            resolve(self.state().locals, name@) is Some ==> resolve(self.state().locals, name@)->Some_0 < self.locals.len(),
            match resolve(self.state().locals, name@) {
                Some(slot) => r == Some(slot as usize),
                None => r is None,
            },
    {
        let ghost ls = self.state().locals;
        proof {
            lemma_resolve_bound(ls, name@);
        }
        let mut i = self.locals.len();
        proof {
            assert(ls.take(i as int) =~= ls);
        }
        while i > 0
            invariant
                i <= self.locals.len(),
                ls == self.state().locals,
                resolve(ls, name@) == resolve(ls.take(i as int), name@),
            decreases i,
        {
            proof {
                assert(ls.take(i as int).drop_last() =~= ls.take(i - 1));
                assert(ls.take(i as int).last() == ls[i - 1]);
            }
            if self.locals[i - 1].name == *name {
                return Some(i - 1);
            }
            i -= 1;
        }
        None
    }

    /// Index of `name` in the string table, adding it if needed.
    fn intern(&mut self, name: &String) -> (r: usize)
        requires
            old(self).wf(),
        ensures
            final(self).wf(),
            (final(self).state(), r as nat) == intern_in(old(self).state(), name@),
    {
        self.interner.intern_string(name.clone())
    }

    /// Appends the instructions of a supported operator.
    fn emit_ops(&mut self, op: Ops)
        requires
            old(self).wf(),
            op_supported(op),
        ensures
            final(self).wf(),
            final(self).state() == emit_ops(old(self).state(), op),
    {
        let ghost st0 = self.state();
        let (a, b) = op_instructions(op);
        self.emit_op(a);
        match b {
            Some(b) => {
                self.emit_op(b);
                proof {
                    assert(op_codes(op).map_values(|o: OpCode| VectorType::Code(o)) =~= seq![
                        VectorType::Code(a),
                        VectorType::Code(b),
                    ]);
                    assert(self.state().code =~= emit_ops(st0, op).code);
                }
            },
            None => {
                proof {
                    assert(op_codes(op).map_values(|o: OpCode| VectorType::Code(o)) =~= seq![
                        VectorType::Code(a),
                    ]);
                    assert(self.state().code =~= emit_ops(st0, op).code);
                }
            },
        }
    }

    /// Lowers an expression; see `lower_expr`.
    fn visit_expr(&mut self, n: &ASTNode) -> (r: Result<(), CompileError>)
        requires
            old(self).wf(),
        ensures
            match lower_expr(old(self).state(), *n) {
                Ok(st) => r is Ok && final(self).wf() && final(self).state() == st && grew(
                    old(self).state(),
                    st,
                ) && st.locals == old(self).state().locals,
                Err(e) => r == Err::<(), CompileError>(e),
            },
        decreases n,
    {
        match n {
            ASTNode::IntNumber(v) => {
                self.emit_with_constant(OpCode::OpConstant, ValueType::Integer(*v))
            },
            ASTNode::FloatNumber(b) => self.emit_with_constant(
                OpCode::OpConstant,
                ValueType::Float(*b),
            ),
            ASTNode::Boolean(b) => {
                self.emit_op(
                    if *b {
                        OpCode::OpTrue
                    } else {
                        OpCode::OpFalse
                    },
                );
                Ok(())
            },
            ASTNode::String(s) => {
                let id = self.intern(s);
                self.emit_with_constant(OpCode::OpConstant, ValueType::String(id))
            },
            ASTNode::Identifier(name) => match self.resolve_local(name) {
                Some(slot) => {
                    assert(slot < MAX_LOCALS);
                    self.emit_with_constant(OpCode::OpGetLocal, ValueType::Integer(slot as i64))
                },
                None => {
                    let id = self.intern(name);
                    self.emit_with_constant(OpCode::OpGetGlobal, ValueType::Identifier(id))
                },
            },
            ASTNode::Op(op, args) => {
                if args.len() != op.arity() {
                    return Err(CompileError::MalformedNode);
                }
                if !is_supported(op) {
                    return Err(CompileError::UnsupportedOperator(*op));
                }
                proof {
                    assert(decreases_to!(*n => (*n)->Op_1));
                    assert(decreases_to!(*args => args[0]));
                }
                match self.visit_expr(&args[0]) {
                    Ok(()) => {},
                    Err(e) => {
                        return Err(e);
                    },
                }
                if args.len() == 2 {
                    proof {
                        assert(decreases_to!(*args => args[1]));
                    }
                    match self.visit_expr(&args[1]) {
                        Ok(()) => {},
                        Err(e) => {
                            return Err(e);
                        },
                    }
                }
                self.emit_ops(*op);
                Ok(())
            },
            ASTNode::Callee(..) | ASTNode::Function(..) => Err(CompileError::UnsupportedFunction),
            _ => Err(CompileError::MalformedNode),
        }
    }

    /// Adds `v` to the pool without referring to it yet.
    fn add_constant(&mut self, v: ValueType) -> (r: Result<usize, CompileError>)
        requires
            old(self).wf(),
            !(v is JumpOffset),
        ensures
            old(self).state().consts.len() >= usize::MAX ==> r == Err::<usize, CompileError>(
                CompileError::ProgramTooLarge,
            ),
            old(self).state().consts.len() < usize::MAX ==> r == Ok::<usize, CompileError>(
                old(self).state().consts.len() as usize,
            ) && final(self).wf() && final(self).state() == (Emit {
                consts: old(self).state().consts.push(v),
                ..old(self).state()
            }),
    {
        if self.chunk.constants.len() == usize::MAX {
            return Err(CompileError::ProgramTooLarge);
        }
        let ghost c0 = self.chunk;
        let k = self.chunk.add_constant(v);
        proof {
            assert(self.chunk.code@.subrange(0, c0.code.len() as int) =~= c0.code@);
            assert(self.chunk.constants@.subrange(0, c0.constants.len() as int) =~= c0.constants@);
            lemma_grow(c0, self.chunk);
        }
        Ok(k)
    }

    /// Pops the locals of the scope just left, one `OpPop` each.
    fn close_scope(&mut self)
        requires
            old(self).wf(),
        ensures
            final(self).wf(),
            final(self).state() == close_scope(old(self).state()),
            grew(old(self).state(), final(self).state()),
    {
        while self.locals.len() > 0 && self.locals[self.locals.len() - 1].depth > self.scope_depth
            invariant
                self.wf(),
                close_scope(self.state()) == close_scope(old(self).state()),
                grew(old(self).state(), self.state()),
            decreases self.locals.len(),
        {
            let ghost st = self.state();
            self.locals.pop();
            self.emit_op(OpCode::OpPop);
            proof {
                assert(self.state().locals =~= st.locals.drop_last());
                assert(self.state() == (Emit {
                    code: st.code.push(VectorType::Code(OpCode::OpPop)),
                    locals: st.locals.drop_last(),
                    ..st
                }));
            }
        }
    }

    /// Lowers statements one after another; see `lower_stmts`.
    fn visit_all(&mut self, v: &Vec<ASTNode>) -> (r: Result<(), CompileError>)
        requires
            old(self).wf(),
        ensures
            match lower_stmts(old(self).state(), v@) {
                Ok(st) => r is Ok && final(self).wf() && final(self).state() == st && grew(
                    old(self).state(),
                    st,
                ),
                Err(e) => r == Err::<(), CompileError>(e),
            },
        decreases v@, 0nat,
    {
        let ghost st0 = self.state();
        let mut i: usize = 0;
        proof {
            assert(v@.take(0) =~= Seq::<ASTNode>::empty());
        }
        while i < v.len()
            invariant
                self.wf(),
                i <= v.len(),
                st0 == old(self).state(),
                lower_stmts(st0, v@.take(i as int)) == Ok::<Emit, CompileError>(self.state()),
                grew(st0, self.state()),
            decreases v.len() - i,
        {
            proof {
                assert(v@.take(i + 1).drop_last() =~= v@.take(i as int));
                assert(v@.take(i + 1).last() == v@[i as int]);
                assert(decreases_to!(v@ => v@[i as int]));
            }
            let ghost pre = self.state();
            match self.visit_stmt(&v[i]) {
                Ok(()) => {},
                Err(e) => {
                    proof {
                        assert(lower_stmt(pre, v@[i as int]) == Err::<Emit, CompileError>(e));
                        assert(lower_stmts(st0, v@.take(i + 1)) == Err::<Emit, CompileError>(e));
                        lemma_stmts_err(st0, v@, i + 1);
                    }
                    return Err(e);
                },
            }
            i += 1;
        }
        proof {
            assert(v@.take(v.len() as int) =~= v@);
        }
        Ok(())
    }

    /// Lowers statements in a nested scope; see `lower_scope`.
    fn visit_scope(&mut self, v: &Vec<ASTNode>) -> (r: Result<(), CompileError>)
        requires
            old(self).wf(),
        ensures
            match lower_scope(old(self).state(), v@) {
                Ok(st) => r is Ok && final(self).wf() && final(self).state() == st && grew(
                    old(self).state(),
                    st,
                ),
                Err(e) => r == Err::<(), CompileError>(e),
            },
        decreases v@, 1nat,
    {
        if self.scope_depth == usize::MAX {
            return Err(CompileError::NestingTooDeep);
        }
        self.scope_depth = self.scope_depth + 1;
        match self.visit_all(v) {
            Ok(()) => {},
            Err(e) => {
                return Err(e);
            },
        }
        self.scope_depth = self.scope_depth - 1;
        self.close_scope();
        Ok(())
    }

    /// Lowers one statement; see `lower_stmt`.
    fn visit_stmt(&mut self, n: &ASTNode) -> (r: Result<(), CompileError>)
        requires
            old(self).wf(),
        ensures
            match lower_stmt(old(self).state(), *n) {
                Ok(st) => r is Ok && final(self).wf() && final(self).state() == st && grew(
                    old(self).state(),
                    st,
                ),
                Err(e) => r == Err::<(), CompileError>(e),
            },
        decreases n, 1nat,
    {
        match n {
            ASTNode::IntNumber(_) | ASTNode::FloatNumber(_) | ASTNode::Boolean(_)
            | ASTNode::String(_) | ASTNode::Identifier(_) | ASTNode::Op(..) => {
                match self.visit_expr(n) {
                    Ok(()) => {},
                    Err(e) => {
                        return Err(e);
                    },
                }
                self.emit_op(OpCode::OpPop);
                Ok(())
            },
            ASTNode::Print(v) => {
                if v.len() != 1 {
                    return Err(CompileError::MalformedNode);
                }
                match self.visit_expr(&v[0]) {
                    Ok(()) => {},
                    Err(e) => {
                        return Err(e);
                    },
                }
                self.emit_op(OpCode::OpPrint);
                Ok(())
            },
            ASTNode::Let(..) => self.visit_let(n),
            ASTNode::Assign(..) => self.visit_assign(n),
            ASTNode::Block(v) => {
                proof {
                    assert(decreases_to!(*n => (*n)->Block_0));
                }
                self.visit_scope(v)
            },
            ASTNode::If(..) => self.visit_if(n),
            ASTNode::While(..) => self.visit_while(n),
            ASTNode::Callee(..) | ASTNode::Function(..) => Err(CompileError::UnsupportedFunction),
        }
    }

    /// Lowers a conditional: condition, a jump to the `else` part when it is false,
    /// the `then` part, a jump over the `else` part, then the `else` part. Both
    /// parts pop the condition first.
    fn visit_if(&mut self, n: &ASTNode) -> (r: Result<(), CompileError>)
        requires
            old(self).wf(),
            n is If,
        ensures
            match lower_stmt(old(self).state(), *n) {
                Ok(st) => r is Ok && final(self).wf() && final(self).state() == st && grew(
                    old(self).state(),
                    st,
                ),
                Err(e) => r == Err::<(), CompileError>(e),
            },
        decreases n, 0nat,
    {
        let ASTNode::If(c, t, e) = n else {
            return Err(CompileError::MalformedNode);
        };
        if c.len() != 1 {
            return Err(CompileError::MalformedNode);
        }
        match self.visit_expr(&c[0]) {
            Ok(()) => {},
            Err(err) => {
                return Err(err);
            },
        }
        let to_else = match self.emit_jump(OpCode::OpJumpIfFalse) {
            Ok(j) => j,
            Err(err) => {
                return Err(err);
            },
        };
        self.emit_op(OpCode::OpPop);
        proof {
            assert(decreases_to!(*n => (*n)->If_1));
        }
        match self.visit_scope(t) {
            Ok(()) => {},
            Err(err) => {
                return Err(err);
            },
        }
        let over_else = match self.emit_jump(OpCode::OpJump) {
            Ok(j) => j,
            Err(err) => {
                return Err(err);
            },
        };
        self.patch_here(to_else);
        self.emit_op(OpCode::OpPop);
        match e {
            Some(ev) => {
                proof {
                    assert(decreases_to!(*n => (*n)->If_2));
                    assert(decreases_to!((*n)->If_2 => (*n)->If_2->Some_0));
                }
                match self.visit_scope(ev) {
                    Ok(()) => {},
                    Err(err) => {
                        return Err(err);
                    },
                }
            },
            None => {},
        }
        self.patch_here(over_else);
        Ok(())

    }

    /// Lowers a loop: condition, a jump out when it is false, the body, and a jump
    /// back to the condition. The condition is popped on both paths.
    fn visit_while(&mut self, n: &ASTNode) -> (r: Result<(), CompileError>)
        requires
            old(self).wf(),
            n is While,
        ensures
            match lower_stmt(old(self).state(), *n) {
                Ok(st) => r is Ok && final(self).wf() && final(self).state() == st && grew(
                    old(self).state(),
                    st,
                ),
                Err(e) => r == Err::<(), CompileError>(e),
            },
        decreases n, 0nat,
    {
        let ASTNode::While(c, b) = n else {
            return Err(CompileError::MalformedNode);
        };
        if c.len() != 1 {
            return Err(CompileError::MalformedNode);
        }
        let start = self.chunk.code.len();
        match self.visit_expr(&c[0]) {
            Ok(()) => {},
            Err(err) => {
                return Err(err);
            },
        }
        let exit = match self.emit_jump(OpCode::OpJumpIfFalse) {
            Ok(j) => j,
            Err(err) => {
                return Err(err);
            },
        };
        self.emit_op(OpCode::OpPop);
        proof {
            assert(decreases_to!(*n => (*n)->While_1));
        }
        match self.visit_scope(b) {
            Ok(()) => {},
            Err(err) => {
                return Err(err);
            },
        }
        match self.emit_with_constant(OpCode::OpLoop, ValueType::JumpOffset(start)) {
            Ok(()) => {},
            Err(err) => {
                return Err(err);
            },
        }
        self.patch_here(exit);
        self.emit_op(OpCode::OpPop);
        Ok(())

    }

    /// Lowers `let`: a global definition at depth zero, else a new local whose slot
    /// is the initializer's value.
    fn visit_let(&mut self, n: &ASTNode) -> (r: Result<(), CompileError>)
        requires
            old(self).wf(),
            n is Let,
        ensures
            match lower_stmt(old(self).state(), *n) {
                Ok(st) => r is Ok && final(self).wf() && final(self).state() == st && grew(
                    old(self).state(),
                    st,
                ),
                Err(e) => r == Err::<(), CompileError>(e),
            },
    {
        match n {
            ASTNode::Let(name, v) => {
            if v.len() != 1 {
                return Err(CompileError::MalformedNode);
            }
            if self.scope_depth > 0 {
                if self.locals.len() >= MAX_LOCALS {
                    return Err(CompileError::TooManyLocals);
                }
                match self.visit_expr(&v[0]) {
                    Ok(()) => {},
                    Err(e) => {
                        return Err(e);
                    },
                }
                let ghost st = self.state();
                self.locals.push(Local { name: name.clone(), depth: self.scope_depth });
                proof {
                    assert(self.state().locals =~= st.locals.push((name@, st.depth)));
                }
                Ok(())
            } else {
                let id = self.intern(name);
                let k = match self.add_constant(ValueType::Identifier(id)) {
                    Ok(k) => k,
                    Err(e) => {
                        return Err(e);
                    },
                };
                match self.visit_expr(&v[0]) {
                    Ok(()) => {},
                    Err(e) => {
                        return Err(e);
                    },
                }
                self.emit_with_ref(OpCode::OpDefineGlobal, k);
                Ok(())
            }

            },
            _ => Err(CompileError::MalformedNode),
        }
    }

    /// Lowers an assignment to a local or a global; the assigned value is then popped.
    fn visit_assign(&mut self, n: &ASTNode) -> (r: Result<(), CompileError>)
        requires
            old(self).wf(),
            n is Assign,
        ensures
            match lower_stmt(old(self).state(), *n) {
                Ok(st) => r is Ok && final(self).wf() && final(self).state() == st && grew(
                    old(self).state(),
                    st,
                ),
                Err(e) => r == Err::<(), CompileError>(e),
            },
    {
        match n {
            ASTNode::Assign(name, v) => {
            if v.len() != 1 {
                return Err(CompileError::MalformedNode);
            }
            match self.visit_expr(&v[0]) {
                Ok(()) => {},
                Err(e) => {
                    return Err(e);
                },
            }
            let set = match self.resolve_local(name) {
                Some(slot) => {
                    assert(slot < MAX_LOCALS);
                    self.emit_with_constant(OpCode::OpSetLocal, ValueType::Integer(slot as i64))
                },
                None => {
                    let id = self.intern(name);
                    self.emit_with_constant(OpCode::OpSetGlobal, ValueType::Identifier(id))
                },
            };
            match set {
                Ok(()) => {},
                Err(e) => {
                    return Err(e);
                },
            }
            self.emit_op(OpCode::OpPop);
            Ok(())

            },
            _ => Err(CompileError::MalformedNode),
        }
    }

    /// Compiles a program: its statements at the top level, then `OpReturn`.
    pub fn compile(self, ast: Vec<ASTNode>) -> (r: Result<(Chunk, Interner), CompileError>)
        requires
            self.wf(),
            self.state() == initial_emit(),
        ensures
            compiled_as(r, lower_program(ast@)),
            r is Ok ==> r->Ok_0.0.wf() && r->Ok_0.1.wf(),
    {
        let mut c = self;
        match c.visit_all(&ast) {
            Ok(()) => {},
            Err(e) => {
                return Err(e);
            },
        }
        c.emit_op(OpCode::OpReturn);
        Ok((c.chunk, c.interner))
    }
}

/// Whether an operator can be lowered.
fn is_supported(op: &Ops) -> (r: bool)
    ensures
        r == op_supported(*op),
{
    match op {
        Ops::PostfixOp(PostfixOp::Index) | Ops::PostfixOp(PostfixOp::Call) => false,
        _ => true,
    }
}

/// The one or two instructions of a supported operator.
fn op_instructions(op: Ops) -> (r: (OpCode, Option<OpCode>))
    requires
        op_supported(op),
    ensures
        op_codes(op) == match r.1 {
            Some(b) => seq![r.0, b],
            None => seq![r.0],
        },
        !takes_operand(r.0),
        r.1 is Some ==> !takes_operand(r.1->Some_0),
{
    match op {
        Ops::BinaryOp(BinaryOp::Add) => (OpCode::OpAdd, None),
        Ops::BinaryOp(BinaryOp::Sub) => (OpCode::OpSubtract, None),
        Ops::BinaryOp(BinaryOp::Mul) => (OpCode::OpMultiply, None),
        Ops::BinaryOp(BinaryOp::At) => (OpCode::OpMultiply, None),
        Ops::BinaryOp(BinaryOp::Div) => (OpCode::OpDivide, None),
        Ops::BinaryOp(BinaryOp::Eq) => (OpCode::OpEqualEqual, None),
        Ops::BinaryOp(BinaryOp::Ne) => (OpCode::OpEqualEqual, Some(OpCode::OpNot)),
        Ops::BinaryOp(BinaryOp::Lt) => (OpCode::OpLess, None),
        Ops::BinaryOp(BinaryOp::Le) => (OpCode::OpGreater, Some(OpCode::OpNot)),
        Ops::BinaryOp(BinaryOp::Gt) => (OpCode::OpGreater, None),
        Ops::BinaryOp(BinaryOp::Ge) => (OpCode::OpLess, Some(OpCode::OpNot)),
        Ops::UnaryOp(UnaryOp::Negate) => (OpCode::OpNegate, None),
        Ops::UnaryOp(UnaryOp::Not) => (OpCode::OpNot, None),
        _ => (OpCode::OpPower, None),
    }
}

} // verus!
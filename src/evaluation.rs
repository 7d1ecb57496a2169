use vstd::prelude::*;

use crate::ast::{arity, ASTNode, BinaryOp, Ops, PostfixOp, UnaryOp};
use crate::chunk::{OpCode, VectorType};
use crate::compiler::{emit_op, emit_ops, lower_expr, initial_emit, op_codes, lower_program, lower_stmt, lower_stmts, Emit};
use crate::value::{is_number, tag_of, ValueType, SIGN_BIT};
use crate::vm::{
    binary_outcome, float_op, int_arith, is_binary, next_step, run_answering, run_steps, start_machine,
    FloatRequest,
    Machine, Outcome, RuntimeError, Step, STACK_MAX,
};

verus! {

/// The arithmetic operators: `+ - * /`, `**` and negation.
pub open spec fn arith_op(op: Ops) -> bool {
    match op {
        Ops::BinaryOp(BinaryOp::Add) | Ops::BinaryOp(BinaryOp::Sub) | Ops::BinaryOp(BinaryOp::Mul)
        | Ops::BinaryOp(BinaryOp::Div) | Ops::PostfixOp(PostfixOp::StarStar)
        | Ops::UnaryOp(UnaryOp::Negate) => true,
        _ => false,
    }
}

/// The instruction of a binary arithmetic operator.
pub open spec fn arith_opcode(op: Ops) -> OpCode {
    match op {
        Ops::BinaryOp(BinaryOp::Add) => OpCode::OpAdd,
        Ops::BinaryOp(BinaryOp::Sub) => OpCode::OpSubtract,
        Ops::BinaryOp(BinaryOp::Mul) => OpCode::OpMultiply,
        Ops::BinaryOp(BinaryOp::Div) => OpCode::OpDivide,
        _ => OpCode::OpPower,
    }
}

/// A well-formed tree of arithmetic operators over integer literals.
pub open spec fn int_tree(e: ASTNode) -> bool
    decreases e,
{
    match e {
        ASTNode::IntNumber(_) => true,
        ASTNode::Op(op, args) => arith_op(op) && args.len() == arity(op) && int_tree(args@[0]) && (
        args.len() == 2 ==> int_tree(args@[1])),
        _ => false,
    }
}

/// A well-formed tree of arithmetic operators over integer and float literals.
pub open spec fn num_tree(e: ASTNode) -> bool
    decreases e,
{
    match e {
        ASTNode::IntNumber(_) | ASTNode::FloatNumber(_) => true,
        ASTNode::Op(op, args) => arith_op(op) && args.len() == arity(op) && num_tree(args@[0]) && (
        args.len() == 2 ==> num_tree(args@[1])),
        _ => false,
    }
}

proof fn lemma_int_tree_is_num_tree(e: ASTNode)
    requires
        int_tree(e),
    ensures
        num_tree(e),
    decreases e,
{
    match e {
        ASTNode::Op(op, args) => {
            assert(decreases_to!(e => e->Op_1));
            lemma_int_tree_is_num_tree(args@[0]);
            if args.len() == 2 {
                lemma_int_tree_is_num_tree(args@[1]);
            }
        },
        _ => {},
    }
}

/// Literals in the tree; each takes one constant.
pub open spec fn leaves(e: ASTNode) -> nat
    decreases e,
{
    match e {
        ASTNode::Op(op, args) => if args.len() == 2 {
            leaves(args@[0]) + leaves(args@[1])
        } else if args.len() == 1 {
            leaves(args@[0])
        } else {
            0
        },
        _ => 1,
    }
}

/// Stack slots that evaluating the tree needs at its peak.
pub open spec fn need(e: ASTNode) -> nat
    decreases e,
{
    match e {
        ASTNode::Op(op, args) => if args.len() == 2 {
            let a = need(args@[0]);
            let b = need(args@[1]) + 1;
            if a >= b {
                a
            } else {
                b
            }
        } else if args.len() == 1 {
            need(args@[0])
        } else {
            1
        },
        _ => 1,
    }
}

/// Ordinary integer evaluation, left operand first: overflow, division by zero
/// and negative exponents are errors.
pub open spec fn int_eval(e: ASTNode) -> Result<i64, crate::vm::RuntimeError>
    decreases e,
{
    match e {
        ASTNode::IntNumber(v) => Ok(v),
        ASTNode::Op(op, args) => if args.len() == 1 {
            match int_eval(args@[0]) {
                Ok(x) => if x == i64::MIN {
                    Err(crate::vm::RuntimeError::IntegerOverflow)
                } else {
                    Ok(-x as i64)
                },
                Err(err) => Err(err),
            }
        } else if args.len() == 2 {
            match int_eval(args@[0]) {
                Ok(x) => match int_eval(args@[1]) {
                    Ok(y) => int_arith(arith_opcode(op), x, y),
                    Err(err) => Err(err),
                },
                Err(err) => Err(err),
            }
        } else {
            Err(crate::vm::RuntimeError::MalformedCode(0))
        },
        _ => Err(crate::vm::RuntimeError::MalformedCode(0)),
    }
}

/// `a` is the first `a.len()` elements of `b`.
pub open spec fn prefix_of<T>(a: Seq<T>, b: Seq<T>) -> bool {
    a.len() <= b.len() && b.subrange(0, a.len() as int) == a
}

/// Running `a` steps then `b` steps is running `a + b` steps.
pub proof fn lemma_run_compose(
    code: Seq<VectorType>,
    consts: Seq<ValueType>,
    m: Machine,
    a: nat,
    b: nat,
)
    requires
        run_steps(code, consts, m, a) is Next,
    ensures
        run_steps(code, consts, m, a + b) == run_steps(
            code,
            consts,
            run_steps(code, consts, m, a)->Next_0,
            b,
        ),
    decreases a,
{
    if a > 0 {
        match next_step(code, consts, m) {
            Step::Next(m1) => {
                lemma_run_compose(code, consts, m1, (a - 1) as nat, b);
                assert((a + b - 1) as nat == (a - 1) as nat + b);
            },
            _ => {},
        }
    }
}

/// Lowering a numeric tree succeeds when the pool has room, only appends code
/// and constants, and touches nothing else.
pub proof fn lemma_num_tree_compiles(e: ASTNode, st: Emit)
    requires
        num_tree(e),
        st.consts.len() + leaves(e) < usize::MAX,
    ensures
        lower_expr(st, e) is Ok,
        prefix_of(st.code, lower_expr(st, e)->Ok_0.code),
        st.code.len() < lower_expr(st, e)->Ok_0.code.len(),
        prefix_of(st.consts, lower_expr(st, e)->Ok_0.consts),
        lower_expr(st, e)->Ok_0.consts.len() == st.consts.len() + leaves(e),
        lower_expr(st, e)->Ok_0.strs == st.strs,
        lower_expr(st, e)->Ok_0.locals == st.locals,
        lower_expr(st, e)->Ok_0.depth == st.depth,
    decreases e,
{
    match e {
        ASTNode::IntNumber(_) | ASTNode::FloatNumber(_) => {
            let s2 = lower_expr(st, e)->Ok_0;
            assert(s2.code.subrange(0, st.code.len() as int) =~= st.code);
            assert(s2.consts.subrange(0, st.consts.len() as int) =~= st.consts);
        },
        ASTNode::Op(op, args) => {
            assert(decreases_to!(e => e->Op_1));
            lemma_num_tree_compiles(args@[0], st);
            let s1 = lower_expr(st, args@[0])->Ok_0;
            let s2 = if args.len() == 2 {
                lemma_num_tree_compiles(args@[1], s1);
                lower_expr(s1, args@[1])->Ok_0
            } else {
                s1
            };
            let s3 = lower_expr(st, e)->Ok_0;
            assert(s3 == emit_ops(s2, op));
            assert(s3.code.subrange(0, s2.code.len() as int) =~= s2.code);
            assert(s3.code.subrange(0, st.code.len() as int) =~= st.code) by {
                assert(s2.code.subrange(0, s1.code.len() as int) == s1.code);
                assert(s1.code.subrange(0, st.code.len() as int) == st.code);
            }
            assert(s3.consts.subrange(0, st.consts.len() as int) =~= st.consts) by {
                assert(s2.consts.subrange(0, s1.consts.len() as int) == s1.consts);
                assert(s1.consts.subrange(0, st.consts.len() as int) == st.consts);
            }
        },
        _ => {},
    }
}

/// The cell that an arithmetic operator appends.
proof fn lemma_arith_code(st: Emit, op: Ops)
    requires
        arith_op(op),
    ensures
        emit_ops(st, op).code == st.code.push(
            VectorType::Code(
                if op == Ops::UnaryOp(UnaryOp::Negate) {
                    OpCode::OpNegate
                } else {
                    arith_opcode(op)
                },
            ),
        ),
        emit_ops(st, op).consts == st.consts,
{
    let c = if op == Ops::UnaryOp(UnaryOp::Negate) {
        OpCode::OpNegate
    } else {
        arith_opcode(op)
    };
    assert(op_codes(op) == seq![c]);
    assert(op_codes(op).map_values(|o: OpCode| VectorType::Code(o)) =~= seq![VectorType::Code(c)]);
    assert(emit_ops(st, op).code =~= st.code.push(VectorType::Code(c)));
}

/// Running the code of an integer tree pushes its value, or fails with its error.
pub proof fn lemma_int_tree_runs(
    e: ASTNode,
    st: Emit,
    code: Seq<VectorType>,
    consts: Seq<ValueType>,
    m: Machine,
) -> (n: nat)
    requires
        int_tree(e),
        st.consts.len() + leaves(e) < usize::MAX,
        prefix_of(lower_expr(st, e)->Ok_0.code, code),
        prefix_of(lower_expr(st, e)->Ok_0.consts, consts),
        m.ip == st.code.len(),
        m.stack.len() + need(e) <= STACK_MAX,
    ensures
        run_steps(code, consts, m, n) == match int_eval(e) {
            Ok(v) => Step::Next(
                Machine {
                    ip: lower_expr(st, e)->Ok_0.code.len() as int,
                    stack: m.stack.push(ValueType::Integer(v)),
                    ..m
                },
            ),
            Err(err) => Step::Fail(err),
        },
    decreases e,
{
    lemma_int_tree_is_num_tree(e);
    lemma_num_tree_compiles(e, st);
    let s3 = lower_expr(st, e)->Ok_0;
    let ip = m.ip;
    assert(code[ip] == s3.code[ip]);
    match e {
        ASTNode::IntNumber(v) => {
            assert(code[ip + 1] == s3.code[ip + 1]);
            let k = st.consts.len();
            assert(consts[k as int] == s3.consts[k as int]);
            let m2 = Machine { ip: ip + 2, stack: m.stack.push(ValueType::Integer(v)), ..m };
            assert(next_step(code, consts, m) == Step::Next(m2));
            assert(run_steps(code, consts, m2, 0) == Step::Next(m2));
            1
        },
        ASTNode::Op(op, args) => {
            assert(decreases_to!(e => e->Op_1));
            let a = args@[0];
            lemma_int_tree_is_num_tree(a);
            lemma_num_tree_compiles(a, st);
            let s1 = lower_expr(st, a)->Ok_0;
            if args.len() == 1 {
                lemma_arith_code(s1, op);
                assert(s3 == emit_ops(s1, op));
                assert(prefix_of(s1.code, code)) by {
                    assert(code.subrange(0, s1.code.len() as int) =~= s1.code) by {
                        assert(forall|i: int|
                            0 <= i < s1.code.len() ==> code[i] == s3.code[i] && s3.code[i]
                                == s1.code[i]);
                    }
                }
                let n1 = lemma_int_tree_runs(a, st, code, consts, m);
                match int_eval(a) {
                    Err(err) => n1,
                    Ok(x) => {
                        let m1 = run_steps(code, consts, m, n1)->Next_0;
                        assert(code[s1.code.len() as int] == s3.code[s1.code.len() as int]);
                        lemma_run_compose(code, consts, m, n1, 1);
                        let st1 = next_step(code, consts, m1);
                        if x != i64::MIN {
                            let m2 = Machine {
                                ip: s3.code.len() as int,
                                stack: m.stack.push(ValueType::Integer(-x as i64)),
                                ..m
                            };
                            assert(m1.stack.drop_last().push(ValueType::Integer(-x as i64))
                                =~= m2.stack);
                            assert(st1 == Step::Next(m2));
                            assert(run_steps(code, consts, m2, 0) == Step::Next(m2));
                        }
                        n1 + 1
                    },
                }
            } else {
                let b = args@[1];
                lemma_int_tree_is_num_tree(b);
                lemma_num_tree_compiles(b, s1);
                let s2 = lower_expr(s1, b)->Ok_0;
                lemma_arith_code(s2, op);
                assert(s3 == emit_ops(s2, op));
                assert(prefix_of(s2.code, code)) by {
                    assert(code.subrange(0, s2.code.len() as int) =~= s2.code) by {
                        assert(forall|i: int|
                            0 <= i < s2.code.len() ==> code[i] == s3.code[i] && s3.code[i]
                                == s2.code[i]);
                    }
                }
                assert(prefix_of(s1.code, code)) by {
                    assert(code.subrange(0, s1.code.len() as int) =~= s1.code) by {
                        assert(forall|i: int|
                            0 <= i < s1.code.len() ==> code[i] == s2.code[i] && s2.code[i]
                                == s1.code[i]);
                    }
                }
                assert(prefix_of(s1.consts, consts)) by {
                    assert(consts.subrange(0, s1.consts.len() as int) =~= s1.consts) by {
                        assert(forall|i: int|
                            0 <= i < s1.consts.len() ==> consts[i] == s2.consts[i]
                                && s2.consts[i] == s1.consts[i]);
                    }
                }
                let n1 = lemma_int_tree_runs(a, st, code, consts, m);
                match int_eval(a) {
                    Err(err) => n1,
                    Ok(x) => {
                        let m1 = run_steps(code, consts, m, n1)->Next_0;
                        let n2 = lemma_int_tree_runs(b, s1, code, consts, m1);
                        lemma_run_compose(code, consts, m, n1, n2);
                        match int_eval(b) {
                            Err(err) => n1 + n2,
                            Ok(y) => {
                                let m2 = run_steps(code, consts, m1, n2)->Next_0;
                                assert(code[s2.code.len() as int] == s3.code[s2.code.len() as int]);
                                lemma_run_compose(code, consts, m, n1 + n2, 1);
                                let n = m2.stack.len();
                                assert(m2.stack[n - 2] == ValueType::Integer(x));
                                assert(m2.stack[n - 1] == ValueType::Integer(y));
                                assert(m2.stack.take(n - 2) =~= m.stack);
                                match int_arith(arith_opcode(op), x, y) {
                                    Ok(v) => {
                                        let m3 = Machine {
                                            ip: s3.code.len() as int,
                                            stack: m.stack.push(ValueType::Integer(v)),
                                            ..m
                                        };
                                        assert(next_step(code, consts, m2) == Step::Next(m3));
                                        assert(run_steps(code, consts, m3, 0) == Step::Next(m3));
                                    },
                                    Err(err) => {
                                        assert(next_step(code, consts, m2) == Step::Fail(err));
                                    },
                                }
                                n1 + n2 + 1
                            },
                        }
                    },
                }
            }
        },
        _ => 0,
    }
}

/// Two runs from one machine that both stopped stopped the same way.
pub proof fn lemma_run_stops_once(
    code: Seq<VectorType>,
    consts: Seq<ValueType>,
    m: Machine,
    a: nat,
    b: nat,
)
    requires
        !(run_steps(code, consts, m, a) is Next),
        !(run_steps(code, consts, m, b) is Next),
    ensures
        run_steps(code, consts, m, a) == run_steps(code, consts, m, b),
    decreases a,
{
    if a > 0 && b > 0 {
        match next_step(code, consts, m) {
            Step::Next(m1) => {
                lemma_run_stops_once(code, consts, m1, (a - 1) as nat, (b - 1) as nat);
            },
            _ => {},
        }
    }
}

/// A program that prints one integer arithmetic tree compiles, and running it
/// from a fresh VM prints exactly the tree's integer value, or stops with the
/// error that integer evaluation meets first (overflow, division by zero, a
/// negative exponent). The tree may not need more stack than the VM has. Every
/// number of steps after which the run has stopped gives that same outcome.
pub proof fn arithmetic_program_prints_its_value(p: Seq<ASTNode>, e: ASTNode) -> (n: nat)
    requires
        p.len() == 1,
        p[0] is Print,
        p[0]->Print_0@ == seq![e],
        int_tree(e),
        need(e) <= STACK_MAX,
        leaves(e) < usize::MAX,
    ensures
        lower_program(p) is Ok,
        run_steps(
            lower_program(p)->Ok_0.code,
            lower_program(p)->Ok_0.consts,
            start_machine(lower_program(p)->Ok_0.strs),
            n,
        ) == match int_eval(e) {
            Ok(v) => Step::Halt(seq![ValueType::Integer(v)]),
            Err(err) => Step::Fail(err),
        },
        forall|k: nat|
            !(#[trigger] run_steps(
                lower_program(p)->Ok_0.code,
                lower_program(p)->Ok_0.consts,
                start_machine(lower_program(p)->Ok_0.strs),
                k,
            ) is Next) ==> run_steps(
                lower_program(p)->Ok_0.code,
                lower_program(p)->Ok_0.consts,
                start_machine(lower_program(p)->Ok_0.strs),
                k,
            ) == match int_eval(e) {
                Ok(v) => Step::Halt(seq![ValueType::Integer(v)]),
                Err(err) => Step::Fail(err),
            },
{
    let n = arithmetic_program_run(p, e);
    let fin = lower_program(p)->Ok_0;
    assert forall|k: nat|
        !(#[trigger] run_steps(fin.code, fin.consts, start_machine(fin.strs), k) is Next) implies run_steps(
        fin.code,
        fin.consts,
        start_machine(fin.strs),
        k,
    ) == run_steps(fin.code, fin.consts, start_machine(fin.strs), n) by {
        lemma_run_stops_once(fin.code, fin.consts, start_machine(fin.strs), k, n);
    }
    n
}

proof fn arithmetic_program_run(p: Seq<ASTNode>, e: ASTNode) -> (n: nat)
    requires
        p.len() == 1,
        p[0] is Print,
        p[0]->Print_0@ == seq![e],
        int_tree(e),
        need(e) <= STACK_MAX,
        leaves(e) < usize::MAX,
    ensures
        lower_program(p) is Ok,
        run_steps(
            lower_program(p)->Ok_0.code,
            lower_program(p)->Ok_0.consts,
            start_machine(lower_program(p)->Ok_0.strs),
            n,
        ) == match int_eval(e) {
            Ok(v) => Step::Halt(seq![ValueType::Integer(v)]),
            Err(err) => Step::Fail(err),
        },
{
    let st = initial_emit();
    assert(p.drop_last() =~= Seq::<ASTNode>::empty());
    assert(lower_stmts(st, p.drop_last()) == Ok::<Emit, crate::compiler::CompileError>(st));
    lemma_int_tree_is_num_tree(e);
    lemma_num_tree_compiles(e, st);
    let s2 = lower_expr(st, e)->Ok_0;
    assert(lower_stmt(st, p[0]) == Ok::<Emit, crate::compiler::CompileError>(emit_op(s2, OpCode::OpPrint)));
    let fin = lower_program(p)->Ok_0;
    assert(fin == emit_op(emit_op(s2, OpCode::OpPrint), OpCode::OpReturn));
    let code = fin.code;
    let consts = fin.consts;
    assert(prefix_of(s2.code, code)) by {
        assert(code.subrange(0, s2.code.len() as int) =~= s2.code);
    }
    assert(consts.subrange(0, s2.consts.len() as int) =~= s2.consts);
    let m = start_machine(fin.strs);
    let n1 = lemma_int_tree_runs(e, st, code, consts, m);
    match int_eval(e) {
        Err(err) => n1,
        Ok(v) => {
            let m1 = run_steps(code, consts, m, n1)->Next_0;
            let m2 = Machine {
                ip: m1.ip + 1,
                stack: Seq::empty(),
                outputs: seq![ValueType::Integer(v)],
                ..m1
            };
            assert(m1.stack.drop_last() =~= Seq::<ValueType>::empty());
            assert(m.outputs.push(ValueType::Integer(v)) =~= seq![ValueType::Integer(v)]);
            assert(next_step(code, consts, m1) == Step::Next(m2));
            assert(next_step(code, consts, m2) == Step::Halt(seq![ValueType::Integer(v)]));
            lemma_run_compose(code, consts, m, n1, 2);
            assert(run_steps(code, consts, m1, 2) == run_steps(code, consts, m2, 1));
            n1 + 2
        },
    }
}

/// Arithmetic and comparison on two numbers of which one is a `Float` is
/// promoted to a float operation on both operands; `Integer` with `Integer` stays
/// integral (see `int_arith`).
pub proof fn float_promotion(op: OpCode, a: ValueType, b: ValueType)
    requires
        is_binary(op),
        is_number(a),
        is_number(b),
        a is Float || b is Float,
    ensures
        binary_outcome(op, a, b) == Outcome::Float(FloatRequest { op: float_op(op), lhs: a, rhs: b }),
{
}

/// Negation of a value: integers checked, floats by their sign bit.
pub open spec fn negated(v: ValueType) -> Result<ValueType, RuntimeError> {
    match v {
        ValueType::Integer(x) => if x == i64::MIN {
            Err(RuntimeError::IntegerOverflow)
        } else {
            Ok(ValueType::Integer(-x as i64))
        },
        ValueType::Float(b) => Ok(ValueType::Float(b ^ SIGN_BIT)),
        other => Err(RuntimeError::OperandType(OpCode::OpNegate, tag_of(other))),
    }
}

/// Evaluation of a numeric tree, left operand first, where each float operation
/// is answered by `answer`.
pub open spec fn num_eval(e: ASTNode, answer: spec_fn(FloatRequest) -> ValueType) -> Result<
    ValueType,
    RuntimeError,
>
    decreases e,
{
    match e {
        ASTNode::IntNumber(v) => Ok(ValueType::Integer(v)),
        ASTNode::FloatNumber(b) => Ok(ValueType::Float(b)),
        ASTNode::Op(op, args) => if args.len() == 1 {
            match num_eval(args@[0], answer) {
                Ok(x) => negated(x),
                Err(err) => Err(err),
            }
        } else if args.len() == 2 {
            match num_eval(args@[0], answer) {
                Ok(x) => match num_eval(args@[1], answer) {
                    Ok(y) => match binary_outcome(arith_opcode(op), x, y) {
                        Outcome::Value(v) => Ok(v),
                        Outcome::Float(req) => Ok(answer(req)),
                        Outcome::Error(err) => Err(err),
                        Outcome::Concat(..) => Err(RuntimeError::MalformedCode(0)),
                    },
                    Err(err) => Err(err),
                },
                Err(err) => Err(err),
            }
        } else {
            Err(RuntimeError::MalformedCode(0))
        },
        _ => Err(RuntimeError::MalformedCode(0)),
    }
}

/// With float answers, a numeric tree evaluates to a number.
proof fn lemma_num_eval_number(e: ASTNode, answer: spec_fn(FloatRequest) -> ValueType)
    requires
        num_tree(e),
        forall|r: FloatRequest| (#[trigger] answer(r)) is Float,
    ensures
        num_eval(e, answer) is Ok ==> is_number(num_eval(e, answer)->Ok_0),
    decreases e,
{
    match e {
        ASTNode::Op(op, args) => {
            assert(decreases_to!(e => e->Op_1));
            lemma_num_eval_number(args@[0], answer);
            if args.len() == 2 {
                lemma_num_eval_number(args@[1], answer);
            }
        },
        _ => {},
    }
}

/// Running `a` steps then `b` steps, answering float operations, is running `a + b`.
pub proof fn lemma_answering_compose(
    code: Seq<VectorType>,
    consts: Seq<ValueType>,
    m: Machine,
    a: nat,
    b: nat,
    answer: spec_fn(FloatRequest) -> ValueType,
)
    requires
        run_answering(code, consts, m, a, answer) is Next,
    ensures
        run_answering(code, consts, m, a + b, answer) == run_answering(
            code,
            consts,
            run_answering(code, consts, m, a, answer)->Next_0,
            b,
            answer,
        ),
    decreases a,
{
    if a > 0 {
        assert((a + b - 1) as nat == (a - 1) as nat + b);
        match next_step(code, consts, m) {
            Step::Next(m1) => {
                lemma_answering_compose(code, consts, m1, (a - 1) as nat, b, answer);
            },
            Step::Float(req, m1) => {
                let m2 = Machine { stack: m1.stack.push(answer(req)), ..m1 };
                lemma_answering_compose(code, consts, m2, (a - 1) as nat, b, answer);
            },
            _ => {},
        }
    }
}

/// Running the code of a numeric tree, answering float operations, pushes the
/// tree's value or fails with its error.
pub proof fn lemma_num_tree_runs(
    e: ASTNode,
    st: Emit,
    code: Seq<VectorType>,
    consts: Seq<ValueType>,
    m: Machine,
    answer: spec_fn(FloatRequest) -> ValueType,
) -> (n: nat)
    requires
        num_tree(e),
        forall|r: FloatRequest| (#[trigger] answer(r)) is Float,
        st.consts.len() + leaves(e) < usize::MAX,
        prefix_of(lower_expr(st, e)->Ok_0.code, code),
        prefix_of(lower_expr(st, e)->Ok_0.consts, consts),
        m.ip == st.code.len(),
        m.stack.len() + need(e) <= STACK_MAX,
    ensures
        run_answering(code, consts, m, n, answer) == match num_eval(e, answer) {
            Ok(v) => Step::Next(
                Machine { ip: lower_expr(st, e)->Ok_0.code.len() as int, stack: m.stack.push(v), ..m },
            ),
            Err(err) => Step::Fail(err),
        },
    decreases e,
{
    lemma_num_tree_compiles(e, st);
    let s3 = lower_expr(st, e)->Ok_0;
    let ip = m.ip;
    assert(code[ip] == s3.code[ip]);
    match e {
        ASTNode::IntNumber(_) | ASTNode::FloatNumber(_) => {
            let v = num_eval(e, answer)->Ok_0;
            assert(code[ip + 1] == s3.code[ip + 1]);
            let k = st.consts.len();
            assert(consts[k as int] == s3.consts[k as int]);
            let m2 = Machine { ip: ip + 2, stack: m.stack.push(v), ..m };
            assert(next_step(code, consts, m) == Step::Next(m2));
            assert(run_answering(code, consts, m2, 0, answer) == Step::Next(m2));
            1
        },
        ASTNode::Op(op, args) => {
            assert(decreases_to!(e => e->Op_1));
            let a = args@[0];
            lemma_num_tree_compiles(a, st);
            lemma_num_eval_number(a, answer);
            let s1 = lower_expr(st, a)->Ok_0;
            if args.len() == 1 {
                lemma_arith_code(s1, op);
                assert(s3 == emit_ops(s1, op));
                assert(prefix_of(s1.code, code)) by {
                    assert(code.subrange(0, s1.code.len() as int) =~= s1.code) by {
                        assert(forall|i: int|
                            0 <= i < s1.code.len() ==> code[i] == s3.code[i] && s3.code[i]
                                == s1.code[i]);
                    }
                }
                let n1 = lemma_num_tree_runs(a, st, code, consts, m, answer);
                match num_eval(a, answer) {
                    Err(err) => n1,
                    Ok(x) => {
                        let m1 = run_answering(code, consts, m, n1, answer)->Next_0;
                        assert(code[s1.code.len() as int] == s3.code[s1.code.len() as int]);
                        lemma_answering_compose(code, consts, m, n1, 1, answer);
                        match negated(x) {
                            Ok(v) => {
                                let m2 = Machine {
                                    ip: s3.code.len() as int,
                                    stack: m.stack.push(v),
                                    ..m
                                };
                                assert(m1.stack.drop_last().push(v) =~= m2.stack);
                                assert(next_step(code, consts, m1) == Step::Next(m2));
                                assert(run_answering(code, consts, m2, 0, answer) == Step::Next(m2));
                            },
                            Err(err) => {
                                assert(next_step(code, consts, m1) == Step::Fail(err));
                            },
                        }
                        n1 + 1
                    },
                }
            } else {
                let b = args@[1];
                lemma_num_tree_compiles(b, s1);
                lemma_num_eval_number(b, answer);
                let s2 = lower_expr(s1, b)->Ok_0;
                lemma_arith_code(s2, op);
                assert(s3 == emit_ops(s2, op));
                assert(prefix_of(s2.code, code)) by {
                    assert(code.subrange(0, s2.code.len() as int) =~= s2.code) by {
                        assert(forall|i: int|
                            0 <= i < s2.code.len() ==> code[i] == s3.code[i] && s3.code[i]
                                == s2.code[i]);
                    }
                }
                assert(prefix_of(s1.code, code)) by {
                    assert(code.subrange(0, s1.code.len() as int) =~= s1.code) by {
                        assert(forall|i: int|
                            0 <= i < s1.code.len() ==> code[i] == s2.code[i] && s2.code[i]
                                == s1.code[i]);
                    }
                }
                assert(prefix_of(s1.consts, consts)) by {
                    assert(consts.subrange(0, s1.consts.len() as int) =~= s1.consts) by {
                        assert(forall|i: int|
                            0 <= i < s1.consts.len() ==> consts[i] == s2.consts[i]
                                && s2.consts[i] == s1.consts[i]);
                    }
                }
                let n1 = lemma_num_tree_runs(a, st, code, consts, m, answer);
                match num_eval(a, answer) {
                    Err(err) => n1,
                    Ok(x) => {
                        let m1 = run_answering(code, consts, m, n1, answer)->Next_0;
                        let n2 = lemma_num_tree_runs(b, s1, code, consts, m1, answer);
                        lemma_answering_compose(code, consts, m, n1, n2, answer);
                        match num_eval(b, answer) {
                            Err(err) => n1 + n2,
                            Ok(y) => {
                                let m2 = run_answering(code, consts, m1, n2, answer)->Next_0;
                                assert(code[s2.code.len() as int] == s3.code[s2.code.len() as int]);
                                lemma_answering_compose(code, consts, m, n1 + n2, 1, answer);
                                let n = m2.stack.len();
                                assert(m2.stack[n - 2] == x);
                                assert(m2.stack[n - 1] == y);
                                assert(m2.stack.take(n - 2) =~= m.stack);
                                let opc = arith_opcode(op);
                                match binary_outcome(opc, x, y) {
                                    Outcome::Value(v) => {
                                        let m3 = Machine {
                                            ip: s3.code.len() as int,
                                            stack: m.stack.push(v),
                                            ..m
                                        };
                                        assert(next_step(code, consts, m2) == Step::Next(m3));
                                        assert(run_answering(code, consts, m3, 0, answer) == Step::Next(m3));
                                    },
                                    Outcome::Float(req) => {
                                        let m3 = Machine { ip: s3.code.len() as int, stack: m.stack, ..m };
                                        assert(next_step(code, consts, m2) == Step::Float(req, m3));
                                        let m4 = Machine { stack: m.stack.push(answer(req)), ..m3 };
                                        assert(run_answering(code, consts, m4, 0, answer) == Step::Next(m4));
                                    },
                                    Outcome::Error(err) => {
                                        assert(next_step(code, consts, m2) == Step::Fail(err));
                                    },
                                    Outcome::Concat(..) => {},
                                }
                                n1 + n2 + 1
                            },
                        }
                    },
                }
            }
        },
        _ => 0,
    }
}

/// A program that prints one arithmetic tree over integer and float literals
/// compiles. Running it from a fresh VM, with each float operation that the VM
/// hands out answered by `answer` (a float, as the caller computes it), prints
/// exactly the tree's value: `Integer op Integer` stays an integer (see
/// `int_arith`), an operation with a `Float` operand is a float operation on
/// both operands, and negating a float flips its sign. An error stops the run
/// as evaluation meets it.
pub proof fn numeric_program_prints_its_value(
    p: Seq<ASTNode>,
    e: ASTNode,
    answer: spec_fn(FloatRequest) -> ValueType,
) -> (n: nat)
    requires
        p.len() == 1,
        p[0] is Print,
        p[0]->Print_0@ == seq![e],
        num_tree(e),
        forall|r: FloatRequest| (#[trigger] answer(r)) is Float,
        need(e) <= STACK_MAX,
        leaves(e) < usize::MAX,
    ensures
        lower_program(p) is Ok,
        run_answering(
            lower_program(p)->Ok_0.code,
            lower_program(p)->Ok_0.consts,
            start_machine(lower_program(p)->Ok_0.strs),
            n,
            answer,
        ) == match num_eval(e, answer) {
            Ok(v) => Step::Halt(seq![v]),
            Err(err) => Step::Fail(err),
        },
{
    let st = initial_emit();
    assert(p.drop_last() =~= Seq::<ASTNode>::empty());
    assert(lower_stmts(st, p.drop_last()) == Ok::<Emit, crate::compiler::CompileError>(st));
    lemma_num_tree_compiles(e, st);
    let s2 = lower_expr(st, e)->Ok_0;
    assert(lower_stmt(st, p[0]) == Ok::<Emit, crate::compiler::CompileError>(emit_op(s2, OpCode::OpPrint)));
    let fin = lower_program(p)->Ok_0;
    assert(fin == emit_op(emit_op(s2, OpCode::OpPrint), OpCode::OpReturn));
    let code = fin.code;
    let consts = fin.consts;
    assert(prefix_of(s2.code, code)) by {
        assert(code.subrange(0, s2.code.len() as int) =~= s2.code);
    }
    assert(consts.subrange(0, s2.consts.len() as int) =~= s2.consts);
    let m = start_machine(fin.strs);
    let n1 = lemma_num_tree_runs(e, st, code, consts, m, answer);
    match num_eval(e, answer) {
        Err(err) => n1,
        Ok(v) => {
            let m1 = run_answering(code, consts, m, n1, answer)->Next_0;
            let m2 = Machine { ip: m1.ip + 1, stack: Seq::empty(), outputs: seq![v], ..m1 };
            assert(m1.stack.drop_last() =~= Seq::<ValueType>::empty());
            assert(m.outputs.push(v) =~= seq![v]);
            assert(next_step(code, consts, m1) == Step::Next(m2));
            assert(next_step(code, consts, m2) == Step::Halt(seq![v]));
            lemma_answering_compose(code, consts, m, n1, 2, answer);
            assert(run_answering(code, consts, m1, 2, answer) == run_answering(code, consts, m2, 1, answer));
            n1 + 2
        },
    }
}

} // verus!

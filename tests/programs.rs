use grad::ast::{ASTNode, BinaryOp, Ops, PostfixOp, UnaryOp};
use grad::chunk::{Chunk, OpCode, VectorType};
use grad::compiler::{CompileError, Compiler, MAX_LOCALS};
use grad::interner::Interner;
use grad::value::{ValueTag, ValueType};
use grad::vm::{FloatOp, FloatRequest, Result as RunResult, RuntimeError, VM};

fn num(v: i64) -> ASTNode {
    ASTNode::IntNumber(v)
}

fn float(v: f64) -> ASTNode {
    ASTNode::FloatNumber(v.to_bits())
}

fn ident(name: &str) -> ASTNode {
    ASTNode::Identifier(name.to_string())
}

fn text(s: &str) -> ASTNode {
    ASTNode::String(s.to_string())
}

fn bin(op: BinaryOp, a: ASTNode, b: ASTNode) -> ASTNode {
    ASTNode::Op(Ops::BinaryOp(op), vec![a, b])
}

fn let_(name: &str, e: ASTNode) -> ASTNode {
    ASTNode::Let(name.to_string(), vec![e])
}

fn assign(name: &str, e: ASTNode) -> ASTNode {
    ASTNode::Assign(name.to_string(), vec![e])
}

fn print(e: ASTNode) -> ASTNode {
    ASTNode::Print(vec![e])
}

fn to_f64(v: ValueType) -> f64 {
    match v {
        ValueType::Integer(i) => i as f64,
        ValueType::Float(b) => f64::from_bits(b),
        other => panic!("not a number: {:?}", other),
    }
}

fn compute(req: FloatRequest) -> ValueType {
    let a = to_f64(req.lhs);
    let b = to_f64(req.rhs);
    match req.op {
        FloatOp::Add => ValueType::Float((a + b).to_bits()),
        FloatOp::Sub => ValueType::Float((a - b).to_bits()),
        FloatOp::Mul => ValueType::Float((a * b).to_bits()),
        FloatOp::Div => ValueType::Float((a / b).to_bits()),
        FloatOp::Pow => ValueType::Float(a.powf(b).to_bits()),
        FloatOp::Equal => ValueType::Boolean(a == b),
        FloatOp::Greater => ValueType::Boolean(a > b),
        FloatOp::Less => ValueType::Boolean(a < b),
    }
}

fn finish(vm: &mut VM) -> RunResult {
    loop {
        match vm.run() {
            RunResult::NeedsFloat(req) => {
                assert!(vm.supply_float(compute(req)));
            }
            other => return other,
        }
    }
}

fn run(program: Vec<ASTNode>) -> RunResult {
    match Compiler::new().compile(program) {
        Ok((chunk, interner)) => finish(&mut VM::init(chunk, interner)),
        Err(e) => RunResult::CompileErr(e),
    }
}

fn outputs(r: RunResult) -> Vec<ValueType> {
    match r {
        RunResult::Done(v) => v,
        other => panic!("run did not finish: {:?}", other),
    }
}

#[test]
fn let_then_print() {
    let r = run(vec![let_("a", num(3)), print(ident("a"))]);
    assert_eq!(outputs(r), vec![ValueType::Integer(3)]);
}

#[test]
fn compound_assignment() {
    let r = run(vec![
        let_("a", num(3)),
        assign("a", bin(BinaryOp::Add, ident("a"), num(4))),
        print(ident("a")),
    ]);
    assert_eq!(outputs(r), vec![ValueType::Integer(7)]);
}

#[test]
fn while_loop_counts() {
    let body = ASTNode::Block(vec![
        print(ident("i")),
        assign("i", bin(BinaryOp::Add, ident("i"), num(1))),
    ]);
    let r = run(vec![
        let_("i", num(0)),
        ASTNode::While(vec![bin(BinaryOp::Lt, ident("i"), num(3))], vec![body]),
    ]);
    assert_eq!(
        outputs(r),
        vec![ValueType::Integer(0), ValueType::Integer(1), ValueType::Integer(2)]
    );
}

#[test]
fn inner_shadow_leaves_outer_binding() {
    let r = run(vec![
        let_("a", num(1)),
        ASTNode::Block(vec![let_("a", num(2)), print(ident("a"))]),
        print(ident("a")),
    ]);
    assert_eq!(outputs(r), vec![ValueType::Integer(2), ValueType::Integer(1)]);
}

#[test]
fn adding_a_boolean_is_a_type_error() {
    let r = run(vec![print(bin(BinaryOp::Add, num(1), ASTNode::Boolean(true)))]);
    match r {
        RunResult::RuntimeErr(RuntimeError::TypeMismatch(op, lhs, rhs)) => {
            assert_eq!(op, OpCode::OpAdd);
            assert_eq!(lhs.name(), "Integer");
            assert_eq!(rhs.name(), "Boolean");
        }
        other => panic!("expected a type error, got {:?}", other),
    }
}

fn block_of_lets(n: usize) -> Vec<ASTNode> {
    let lets = (0..n).map(|i| let_(&format!("v{}", i), num(i as i64))).collect();
    vec![ASTNode::Block(lets)]
}

#[test]
fn block_with_the_most_locals_compiles() {
    let compiled = Compiler::new().compile(block_of_lets(MAX_LOCALS));
    let (chunk, interner) = compiled.expect("compiles");
    let pops = chunk
        .code
        .iter()
        .filter(|c| **c == VectorType::Code(OpCode::OpPop))
        .count();
    assert_eq!(pops, MAX_LOCALS);
    assert_eq!(outputs(finish(&mut VM::init(chunk, interner))), vec![]);
}

#[test]
fn one_local_too_many_is_a_compile_error() {
    let r = Compiler::new().compile(block_of_lets(MAX_LOCALS + 1));
    assert_eq!(r.err(), Some(CompileError::TooManyLocals));
}

fn sample_program() -> Vec<ASTNode> {
    vec![
        let_("x", num(2)),
        ASTNode::If(
            vec![bin(BinaryOp::Gt, ident("x"), num(1))],
            vec![print(text("big"))],
            Some(vec![print(float(0.5))]),
        ),
        ASTNode::While(
            vec![bin(BinaryOp::Lt, ident("x"), num(5))],
            vec![ASTNode::Block(vec![
                let_("y", ident("x")),
                assign("x", bin(BinaryOp::Add, ident("y"), num(1))),
            ])],
        ),
    ]
}

#[test]
fn compiling_twice_gives_identical_chunks() {
    let (c1, i1) = Compiler::new().compile(sample_program()).expect("compiles");
    let (c2, i2) = Compiler::new().compile(sample_program()).expect("compiles");
    assert_eq!(c1.code, c2.code);
    assert_eq!(c1.constants, c2.constants);
    assert_eq!(i1.len(), i2.len());
    for k in 0..i1.len() {
        assert_eq!(i1.lookup(k), i2.lookup(k));
    }
}

#[test]
fn integer_arithmetic_stays_integral() {
    // (1 + 2) * 3 - 8 / 2 ** 2
    let e = bin(
        BinaryOp::Sub,
        bin(BinaryOp::Mul, bin(BinaryOp::Add, num(1), num(2)), num(3)),
        bin(
            BinaryOp::Div,
            num(8),
            ASTNode::Op(Ops::PostfixOp(PostfixOp::StarStar), vec![num(2), num(2)]),
        ),
    );
    assert_eq!(outputs(run(vec![print(e)])), vec![ValueType::Integer(7)]);
}

#[test]
fn integer_division_truncates_toward_zero() {
    let e = bin(BinaryOp::Div, num(-7), num(2));
    assert_eq!(outputs(run(vec![print(e)])), vec![ValueType::Integer(-3)]);
}

#[test]
fn power_of_integers() {
    let e = ASTNode::Op(Ops::PostfixOp(PostfixOp::StarStar), vec![num(3), num(4)]);
    assert_eq!(outputs(run(vec![print(e)])), vec![ValueType::Integer(81)]);
}

#[test]
fn power_overflow_is_an_error() {
    let e = ASTNode::Op(Ops::PostfixOp(PostfixOp::StarStar), vec![num(2), num(63)]);
    match run(vec![print(e)]) {
        RunResult::RuntimeErr(e) => assert_eq!(e, RuntimeError::IntegerOverflow),
        other => panic!("expected overflow, got {:?}", other),
    }
}

#[test]
fn negative_exponent_is_an_error() {
    let e = ASTNode::Op(Ops::PostfixOp(PostfixOp::StarStar), vec![num(2), num(-1)]);
    match run(vec![print(e)]) {
        RunResult::RuntimeErr(e) => assert_eq!(e, RuntimeError::NegativeExponent),
        other => panic!("expected an error, got {:?}", other),
    }
}

#[test]
fn mixed_operands_promote_to_float() {
    let e = bin(BinaryOp::Add, num(1), float(2.5));
    assert_eq!(
        outputs(run(vec![print(e)])),
        vec![ValueType::Float(3.5f64.to_bits())]
    );
}

#[test]
fn float_request_names_both_operands() {
    let (chunk, interner) = Compiler::new()
        .compile(vec![print(bin(BinaryOp::Mul, float(1.5), num(2)))])
        .expect("compiles");
    let mut vm = VM::init(chunk, interner);
    match vm.run() {
        RunResult::NeedsFloat(req) => {
            assert_eq!(req.op, FloatOp::Mul);
            assert_eq!(req.lhs, ValueType::Float(1.5f64.to_bits()));
            assert_eq!(req.rhs, ValueType::Integer(2));
        }
        other => panic!("expected a float request, got {:?}", other),
    }
    assert!(vm.supply_float(ValueType::Float(3.0f64.to_bits())));
    assert_eq!(outputs(vm.run()), vec![ValueType::Float(3.0f64.to_bits())]);
}

#[test]
fn negating_a_float_flips_its_sign() {
    let e = ASTNode::Op(Ops::UnaryOp(UnaryOp::Negate), vec![float(2.0)]);
    assert_eq!(
        outputs(run(vec![print(e)])),
        vec![ValueType::Float((-2.0f64).to_bits())]
    );
}

#[test]
fn negating_the_smallest_integer_overflows() {
    let e = ASTNode::Op(
        Ops::UnaryOp(UnaryOp::Negate),
        vec![bin(BinaryOp::Sub, num(-i64::MAX), num(1))],
    );
    match run(vec![print(e)]) {
        RunResult::RuntimeErr(e) => assert_eq!(e, RuntimeError::IntegerOverflow),
        other => panic!("expected overflow, got {:?}", other),
    }
}

#[test]
fn division_by_zero_is_an_error() {
    let r = run(vec![print(num(5)), print(bin(BinaryOp::Div, num(1), num(0)))]);
    match r {
        RunResult::RuntimeErr(e) => assert_eq!(e, RuntimeError::DivisionByZero),
        other => panic!("expected an error, got {:?}", other),
    }
}

#[test]
fn addition_overflow_is_an_error() {
    let r = run(vec![print(bin(BinaryOp::Add, num(i64::MAX), num(1)))]);
    match r {
        RunResult::RuntimeErr(e) => assert_eq!(e, RuntimeError::IntegerOverflow),
        other => panic!("expected overflow, got {:?}", other),
    }
}

#[test]
fn derived_comparisons() {
    let r = run(vec![
        print(bin(BinaryOp::Le, num(2), num(2))),
        print(bin(BinaryOp::Ge, num(1), num(2))),
        print(bin(BinaryOp::Ne, num(1), num(2))),
        print(bin(BinaryOp::Eq, ASTNode::Boolean(true), ASTNode::Boolean(true))),
        print(bin(BinaryOp::Eq, num(1), ASTNode::Boolean(true))),
        print(ASTNode::Op(Ops::UnaryOp(UnaryOp::Not), vec![ASTNode::Boolean(false)])),
    ]);
    assert_eq!(
        outputs(r),
        vec![
            ValueType::Boolean(true),
            ValueType::Boolean(false),
            ValueType::Boolean(true),
            ValueType::Boolean(true),
            ValueType::Boolean(false),
            ValueType::Boolean(true),
        ]
    );
}

#[test]
fn if_else_takes_one_branch() {
    let r = run(vec![
        ASTNode::If(
            vec![bin(BinaryOp::Lt, num(2), num(1))],
            vec![print(num(10))],
            Some(vec![print(num(20))]),
        ),
        ASTNode::If(vec![ASTNode::Boolean(true)], vec![print(num(30))], None),
        print(num(40)),
    ]);
    assert_eq!(
        outputs(r),
        vec![ValueType::Integer(20), ValueType::Integer(30), ValueType::Integer(40)]
    );
}

#[test]
fn strings_concatenate_through_the_interner() {
    let (chunk, interner) = Compiler::new()
        .compile(vec![
            print(bin(BinaryOp::Add, text("ab"), text("cd"))),
            print(bin(BinaryOp::Eq, text("x"), text("x"))),
        ])
        .expect("compiles");
    let mut vm = VM::init(chunk, interner);
    let out = outputs(vm.run());
    match out[0] {
        ValueType::String(id) => assert_eq!(vm.interner().lookup(id), "abcd"),
        other => panic!("expected a string, got {:?}", other),
    }
    assert_eq!(out[1], ValueType::Boolean(true));
}

#[test]
fn reading_an_undefined_global_fails() {
    match run(vec![print(ident("missing"))]) {
        RunResult::RuntimeErr(RuntimeError::UndefinedVariable(_)) => {}
        other => panic!("expected an undefined variable, got {:?}", other),
    }
}

#[test]
fn assigning_an_undefined_global_fails() {
    match run(vec![assign("missing", num(1))]) {
        RunResult::RuntimeErr(RuntimeError::UndefinedVariable(_)) => {}
        other => panic!("expected an undefined variable, got {:?}", other),
    }
}

#[test]
fn unsupported_nodes_are_compile_errors() {
    let index = ASTNode::Op(Ops::PostfixOp(PostfixOp::Index), vec![ident("x"), num(0)]);
    assert_eq!(
        Compiler::new().compile(vec![print(index)]).err(),
        Some(CompileError::UnsupportedOperator(Ops::PostfixOp(PostfixOp::Index)))
    );
    let f = ASTNode::Function("f".to_string(), vec![], vec![]);
    assert_eq!(
        Compiler::new().compile(vec![f]).err(),
        Some(CompileError::UnsupportedFunction)
    );
    let bad = ASTNode::Let("a".to_string(), vec![num(1), num(2)]);
    assert_eq!(
        Compiler::new().compile(vec![bad]).err(),
        Some(CompileError::MalformedNode)
    );
    let stmt_in_expr = print(ASTNode::Block(vec![]));
    assert_eq!(
        Compiler::new().compile(vec![stmt_in_expr]).err(),
        Some(CompileError::MalformedNode)
    );
}

#[test]
fn compiled_chunk_layout() {
    let (chunk, _) = Compiler::new()
        .compile(vec![let_("a", num(3)), print(ident("a"))])
        .expect("compiles");
    assert_eq!(
        chunk.code,
        vec![
            VectorType::Code(OpCode::OpConstant),
            VectorType::Constant(1),
            VectorType::Code(OpCode::OpDefineGlobal),
            VectorType::Constant(0),
            VectorType::Code(OpCode::OpGetGlobal),
            VectorType::Constant(2),
            VectorType::Code(OpCode::OpPrint),
            VectorType::Code(OpCode::OpReturn),
        ]
    );
    assert_eq!(
        chunk.constants,
        vec![
            ValueType::Identifier(0),
            ValueType::Integer(3),
            ValueType::Identifier(0),
        ]
    );
}

#[test]
fn malformed_chunks_fail_at_run_time() {
    let mut chunk = Chunk::new();
    chunk.write(VectorType::Code(OpCode::OpPop));
    let mut vm = VM::init(chunk, Interner::new());
    match vm.run() {
        RunResult::RuntimeErr(e) => assert_eq!(e, RuntimeError::StackUnderflow),
        other => panic!("expected underflow, got {:?}", other),
    }

    let mut chunk = Chunk::new();
    chunk.write(VectorType::Code(OpCode::OpNil));
    chunk.write(VectorType::Code(OpCode::OpPrint));
    chunk.write(VectorType::Constant(0));
    let mut vm = VM::init(chunk, Interner::new());
    match vm.run() {
        RunResult::RuntimeErr(e) => assert_eq!(e, RuntimeError::MalformedCode(2)),
        other => panic!("expected malformed code, got {:?}", other),
    }
}

#[test]
fn stack_overflow_is_reported() {
    let mut chunk = Chunk::new();
    let k = chunk.add_constant(ValueType::JumpOffset(0));
    chunk.write(VectorType::Code(OpCode::OpNil));
    chunk.write(VectorType::Code(OpCode::OpLoop));
    chunk.write(VectorType::Constant(k));
    let mut vm = VM::init(chunk, Interner::new());
    match vm.run() {
        RunResult::RuntimeErr(e) => assert_eq!(e, RuntimeError::StackOverflow),
        other => panic!("expected overflow, got {:?}", other),
    }
}

#[test]
fn interning_is_stable() {
    let mut t = Interner::new();
    let a = t.intern_string("alpha".to_string());
    let b = t.intern_string("beta".to_string());
    let a2 = t.intern_string("alpha".to_string());
    assert_eq!(a, 0);
    assert_eq!(b, 1);
    assert_eq!(a2, a);
    assert_eq!(t.len(), 2);
    assert_eq!(t.lookup(b), "beta");
}

#[test]
fn value_tags_have_names() {
    assert_eq!(ValueType::Nil.tag(), ValueTag::Nil);
    assert_eq!(ValueTag::JumpOffset.name(), "JumpOffset");
    assert!(ValueType::Float(0).is_number());
    assert!(!ValueType::String(0).is_number());
}

#[test]
fn negating_a_boolean_is_an_operand_error() {
    let e = ASTNode::Op(Ops::UnaryOp(UnaryOp::Negate), vec![ASTNode::Boolean(true)]);
    match run(vec![print(e)]) {
        RunResult::RuntimeErr(e) => {
            assert_eq!(e, RuntimeError::OperandType(OpCode::OpNegate, ValueTag::Boolean))
        }
        other => panic!("expected an operand error, got {:?}", other),
    }
    let e = ASTNode::Op(Ops::UnaryOp(UnaryOp::Not), vec![num(1)]);
    match run(vec![print(e)]) {
        RunResult::RuntimeErr(e) => {
            assert_eq!(e, RuntimeError::OperandType(OpCode::OpNot, ValueTag::Integer))
        }
        other => panic!("expected an operand error, got {:?}", other),
    }
}

#[test]
fn supplying_a_float_unasked_does_nothing() {
    let (chunk, interner) = Compiler::new().compile(vec![print(num(1))]).expect("compiles");
    let mut vm = VM::init(chunk, interner);
    assert!(!vm.supply_float(ValueType::Float(0)));
    assert_eq!(outputs(vm.run()), vec![ValueType::Integer(1)]);
}

#[test]
fn float_comparisons_are_handed_out() {
    let r = run(vec![
        print(bin(BinaryOp::Lt, float(1.5), num(2))),
        print(bin(BinaryOp::Eq, num(2), float(2.0))),
        print(bin(BinaryOp::Gt, float(0.5), float(0.25))),
    ]);
    assert_eq!(
        outputs(r),
        vec![
            ValueType::Boolean(true),
            ValueType::Boolean(true),
            ValueType::Boolean(true),
        ]
    );
}

#[test]
fn locals_are_read_and_written_by_slot() {
    let r = run(vec![ASTNode::Block(vec![
        let_("a", num(1)),
        let_("b", num(2)),
        assign("a", bin(BinaryOp::Add, ident("a"), ident("b"))),
        print(ident("a")),
        print(ident("b")),
    ])]);
    assert_eq!(outputs(r), vec![ValueType::Integer(3), ValueType::Integer(2)]);
}

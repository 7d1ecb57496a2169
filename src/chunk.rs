use vstd::prelude::*;

use crate::value::ValueType;

verus! {

/// The instructions of the virtual machine.
#[derive(Clone, Copy, Debug, PartialEq, Eq, Structural)]
pub enum OpCode {
    OpConstant,
    OpNil,
    OpTrue,
    OpFalse,
    OpNegate,
    OpAdd,
    OpSubtract,
    OpMultiply,
    OpDivide,
    OpPower,
    OpNot,
    OpEqualEqual,
    OpGreater,
    OpLess,
    OpReturn,
    OpPrint,
    OpPop,
    OpDefineGlobal,
    OpGetGlobal,
    OpSetGlobal,
    OpDefineLocal,
    OpGetLocal,
    OpSetLocal,
    OpJumpIfFalse,
    OpJump,
    OpLoop,
}

/// One cell of a chunk's code: an instruction, or a reference into the constant pool.
#[derive(Clone, Copy, Debug, PartialEq, Eq, Structural)]
pub enum VectorType {
    Constant(usize),
    Code(OpCode),
}

/// The instructions that take the cell after them as an operand.
pub open spec fn takes_operand(op: OpCode) -> bool {
    match op {
        OpCode::OpConstant | OpCode::OpDefineGlobal | OpCode::OpGetGlobal | OpCode::OpSetGlobal
        | OpCode::OpDefineLocal | OpCode::OpGetLocal | OpCode::OpSetLocal | OpCode::OpJumpIfFalse
        | OpCode::OpJump | OpCode::OpLoop => true,
        _ => false,
    }
}

pub open spec fn is_jump(op: OpCode) -> bool {
    op == OpCode::OpJumpIfFalse || op == OpCode::OpJump || op == OpCode::OpLoop
}

/// A jump takes the cell after it as its operand.
pub proof fn lemma_jump_takes_operand(op: OpCode)
    ensures
        is_jump(op) ==> takes_operand(op),
{
}

impl OpCode {
    /// Whether the instruction reads the cell that follows it.
    pub fn uses_constant(&self) -> (r: bool)
        ensures
            r == takes_operand(*self),
    {
        match self {
            OpCode::OpConstant | OpCode::OpDefineGlobal | OpCode::OpGetGlobal
            | OpCode::OpSetGlobal | OpCode::OpDefineLocal | OpCode::OpGetLocal
            | OpCode::OpSetLocal | OpCode::OpJumpIfFalse | OpCode::OpJump | OpCode::OpLoop => true,
            _ => false,
        }
    }

    /// Whether the instruction moves the instruction pointer.
    pub fn is_jump(&self) -> (r: bool)
        ensures
            r == is_jump(*self),
    {
        match self {
            OpCode::OpJumpIfFalse | OpCode::OpJump | OpCode::OpLoop => true,
            _ => false,
        }
    }
}

/// A compiled program: code cells and the constant pool they refer to.
#[derive(Debug)]
pub struct Chunk {
    pub code: Vec<VectorType>,
    pub constants: Vec<ValueType>,
}

impl Chunk {
    /// The cell at `i` is sound: a constant reference points into the pool, an
    /// instruction that takes an operand is followed by a constant reference, and
    /// that of a jump names a `JumpOffset` whose target lies within the code.
    pub open spec fn cell_ok(&self, i: int) -> bool {
        match self.code@[i] {
            VectorType::Constant(k) => k < self.constants.len(),
            VectorType::Code(op) => {
                &&& takes_operand(op) ==> i + 1 < self.code.len() && self.code@[i + 1] is Constant
                &&& is_jump(op) ==> {
                    let k = self.code@[i + 1]->Constant_0;
                    &&& k < self.constants.len()
                    &&& self.constants@[k as int] is JumpOffset
                    &&& self.constants@[k as int]->JumpOffset_0 <= self.code.len()
                }
            },
        }
    }

    /// Every cell of the code is sound.
    pub open spec fn wf(&self) -> bool {
        forall|i: int| 0 <= i < self.code.len() ==> #[trigger] self.cell_ok(i)
    }

    pub fn new() -> (r: Self)
        ensures
            r.code@ == Seq::<VectorType>::empty(),
            r.constants@ == Seq::<ValueType>::empty(),
    {
        Chunk { code: Vec::new(), constants: Vec::new() }
    }

    /// Appends one cell to the code.
    pub fn write(&mut self, byte: VectorType)
        ensures
            final(self).code@ == old(self).code@.push(byte),
            final(self).constants@ == old(self).constants@,
    {
        self.code.push(byte);
    }

    /// Appends a value to the constant pool and returns its index.
    pub fn add_constant(&mut self, value: ValueType) -> (r: usize)
        requires
            old(self).constants.len() < usize::MAX,
        ensures
            final(self).constants@ == old(self).constants@.push(value),
            final(self).code@ == old(self).code@,
            r == old(self).constants.len(),
    {
        self.constants.push(value);
        self.constants.len() - 1
    }
}

} // verus!

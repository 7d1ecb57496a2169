use vstd::prelude::*;

verus! {

/// Largest and smallest values an `Integer` can hold, as mathematical integers.
pub open spec fn in_i64(x: int) -> bool {
    i64::MIN <= x <= i64::MAX
}

/// A runtime value. `Float` holds the IEEE-754 binary64 bit pattern of the number.
/// `Identifier` and `JumpOffset` only ever appear in a chunk's constant pool.
#[derive(Clone, Copy, Debug, PartialEq, Eq, Structural)]
pub enum ValueType {
    String(usize),
    Identifier(usize),
    Boolean(bool),
    Integer(i64),
    Float(u64),
    Nil,
    JumpOffset(usize),
}

/// The tag of a value, used to name operands in error reports.
#[derive(Clone, Copy, Debug, PartialEq, Eq, Structural)]
pub enum ValueTag {
    String,
    Identifier,
    Boolean,
    Integer,
    Float,
    Nil,
    JumpOffset,
}

pub open spec fn tag_of(v: ValueType) -> ValueTag {
    match v {
        ValueType::String(_) => ValueTag::String,
        ValueType::Identifier(_) => ValueTag::Identifier,
        ValueType::Boolean(_) => ValueTag::Boolean,
        ValueType::Integer(_) => ValueTag::Integer,
        ValueType::Float(_) => ValueTag::Float,
        ValueType::Nil => ValueTag::Nil,
        ValueType::JumpOffset(_) => ValueTag::JumpOffset,
    }
}

pub open spec fn is_number(v: ValueType) -> bool {
    v is Integer || v is Float
}

/// The bit that holds the sign of a binary64 number.
pub const SIGN_BIT: u64 = 0x8000_0000_0000_0000;

impl ValueType {
    pub fn tag(&self) -> (r: ValueTag)
        ensures
            r == tag_of(*self),
    {
        match self {
            ValueType::String(_) => ValueTag::String,
            ValueType::Identifier(_) => ValueTag::Identifier,
            ValueType::Boolean(_) => ValueTag::Boolean,
            ValueType::Integer(_) => ValueTag::Integer,
            ValueType::Float(_) => ValueTag::Float,
            ValueType::Nil => ValueTag::Nil,
            ValueType::JumpOffset(_) => ValueTag::JumpOffset,
        }
    }

    pub fn is_number(&self) -> (r: bool)
        ensures
            r == is_number(*self),
    {
        match self {
            ValueType::Integer(_) | ValueType::Float(_) => true,
            _ => false,
        }
    }
}

pub open spec fn tag_name(t: ValueTag) -> Seq<char> {
    match t {
        ValueTag::String => "String"@,
        ValueTag::Identifier => "Identifier"@,
        ValueTag::Boolean => "Boolean"@,
        ValueTag::Integer => "Integer"@,
        ValueTag::Float => "Float"@,
        ValueTag::Nil => "Nil"@,
        ValueTag::JumpOffset => "JumpOffset"@,
    }
}

impl ValueTag {
    /// The name of the tag, as error reports print it.
    pub fn name(&self) -> (r: &'static str)
        ensures
            r@ == tag_name(*self),
    {
        match self {
            ValueTag::String => "String",
            ValueTag::Identifier => "Identifier",
            ValueTag::Boolean => "Boolean",
            ValueTag::Integer => "Integer",
            ValueTag::Float => "Float",
            ValueTag::Nil => "Nil",
            ValueTag::JumpOffset => "JumpOffset",
        }
    }
}

} // verus!

use vstd::prelude::*;
use vstd::std_specs::convert::{FromSpecImpl, TryFromSpecImpl};

verus! {

/// The instructions of the machine. Each is one byte in the code; the byte
/// of an instruction is its place in this list, counted from 0.
#[derive(Copy, Clone, Debug, PartialEq, Eq, Structural)]
pub enum OpCode {
    Return,
    Load,
    LoadLong,
    Negate,
    Add,
    Subtract,
    Multiply,
    Divide,
}

impl OpCode {
    /// The byte that stands for the instruction in the code.
    pub open spec fn byte(self) -> u8 {
        match self {
            OpCode::Return => 0,
            OpCode::Load => 1,
            OpCode::LoadLong => 2,
            OpCode::Negate => 3,
            OpCode::Add => 4,
            OpCode::Subtract => 5,
            OpCode::Multiply => 6,
            OpCode::Divide => 7,
        }
    }

    /// The instruction that a byte stands for, where it stands for one.
    pub open spec fn of_byte(b: u8) -> Option<OpCode> {
        if b == 0 {
            Some(OpCode::Return)
        } else if b == 1 {
            Some(OpCode::Load)
        } else if b == 2 {
            Some(OpCode::LoadLong)
        } else if b == 3 {
            Some(OpCode::Negate)
        } else if b == 4 {
            Some(OpCode::Add)
        } else if b == 5 {
            Some(OpCode::Subtract)
        } else if b == 6 {
            Some(OpCode::Multiply)
        } else if b == 7 {
            Some(OpCode::Divide)
        } else {
            None
        }
    }

    /// The number of operand bytes that follow the instruction in the code.
    pub open spec fn operand_len(self) -> nat {
        match self {
            OpCode::Load => 1,
            OpCode::LoadLong => 3,
            _ => 0,
        }
    }

    /// The name under which the instruction is listed.
    pub open spec fn mnemonic(self) -> Seq<char> {
        match self {
            OpCode::Return => "RET"@,
            OpCode::Load => "LOAD"@,
            OpCode::LoadLong => "LOAD_LONG"@,
            OpCode::Negate => "NEGATE"@,
            OpCode::Add => "ADD"@,
            OpCode::Subtract => "SUBTRACT"@,
            OpCode::Multiply => "MULTIPLY"@,
            OpCode::Divide => "DIVIDE"@,
        }
    }

    /// The byte that stands for the instruction in the code.
    pub fn to_byte(self) -> (b: u8)
        ensures
            b == self.byte(),
            OpCode::of_byte(b) == Some(self),
    {
        match self {
            OpCode::Return => 0,
            OpCode::Load => 1,
            OpCode::LoadLong => 2,
            OpCode::Negate => 3,
            OpCode::Add => 4,
            OpCode::Subtract => 5,
            OpCode::Multiply => 6,
            OpCode::Divide => 7,
        }
    }

    /// The instruction that a byte stands for, where it stands for one.
    pub fn from_byte(b: u8) -> (r: Option<OpCode>)
        ensures
            r == OpCode::of_byte(b),
            r matches Some(op) ==> op.byte() == b,
    {
        match b {
            0 => Some(OpCode::Return),
            1 => Some(OpCode::Load),
            2 => Some(OpCode::LoadLong),
            3 => Some(OpCode::Negate),
            4 => Some(OpCode::Add),
            5 => Some(OpCode::Subtract),
            6 => Some(OpCode::Multiply),
            7 => Some(OpCode::Divide),
            _ => None,
        }
    }

    /// The name under which the instruction is listed.
    pub fn as_str(&self) -> (r: &'static str)
        ensures
            r@ == self.mnemonic(),
    {
        match self {
            OpCode::Return => "RET",
            OpCode::Load => "LOAD",
            OpCode::LoadLong => "LOAD_LONG",
            OpCode::Negate => "NEGATE",
            OpCode::Add => "ADD",
            OpCode::Subtract => "SUBTRACT",
            OpCode::Multiply => "MULTIPLY",
            OpCode::Divide => "DIVIDE",
        }
    }

    /// The name under which the instruction is listed, as an owned string.
    pub fn to_string(&self) -> (r: String)
        ensures
            r@ == self.mnemonic(),
    {
        String::from_str(self.as_str())
    }
}

impl From<OpCode> for u8 {
    fn from(op: OpCode) -> (b: u8) {
        op.to_byte()
    }
}

impl FromSpecImpl<OpCode> for u8 {
    open spec fn obeys_from_spec() -> bool {
        true
    }

    open spec fn from_spec(op: OpCode) -> u8 {
        op.byte()
    }
}

impl TryFrom<u8> for OpCode {
    /// the byte that stands for no instruction
    type Error = u8;

    fn try_from(b: u8) -> (r: Result<OpCode, u8>) {
        match OpCode::from_byte(b) {
            Some(op) => Ok(op),
            None => Err(b),
        }
    }
}

impl TryFromSpecImpl<u8> for OpCode {
    open spec fn obeys_try_from_spec() -> bool {
        true
    }

    open spec fn try_from_spec(b: u8) -> Result<OpCode, u8> {
        match OpCode::of_byte(b) {
            Some(op) => Ok(op),
            None => Err(b),
        }
    }
}

} // verus!

//! Instructions and opcodes of the virtual machine.

use vstd::prelude::*;

verus! {

/// The closed set of opcodes, each with a fixed execution cost in abstract
/// resource units.
#[derive(Debug, Clone, Copy, PartialEq, Eq, Structural)]
pub enum OpCode {
    Activate,
    Mutate,
    Replicate,
    Move,
    Sense,
    Noop,
}

/// An immutable instruction: an opcode, two address operands interpreted as
/// indices into the machine's memory buffer, and one Q16.16 fixed-point
/// parameter.
#[derive(Debug, Clone, Copy, PartialEq, Eq, Structural)]
pub struct Instruction {
    pub opcode: OpCode,
    pub arg1: usize,
    pub arg2: usize,
    pub arg3: i64,
}

/// The fixed execution cost of an opcode.
pub open spec fn spec_cost(op: OpCode) -> u32 {
    match op {
        OpCode::Activate => 1,
        OpCode::Mutate => 5,
        OpCode::Replicate => 10,
        OpCode::Move => 2,
        OpCode::Sense => 1,
        OpCode::Noop => 0,
    }
}

impl Instruction {
    /// Builds an instruction from its four parts.
    pub fn new(opcode: OpCode, arg1: usize, arg2: usize, arg3: i64) -> (r: Instruction)
        ensures
            r == (Instruction { opcode, arg1, arg2, arg3 }),
    {
        Instruction { opcode, arg1, arg2, arg3 }
    }

    /// Reports the fixed execution cost of this instruction.
    pub fn cost(&self) -> (c: u32)
        ensures
            c == spec_cost(self.opcode),
    {
        match self.opcode {
            OpCode::Activate => 1,
            OpCode::Mutate => 5,
            OpCode::Replicate => 10,
            OpCode::Move => 2,
            OpCode::Sense => 1,
            OpCode::Noop => 0,
        }
    }
}

} // verus!

//! The error type returned by the instruction executors.

use vstd::prelude::*;

verus! {

/// Error that is returned when a machine encounters an invalid opcode,
/// or when a call would overflow or a return would underflow the call
/// stack.
#[derive(Debug, Clone, Copy)]
pub struct OpcodeError {
    /// The invalid opcode that was encountered.
    opcode: u16,
    /// The low byte of the program counter at the moment the invalid
    /// opcode was encountered.
    pc: u8,
}

impl OpcodeError {
    /// The opcode recorded in the error.
    pub closed spec fn spec_opcode(self) -> u16 {
        self.opcode
    }

    /// The program-counter byte recorded in the error.
    pub closed spec fn spec_pc(self) -> u8 {
        self.pc
    }

    pub fn new(opcode: u16, pc: u8) -> (e: OpcodeError)
        ensures
            e.spec_opcode() == opcode,
            e.spec_pc() == pc,
    {
        OpcodeError { opcode, pc }
    }

    /// The opcode recorded in the error.
    pub fn opcode(&self) -> (r: u16)
        ensures
            r == self.spec_opcode(),
    {
        self.opcode
    }

    /// The program-counter byte recorded in the error.
    pub fn pc(&self) -> (r: u8)
        ensures
            r == self.spec_pc(),
    {
        self.pc
    }
}

} // verus!

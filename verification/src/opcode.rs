//! The instruction set: one opcode per instruction form, and the explicit,
//! total mapping between opcodes and the bytes that encode them.  A byte
//! outside the table decodes to `None`, which the machine treats as a fault.

use vstd::prelude::*;

verus! {

/// One opcode per instruction form.  The suffix gives the operand shape:
/// `I` takes an immediate value, `A` an absolute address, `R` a register.
#[derive(Copy, Clone, PartialEq, Eq, Structural, Debug)]
pub enum OpCode {
    NOOP,
    ADDA,
    ADDI,
    ADDR,
    ANDA,
    ANDI,
    ANDR,
    ORA,
    ORI,
    ORR,
    XORA,
    XORI,
    XORR,
    ROTR,
    ROTL,
    CALLA,
    CALLR,
    RTN,
    HALT,
    JMP,
    JMPA,
    LDSPA,
    LDSPI,
    LDSPR,
    LOADA,
    LOADI,
    LOADR,
    STRA,
    STRR,
    XFER,
    POP,
    PUSH,
    DEBUG,
}

/// The byte that encodes each opcode.
pub open spec fn spec_opcode_value(op: OpCode) -> u8 {
    match op {
        OpCode::NOOP => 0,
        OpCode::ADDA => 1,
        OpCode::ADDI => 2,
        OpCode::ADDR => 3,
        OpCode::ANDA => 4,
        OpCode::ANDI => 5,
        OpCode::ANDR => 6,
        OpCode::ORA => 7,
        OpCode::ORI => 8,
        OpCode::ORR => 9,
        OpCode::XORA => 10,
        OpCode::XORI => 11,
        OpCode::XORR => 12,
        OpCode::ROTR => 13,
        OpCode::ROTL => 14,
        OpCode::CALLA => 15,
        OpCode::CALLR => 16,
        OpCode::RTN => 17,
        OpCode::HALT => 18,
        OpCode::JMP => 19,
        OpCode::JMPA => 20,
        OpCode::LDSPA => 21,
        OpCode::LDSPI => 22,
        OpCode::LDSPR => 23,
        OpCode::LOADA => 24,
        OpCode::LOADI => 25,
        OpCode::LOADR => 26,
        OpCode::STRA => 27,
        OpCode::STRR => 28,
        OpCode::XFER => 29,
        OpCode::POP => 30,
        OpCode::PUSH => 31,
        OpCode::DEBUG => 32,
    }
}

/// The opcode a byte decodes to, or `None` for a byte beyond the known set.
pub open spec fn spec_opcode_of(b: u8) -> Option<OpCode> {
    if b == 0 {
        Some(OpCode::NOOP)
    } else if b == 1 {
        Some(OpCode::ADDA)
    } else if b == 2 {
        Some(OpCode::ADDI)
    } else if b == 3 {
        Some(OpCode::ADDR)
    } else if b == 4 {
        Some(OpCode::ANDA)
    } else if b == 5 {
        Some(OpCode::ANDI)
    } else if b == 6 {
        Some(OpCode::ANDR)
    } else if b == 7 {
        Some(OpCode::ORA)
    } else if b == 8 {
        Some(OpCode::ORI)
    } else if b == 9 {
        Some(OpCode::ORR)
    } else if b == 10 {
        Some(OpCode::XORA)
    } else if b == 11 {
        Some(OpCode::XORI)
    } else if b == 12 {
        Some(OpCode::XORR)
    } else if b == 13 {
        Some(OpCode::ROTR)
    } else if b == 14 {
        Some(OpCode::ROTL)
    } else if b == 15 {
        Some(OpCode::CALLA)
    } else if b == 16 {
        Some(OpCode::CALLR)
    } else if b == 17 {
        Some(OpCode::RTN)
    } else if b == 18 {
        Some(OpCode::HALT)
    } else if b == 19 {
        Some(OpCode::JMP)
    } else if b == 20 {
        Some(OpCode::JMPA)
    } else if b == 21 {
        Some(OpCode::LDSPA)
    } else if b == 22 {
        Some(OpCode::LDSPI)
    } else if b == 23 {
        Some(OpCode::LDSPR)
    } else if b == 24 {
        Some(OpCode::LOADA)
    } else if b == 25 {
        Some(OpCode::LOADI)
    } else if b == 26 {
        Some(OpCode::LOADR)
    } else if b == 27 {
        Some(OpCode::STRA)
    } else if b == 28 {
        Some(OpCode::STRR)
    } else if b == 29 {
        Some(OpCode::XFER)
    } else if b == 30 {
        Some(OpCode::POP)
    } else if b == 31 {
        Some(OpCode::PUSH)
    } else if b == 32 {
        Some(OpCode::DEBUG)
    } else {
        None
    }
}

impl OpCode {
    /// Encodes the opcode as its instruction byte.
    pub fn to_u8(self) -> (r: u8)
        ensures
            r == spec_opcode_value(self),
            spec_opcode_of(r) == Some(self),
    {
        match self {
            OpCode::NOOP => 0,
            OpCode::ADDA => 1,
            OpCode::ADDI => 2,
            OpCode::ADDR => 3,
            OpCode::ANDA => 4,
            OpCode::ANDI => 5,
            OpCode::ANDR => 6,
            OpCode::ORA => 7,
            OpCode::ORI => 8,
            OpCode::ORR => 9,
            OpCode::XORA => 10,
            OpCode::XORI => 11,
            OpCode::XORR => 12,
            OpCode::ROTR => 13,
            OpCode::ROTL => 14,
            OpCode::CALLA => 15,
            OpCode::CALLR => 16,
            OpCode::RTN => 17,
            OpCode::HALT => 18,
            OpCode::JMP => 19,
            OpCode::JMPA => 20,
            OpCode::LDSPA => 21,
            OpCode::LDSPI => 22,
            OpCode::LDSPR => 23,
            OpCode::LOADA => 24,
            OpCode::LOADI => 25,
            OpCode::LOADR => 26,
            OpCode::STRA => 27,
            OpCode::STRR => 28,
            OpCode::XFER => 29,
            OpCode::POP => 30,
            OpCode::PUSH => 31,
            OpCode::DEBUG => 32,
        }
    }

    /// Decodes an instruction byte; a byte with no defined mapping gives
    /// `None`.
    pub fn from_u8(b: u8) -> (r: Option<OpCode>)
        ensures
            r == spec_opcode_of(b),
    {
        if b == 0 {
            Some(OpCode::NOOP)
        } else if b == 1 {
            Some(OpCode::ADDA)
        } else if b == 2 {
            Some(OpCode::ADDI)
        } else if b == 3 {
            Some(OpCode::ADDR)
        } else if b == 4 {
            Some(OpCode::ANDA)
        } else if b == 5 {
            Some(OpCode::ANDI)
        } else if b == 6 {
            Some(OpCode::ANDR)
        } else if b == 7 {
            Some(OpCode::ORA)
        } else if b == 8 {
            Some(OpCode::ORI)
        } else if b == 9 {
            Some(OpCode::ORR)
        } else if b == 10 {
            Some(OpCode::XORA)
        } else if b == 11 {
            Some(OpCode::XORI)
        } else if b == 12 {
            Some(OpCode::XORR)
        } else if b == 13 {
            Some(OpCode::ROTR)
        } else if b == 14 {
            Some(OpCode::ROTL)
        } else if b == 15 {
            Some(OpCode::CALLA)
        } else if b == 16 {
            Some(OpCode::CALLR)
        } else if b == 17 {
            Some(OpCode::RTN)
        } else if b == 18 {
            Some(OpCode::HALT)
        } else if b == 19 {
            Some(OpCode::JMP)
        } else if b == 20 {
            Some(OpCode::JMPA)
        } else if b == 21 {
            Some(OpCode::LDSPA)
        } else if b == 22 {
            Some(OpCode::LDSPI)
        } else if b == 23 {
            Some(OpCode::LDSPR)
        } else if b == 24 {
            Some(OpCode::LOADA)
        } else if b == 25 {
            Some(OpCode::LOADI)
        } else if b == 26 {
            Some(OpCode::LOADR)
        } else if b == 27 {
            Some(OpCode::STRA)
        } else if b == 28 {
            Some(OpCode::STRR)
        } else if b == 29 {
            Some(OpCode::XFER)
        } else if b == 30 {
            Some(OpCode::POP)
        } else if b == 31 {
            Some(OpCode::PUSH)
        } else if b == 32 {
            Some(OpCode::DEBUG)
        } else {
            None
        }
    }
}

} // verus!

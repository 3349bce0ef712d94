//! The conditions under which the machine refuses to go on.

use vstd::prelude::*;

verus! {

/// Why an operation was refused. The instruction that faults changes nothing:
/// the machine stands as it stood before it, for the host to inspect.
///
/// Some faults are fatal: a malformed program brings them about, and the host
/// is to end the process on them. The functions that a host calls with an
/// index or an opcode of its own choosing leave those inputs out by their
/// `requires`; the functions that run what the bytecode says hand the fault
/// back.
#[derive(Clone, Copy, PartialEq, Eq, Structural, Debug)]
pub enum Fault {
    /// A reservation or a frame-link record does not fit in the stack.
    StackOverflow,
    /// A slot lies outside what the active frame may touch, or no frame is
    /// active.
    InvalidSlot,
    /// A frame was to be popped and none is active.
    NoFrame,
    /// The program counter is null: the machine has halted.
    Halted,
    /// The program counter does not point at a byte of a procedure.
    PcOutOfRange,
    /// The operand record of the instruction runs past the end of its
    /// procedure.
    TruncatedInstruction,
    /// The byte is no assigned opcode.
    UnknownOpcode(u8),
    /// No constant has this index.
    BadConstant(u32),
    /// No procedure has this index.
    BadProc(u32),
    /// The word used as a procedure reference is not the address of a
    /// procedure's first byte.
    NotAProcedure,
    /// A relative branch leaves the procedure it stands in.
    BranchOutOfRange,
    /// Integer division or remainder by zero.
    DivisionByZero,
    /// Integer division or remainder of the least integer by minus one.
    DivisionOverflow,
    /// The debugger was asked to step a program that has finished.
    AlreadyFinished,
    /// A debugger was to be attached to a machine that has call frames.
    FramesActive,
}

impl Fault {
    /// Whether the fault is fatal: a byte that is no opcode, an index past
    /// its table, a call of what is no procedure, or an integer division
    /// that has no result.
    pub open spec fn spec_is_fatal(&self) -> bool {
        match *self {
            Fault::UnknownOpcode(_)
            | Fault::BadConstant(_)
            | Fault::BadProc(_)
            | Fault::NotAProcedure
            | Fault::DivisionByZero
            | Fault::DivisionOverflow => true,
            _ => false,
        }
    }

    /// Whether the fault is fatal.
    #[verifier::when_used_as_spec(spec_is_fatal)]
    pub fn is_fatal(&self) -> (fatal: bool)
        ensures
            fatal == self.spec_is_fatal(),
    {
        match *self {
            Fault::UnknownOpcode(_)
            | Fault::BadConstant(_)
            | Fault::BadProc(_)
            | Fault::NotAProcedure
            | Fault::DivisionByZero
            | Fault::DivisionOverflow => true,
            _ => false,
        }
    }
}

} // verus!

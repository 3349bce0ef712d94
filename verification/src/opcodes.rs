//! The instruction set and its byte encoding.
//!
//! An instruction is one opcode byte followed by its operand record: the
//! operand fields in declared order, each at its exact width, little-endian,
//! with no padding. The opcode alone decides the length.

use vstd::prelude::*;
use crate::fault::Fault;
use crate::util::{
    Read,
    Write,
    le_bytes,
    le_value,
    lemma_le_bytes_len,
    lemma_le_bytes_of_value,
    lemma_le_bytes_one,
    lemma_le_value_bound,
    lemma_le_value_of_bytes,
    lemma_signed_round_trip,
    lemma_spans,
    lemma_unsigned_round_trip,
    to_signed,
    to_unsigned,
};

verus! {

// Memory
pub const ALLOC: u8 = 0;
pub const MOVE: u8 = 1;
pub const MOVE_VALUE: u8 = 2;
pub const LOAD_CONST: u8 = 3;
pub const LOAD_PROC: u8 = 4;
// Jumps
pub const CALL: u8 = 5;
pub const CALL_DYNAMIC: u8 = 6;
pub const BRANCH: u8 = 7;
pub const BRANCH_Z: u8 = 8;
pub const BRANCH_NZ: u8 = 9;
pub const BRANCH_LZ: u8 = 10;
pub const BRANCH_LEZ: u8 = 11;
pub const BRANCH_GZ: u8 = 12;
pub const BRANCH_GEZ: u8 = 13;
pub const RETURN: u8 = 14;
// Arithmetic on signed integers
pub const ADD_S64: u8 = 15;
pub const SUB_S64: u8 = 16;
pub const MUL_S64: u8 = 17;
pub const DIV_S64: u8 = 18;
pub const REM_S64: u8 = 19;
// Arithmetic on doubles
pub const ADD_F64: u8 = 20;
pub const SUB_F64: u8 = 21;
pub const MUL_F64: u8 = 22;
pub const DIV_F64: u8 = 23;
pub const REM_F64: u8 = 24;
// Debug
pub const PRINT_S64: u8 = 25;
pub const PRINT_F64: u8 = 26;
pub const PRINT_PROC: u8 = 27;
// Special
pub const HALT: u8 = 28;
pub const BREAKPOINT: u8 = 29;

/// One decoded instruction with its operands.
#[derive(Clone, Copy, PartialEq, Eq, Structural, Debug)]
pub enum Instruction {
    /// Reserve `size` local slots.
    Alloc { size: u16 },
    /// Copy slot `src` to slot `dst`.
    Move { dst: i16, src: i16 },
    /// Write the integer `value` to slot `dst`.
    MoveValue { dst: i16, value: i64 },
    /// Write constant number `index` to slot `dst`.
    LoadConst { dst: i16, index: u32 },
    /// Write a reference to procedure number `index` to slot `dst`.
    LoadProc { dst: i16, index: u32 },
    /// Call procedure number `index`.
    Call { index: u32 },
    /// Call the procedure whose reference slot `src` holds.
    CallDynamic { src: i16 },
    /// Jump by `offset` bytes, counted from the end of this instruction.
    Branch { offset: i32 },
    /// Jump if the integer in `src` is zero.
    BranchZ { src: i16, offset: i32 },
    /// Jump if the integer in `src` is not zero.
    BranchNz { src: i16, offset: i32 },
    /// Jump if the integer in `src` is below zero.
    BranchLz { src: i16, offset: i32 },
    /// Jump if the integer in `src` is zero or below.
    BranchLez { src: i16, offset: i32 },
    /// Jump if the integer in `src` is above zero.
    BranchGz { src: i16, offset: i32 },
    /// Jump if the integer in `src` is zero or above.
    BranchGez { src: i16, offset: i32 },
    /// Pop the frame and go on after the call that pushed it.
    Return,
    /// `dst = left + right` on integers.
    AddS64 { dst: i16, left: i16, right: i16 },
    /// `dst = left - right` on integers.
    SubS64 { dst: i16, left: i16, right: i16 },
    /// `dst = left * right` on integers.
    MulS64 { dst: i16, left: i16, right: i16 },
    /// `dst = left / right` on integers.
    DivS64 { dst: i16, left: i16, right: i16 },
    /// `dst = left % right` on integers.
    RemS64 { dst: i16, left: i16, right: i16 },
    /// `dst = left + right` on doubles.
    AddF64 { dst: i16, left: i16, right: i16 },
    /// `dst = left - right` on doubles.
    SubF64 { dst: i16, left: i16, right: i16 },
    /// `dst = left * right` on doubles.
    MulF64 { dst: i16, left: i16, right: i16 },
    /// `dst = left / right` on doubles.
    DivF64 { dst: i16, left: i16, right: i16 },
    /// `dst = left % right` on doubles.
    RemF64 { dst: i16, left: i16, right: i16 },
    /// Print the integer in `src`.
    PrintS64 { src: i16 },
    /// Print the double in `src`.
    PrintF64 { src: i16 },
    /// Print the procedure reference in `src`.
    PrintProc { src: i16 },
    /// Stop the machine.
    Halt,
    /// Ask the debugger to pause; nothing to the bare interpreter.
    Breakpoint,
}

/// The two bytes of a `u16` operand.
pub open spec fn enc_u16(v: u16) -> Seq<u8> {
    le_bytes(v as nat, 2)
}

/// The two bytes of an `i16` operand.
pub open spec fn enc_i16(v: i16) -> Seq<u8> {
    le_bytes(to_unsigned(v as int, 2), 2)
}

/// The four bytes of a `u32` operand.
pub open spec fn enc_u32(v: u32) -> Seq<u8> {
    le_bytes(v as nat, 4)
}

/// The four bytes of an `i32` operand.
pub open spec fn enc_i32(v: i32) -> Seq<u8> {
    le_bytes(to_unsigned(v as int, 4), 4)
}

/// The eight bytes of an `i64` operand.
pub open spec fn enc_i64(v: i64) -> Seq<u8> {
    le_bytes(to_unsigned(v as int, 8), 8)
}

/// The `u16` operand that starts `at` bytes into an operand record.
pub open spec fn u16_at(bytes: Seq<u8>, at: int) -> u16 {
    le_value(bytes.skip(at).take(2)) as u16
}

/// The `i16` operand that starts `at` bytes into an operand record.
pub open spec fn i16_at(bytes: Seq<u8>, at: int) -> i16 {
    to_signed(le_value(bytes.skip(at).take(2)), 2) as i16
}

/// The `u32` operand that starts `at` bytes into an operand record.
pub open spec fn u32_at(bytes: Seq<u8>, at: int) -> u32 {
    le_value(bytes.skip(at).take(4)) as u32
}

/// The `i32` operand that starts `at` bytes into an operand record.
pub open spec fn i32_at(bytes: Seq<u8>, at: int) -> i32 {
    to_signed(le_value(bytes.skip(at).take(4)), 4) as i32
}

/// The `i64` operand that starts `at` bytes into an operand record.
pub open spec fn i64_at(bytes: Seq<u8>, at: int) -> i64 {
    to_signed(le_value(bytes.skip(at).take(8)), 8) as i64
}

impl Instruction {
    /// The opcode byte of the instruction.
    pub open spec fn spec_opcode(&self) -> u8 {
        match self {
            Instruction::Alloc { .. } => ALLOC,
            Instruction::Move { .. } => MOVE,
            Instruction::MoveValue { .. } => MOVE_VALUE,
            Instruction::LoadConst { .. } => LOAD_CONST,
            Instruction::LoadProc { .. } => LOAD_PROC,
            Instruction::Call { .. } => CALL,
            Instruction::CallDynamic { .. } => CALL_DYNAMIC,
            Instruction::Branch { .. } => BRANCH,
            Instruction::BranchZ { .. } => BRANCH_Z,
            Instruction::BranchNz { .. } => BRANCH_NZ,
            Instruction::BranchLz { .. } => BRANCH_LZ,
            Instruction::BranchLez { .. } => BRANCH_LEZ,
            Instruction::BranchGz { .. } => BRANCH_GZ,
            Instruction::BranchGez { .. } => BRANCH_GEZ,
            Instruction::Return => RETURN,
            Instruction::AddS64 { .. } => ADD_S64,
            Instruction::SubS64 { .. } => SUB_S64,
            Instruction::MulS64 { .. } => MUL_S64,
            Instruction::DivS64 { .. } => DIV_S64,
            Instruction::RemS64 { .. } => REM_S64,
            Instruction::AddF64 { .. } => ADD_F64,
            Instruction::SubF64 { .. } => SUB_F64,
            Instruction::MulF64 { .. } => MUL_F64,
            Instruction::DivF64 { .. } => DIV_F64,
            Instruction::RemF64 { .. } => REM_F64,
            Instruction::PrintS64 { .. } => PRINT_S64,
            Instruction::PrintF64 { .. } => PRINT_F64,
            Instruction::PrintProc { .. } => PRINT_PROC,
            Instruction::Halt => HALT,
            Instruction::Breakpoint => BREAKPOINT,
        }
    }

    /// The operand record of the instruction: its fields in declared order.
    pub open spec fn operands(self) -> Seq<u8> {
        match self {
            Instruction::Alloc { size } => enc_u16(size),
            Instruction::Move { dst, src } => enc_i16(dst) + enc_i16(src),
            Instruction::MoveValue { dst, value } => enc_i16(dst) + enc_i64(value),
            Instruction::LoadConst { dst, index } | Instruction::LoadProc { dst, index } => enc_i16(
                dst,
            ) + enc_u32(index),
            Instruction::Call { index } => enc_u32(index),
            Instruction::Branch { offset } => enc_i32(offset),
            Instruction::BranchZ { src, offset }
            | Instruction::BranchNz { src, offset }
            | Instruction::BranchLz { src, offset }
            | Instruction::BranchLez { src, offset }
            | Instruction::BranchGz { src, offset }
            | Instruction::BranchGez { src, offset } => enc_i16(src) + enc_i32(offset),
            Instruction::AddS64 { dst, left, right }
            | Instruction::SubS64 { dst, left, right }
            | Instruction::MulS64 { dst, left, right }
            | Instruction::DivS64 { dst, left, right }
            | Instruction::RemS64 { dst, left, right }
            | Instruction::AddF64 { dst, left, right }
            | Instruction::SubF64 { dst, left, right }
            | Instruction::MulF64 { dst, left, right }
            | Instruction::DivF64 { dst, left, right }
            | Instruction::RemF64 { dst, left, right } => enc_i16(dst) + enc_i16(left) + enc_i16(
                right,
            ),
            Instruction::CallDynamic { src }
            | Instruction::PrintS64 { src }
            | Instruction::PrintF64 { src }
            | Instruction::PrintProc { src } => enc_i16(src),
            Instruction::Return | Instruction::Halt | Instruction::Breakpoint => Seq::empty(),
        }
    }

    /// The bytes of the instruction: the opcode, then the operand record.
    pub open spec fn encoding(self) -> Seq<u8> {
        seq![self.spec_opcode()] + self.operands()
    }

    /// How many bytes the operand record of `opcode` takes; `None` where the
    /// byte is no assigned opcode.
    pub open spec fn operand_len(opcode: u8) -> Option<nat> {
        if opcode == RETURN || opcode == HALT || opcode == BREAKPOINT {
            Some(0)
        } else if opcode == ALLOC || opcode == CALL_DYNAMIC || opcode == PRINT_S64 || opcode
            == PRINT_F64 || opcode == PRINT_PROC {
            Some(2)
        } else if opcode == MOVE || opcode == CALL || opcode == BRANCH {
            Some(4)
        } else if opcode == LOAD_CONST || opcode == LOAD_PROC || (BRANCH_Z <= opcode <= BRANCH_GEZ)
            || (ADD_S64 <= opcode <= REM_F64) {
            Some(6)
        } else if opcode == MOVE_VALUE {
            Some(10)
        } else {
            None
        }
    }

    /// The instruction that `opcode` makes with the operand record at the
    /// start of `bytes`; `None` where the byte is no assigned opcode.
    pub open spec fn decode(opcode: u8, bytes: Seq<u8>) -> Option<Instruction> {
        if opcode == ALLOC {
            Some(Instruction::Alloc { size: u16_at(bytes, 0) })
        } else if opcode == MOVE {
            Some(Instruction::Move { dst: i16_at(bytes, 0), src: i16_at(bytes, 2) })
        } else if opcode == MOVE_VALUE {
            Some(Instruction::MoveValue { dst: i16_at(bytes, 0), value: i64_at(bytes, 2) })
        } else if opcode == LOAD_CONST {
            Some(Instruction::LoadConst { dst: i16_at(bytes, 0), index: u32_at(bytes, 2) })
        } else if opcode == LOAD_PROC {
            Some(Instruction::LoadProc { dst: i16_at(bytes, 0), index: u32_at(bytes, 2) })
        } else if opcode == CALL {
            Some(Instruction::Call { index: u32_at(bytes, 0) })
        } else if opcode == CALL_DYNAMIC {
            Some(Instruction::CallDynamic { src: i16_at(bytes, 0) })
        } else if opcode == BRANCH {
            Some(Instruction::Branch { offset: i32_at(bytes, 0) })
        } else if opcode == BRANCH_Z {
            Some(Instruction::BranchZ { src: i16_at(bytes, 0), offset: i32_at(bytes, 2) })
        } else if opcode == BRANCH_NZ {
            Some(Instruction::BranchNz { src: i16_at(bytes, 0), offset: i32_at(bytes, 2) })
        } else if opcode == BRANCH_LZ {
            Some(Instruction::BranchLz { src: i16_at(bytes, 0), offset: i32_at(bytes, 2) })
        } else if opcode == BRANCH_LEZ {
            Some(Instruction::BranchLez { src: i16_at(bytes, 0), offset: i32_at(bytes, 2) })
        } else if opcode == BRANCH_GZ {
            Some(Instruction::BranchGz { src: i16_at(bytes, 0), offset: i32_at(bytes, 2) })
        } else if opcode == BRANCH_GEZ {
            Some(Instruction::BranchGez { src: i16_at(bytes, 0), offset: i32_at(bytes, 2) })
        } else if opcode == RETURN {
            Some(Instruction::Return)
        } else if opcode == ADD_S64 {
            Some(
                Instruction::AddS64 {
                    dst: i16_at(bytes, 0),
                    left: i16_at(bytes, 2),
                    right: i16_at(bytes, 4),
                },
            )
        } else if opcode == SUB_S64 {
            Some(
                Instruction::SubS64 {
                    dst: i16_at(bytes, 0),
                    left: i16_at(bytes, 2),
                    right: i16_at(bytes, 4),
                },
            )
        } else if opcode == MUL_S64 {
            Some(
                Instruction::MulS64 {
                    dst: i16_at(bytes, 0),
                    left: i16_at(bytes, 2),
                    right: i16_at(bytes, 4),
                },
            )
        } else if opcode == DIV_S64 {
            Some(
                Instruction::DivS64 {
                    dst: i16_at(bytes, 0),
                    left: i16_at(bytes, 2),
                    right: i16_at(bytes, 4),
                },
            )
        } else if opcode == REM_S64 {
            Some(
                Instruction::RemS64 {
                    dst: i16_at(bytes, 0),
                    left: i16_at(bytes, 2),
                    right: i16_at(bytes, 4),
                },
            )
        } else if opcode == ADD_F64 {
            Some(
                Instruction::AddF64 {
                    dst: i16_at(bytes, 0),
                    left: i16_at(bytes, 2),
                    right: i16_at(bytes, 4),
                },
            )
        } else if opcode == SUB_F64 {
            Some(
                Instruction::SubF64 {
                    dst: i16_at(bytes, 0),
                    left: i16_at(bytes, 2),
                    right: i16_at(bytes, 4),
                },
            )
        } else if opcode == MUL_F64 {
            Some(
                Instruction::MulF64 {
                    dst: i16_at(bytes, 0),
                    left: i16_at(bytes, 2),
                    right: i16_at(bytes, 4),
                },
            )
        } else if opcode == DIV_F64 {
            Some(
                Instruction::DivF64 {
                    dst: i16_at(bytes, 0),
                    left: i16_at(bytes, 2),
                    right: i16_at(bytes, 4),
                },
            )
        } else if opcode == REM_F64 {
            Some(
                Instruction::RemF64 {
                    dst: i16_at(bytes, 0),
                    left: i16_at(bytes, 2),
                    right: i16_at(bytes, 4),
                },
            )
        } else if opcode == PRINT_S64 {
            Some(Instruction::PrintS64 { src: i16_at(bytes, 0) })
        } else if opcode == PRINT_F64 {
            Some(Instruction::PrintF64 { src: i16_at(bytes, 0) })
        } else if opcode == PRINT_PROC {
            Some(Instruction::PrintProc { src: i16_at(bytes, 0) })
        } else if opcode == HALT {
            Some(Instruction::Halt)
        } else if opcode == BREAKPOINT {
            Some(Instruction::Breakpoint)
        } else {
            None
        }
    }

    /// The opcode byte of the instruction.
    #[verifier::when_used_as_spec(spec_opcode)]
    pub fn opcode(&self) -> (opcode: u8)
        ensures
            opcode == self.spec_opcode(),
    {
        match self {
            Instruction::Alloc { .. } => ALLOC,
            Instruction::Move { .. } => MOVE,
            Instruction::MoveValue { .. } => MOVE_VALUE,
            Instruction::LoadConst { .. } => LOAD_CONST,
            Instruction::LoadProc { .. } => LOAD_PROC,
            Instruction::Call { .. } => CALL,
            Instruction::CallDynamic { .. } => CALL_DYNAMIC,
            Instruction::Branch { .. } => BRANCH,
            Instruction::BranchZ { .. } => BRANCH_Z,
            Instruction::BranchNz { .. } => BRANCH_NZ,
            Instruction::BranchLz { .. } => BRANCH_LZ,
            Instruction::BranchLez { .. } => BRANCH_LEZ,
            Instruction::BranchGz { .. } => BRANCH_GZ,
            Instruction::BranchGez { .. } => BRANCH_GEZ,
            Instruction::Return => RETURN,
            Instruction::AddS64 { .. } => ADD_S64,
            Instruction::SubS64 { .. } => SUB_S64,
            Instruction::MulS64 { .. } => MUL_S64,
            Instruction::DivS64 { .. } => DIV_S64,
            Instruction::RemS64 { .. } => REM_S64,
            Instruction::AddF64 { .. } => ADD_F64,
            Instruction::SubF64 { .. } => SUB_F64,
            Instruction::MulF64 { .. } => MUL_F64,
            Instruction::DivF64 { .. } => DIV_F64,
            Instruction::RemF64 { .. } => REM_F64,
            Instruction::PrintS64 { .. } => PRINT_S64,
            Instruction::PrintF64 { .. } => PRINT_F64,
            Instruction::PrintProc { .. } => PRINT_PROC,
            Instruction::Halt => HALT,
            Instruction::Breakpoint => BREAKPOINT,
        }
    }

    /// How many bytes the operand record of `opcode` takes; `None` where the
    /// byte is no assigned opcode.
    pub fn operand_width(opcode: u8) -> (width: Option<usize>)
        ensures
            width.is_some() == Instruction::operand_len(opcode).is_some(),
            width matches Some(n) ==> Instruction::operand_len(opcode) == Some(n as nat),
    {
        if opcode == RETURN || opcode == HALT || opcode == BREAKPOINT {
            Some(0)
        } else if opcode == ALLOC || opcode == CALL_DYNAMIC || opcode == PRINT_S64 || opcode
            == PRINT_F64 || opcode == PRINT_PROC {
            Some(2)
        } else if opcode == MOVE || opcode == CALL || opcode == BRANCH {
            Some(4)
        } else if opcode == LOAD_CONST || opcode == LOAD_PROC || (BRANCH_Z <= opcode && opcode
            <= BRANCH_GEZ) || (ADD_S64 <= opcode && opcode <= REM_F64) {
            Some(6)
        } else if opcode == MOVE_VALUE {
            Some(10)
        } else {
            None
        }
    }

    /// How many bytes the instruction takes, opcode included.
    pub fn encoded_len(&self) -> (len: usize)
        ensures
            len == self.encoding().len(),
            1 <= len <= 11,
    {
        proof {
            lemma_operands_len(*self);
        }
        match Instruction::operand_width(self.opcode()) {
            Some(n) => 1 + n,
            None => 1,
        }
    }

    /// Appends the instruction's bytes to `out`.
    pub fn write<T: Write>(&self, out: &mut T)
        ensures
            final(out).written() == old(out).written() + self.encoding(),
    {
        let opcode = self.opcode();
        proof {
            lemma_le_bytes_one(opcode);
        }
        out.write_u8(opcode);
        match *self {
            Instruction::Alloc { size } => {
                out.write_u16(size);
            },
            Instruction::Move { dst, src } => {
                out.write_i16(dst);
                out.write_i16(src);
            },
            Instruction::MoveValue { dst, value } => {
                out.write_i16(dst);
                out.write_i64(value);
            },
            Instruction::LoadConst { dst, index } | Instruction::LoadProc { dst, index } => {
                out.write_i16(dst);
                out.write_u32(index);
            },
            Instruction::Call { index } => {
                out.write_u32(index);
            },
            Instruction::Branch { offset } => {
                out.write_i32(offset);
            },
            Instruction::BranchZ { src, offset }
            | Instruction::BranchNz { src, offset }
            | Instruction::BranchLz { src, offset }
            | Instruction::BranchLez { src, offset }
            | Instruction::BranchGz { src, offset }
            | Instruction::BranchGez { src, offset } => {
                out.write_i16(src);
                out.write_i32(offset);
            },
            Instruction::AddS64 { dst, left, right }
            | Instruction::SubS64 { dst, left, right }
            | Instruction::MulS64 { dst, left, right }
            | Instruction::DivS64 { dst, left, right }
            | Instruction::RemS64 { dst, left, right }
            | Instruction::AddF64 { dst, left, right }
            | Instruction::SubF64 { dst, left, right }
            | Instruction::MulF64 { dst, left, right }
            | Instruction::DivF64 { dst, left, right }
            | Instruction::RemF64 { dst, left, right } => {
                out.write_i16(dst);
                out.write_i16(left);
                out.write_i16(right);
            },
            Instruction::CallDynamic { src }
            | Instruction::PrintS64 { src }
            | Instruction::PrintF64 { src }
            | Instruction::PrintProc { src } => {
                out.write_i16(src);
            },
            Instruction::Return | Instruction::Halt | Instruction::Breakpoint => {},
        }
        assert(out.written() =~= old(out).written() + self.encoding());
    }

    /// Reads the operand record of `opcode` from `src` and returns the
    /// instruction. Where the byte is no assigned opcode, or fewer bytes are
    /// left than the record takes, reads nothing.
    pub fn read<T: Read>(opcode: u8, src: &mut T) -> (r: Result<Instruction, Fault>)
        ensures
            match Instruction::operand_len(opcode) {
                None => r == Err::<Instruction, Fault>(Fault::UnknownOpcode(opcode))
                    && final(src).unread() == old(src).unread(),
                Some(n) => if n <= old(src).unread().len() {
                    r == Ok::<Instruction, Fault>(
                        Instruction::decode(opcode, old(src).unread()).unwrap(),
                    ) && final(src).unread() == old(src).unread().skip(n as int)
                } else {
                    r == Err::<Instruction, Fault>(Fault::TruncatedInstruction)
                        && final(src).unread() == old(src).unread()
                },
            },
    {
        let width = match Instruction::operand_width(opcode) {
            Some(n) => n,
            None => {
                return Err(Fault::UnknownOpcode(opcode));
            },
        };
        if src.remaining() < width {
            return Err(Fault::TruncatedInstruction);
        }
        let ghost bytes = src.unread();
        proof {
            assert(bytes.skip(0) =~= bytes);
            if bytes.len() >= 4 {
                assert(bytes.skip(2).skip(2) =~= bytes.skip(4));
            }
        }
        let instruction = if opcode == ALLOC {
            Instruction::Alloc { size: src.read_u16().unwrap() }
        } else if opcode == MOVE {
            let dst = src.read_i16().unwrap();
            let from = src.read_i16().unwrap();
            Instruction::Move { dst, src: from }
        } else if opcode == MOVE_VALUE {
            let dst = src.read_i16().unwrap();
            let value = src.read_i64().unwrap();
            Instruction::MoveValue { dst, value }
        } else if opcode == LOAD_CONST {
            let dst = src.read_i16().unwrap();
            let index = src.read_u32().unwrap();
            Instruction::LoadConst { dst, index }
        } else if opcode == LOAD_PROC {
            let dst = src.read_i16().unwrap();
            let index = src.read_u32().unwrap();
            Instruction::LoadProc { dst, index }
        } else if opcode == CALL {
            Instruction::Call { index: src.read_u32().unwrap() }
        } else if opcode == BRANCH {
            Instruction::Branch { offset: src.read_i32().unwrap() }
        } else if BRANCH_Z <= opcode && opcode <= BRANCH_GEZ {
            let from = src.read_i16().unwrap();
            let offset = src.read_i32().unwrap();
            if opcode == BRANCH_Z {
                Instruction::BranchZ { src: from, offset }
            } else if opcode == BRANCH_NZ {
                Instruction::BranchNz { src: from, offset }
            } else if opcode == BRANCH_LZ {
                Instruction::BranchLz { src: from, offset }
            } else if opcode == BRANCH_LEZ {
                Instruction::BranchLez { src: from, offset }
            } else if opcode == BRANCH_GZ {
                Instruction::BranchGz { src: from, offset }
            } else {
                Instruction::BranchGez { src: from, offset }
            }
        } else if ADD_S64 <= opcode && opcode <= REM_F64 {
            let dst = src.read_i16().unwrap();
            let left = src.read_i16().unwrap();
            let right = src.read_i16().unwrap();
            if opcode == ADD_S64 {
                Instruction::AddS64 { dst, left, right }
            } else if opcode == SUB_S64 {
                Instruction::SubS64 { dst, left, right }
            } else if opcode == MUL_S64 {
                Instruction::MulS64 { dst, left, right }
            } else if opcode == DIV_S64 {
                Instruction::DivS64 { dst, left, right }
            } else if opcode == REM_S64 {
                Instruction::RemS64 { dst, left, right }
            } else if opcode == ADD_F64 {
                Instruction::AddF64 { dst, left, right }
            } else if opcode == SUB_F64 {
                Instruction::SubF64 { dst, left, right }
            } else if opcode == MUL_F64 {
                Instruction::MulF64 { dst, left, right }
            } else if opcode == DIV_F64 {
                Instruction::DivF64 { dst, left, right }
            } else {
                Instruction::RemF64 { dst, left, right }
            }
        } else if opcode == CALL_DYNAMIC {
            Instruction::CallDynamic { src: src.read_i16().unwrap() }
        } else if opcode == PRINT_S64 {
            Instruction::PrintS64 { src: src.read_i16().unwrap() }
        } else if opcode == PRINT_F64 {
            Instruction::PrintF64 { src: src.read_i16().unwrap() }
        } else if opcode == PRINT_PROC {
            Instruction::PrintProc { src: src.read_i16().unwrap() }
        } else if opcode == RETURN {
            Instruction::Return
        } else if opcode == HALT {
            Instruction::Halt
        } else {
            Instruction::Breakpoint
        };
        Ok(instruction)
    }
}

/// The operand record of an instruction has the length that its opcode
/// announces.
pub proof fn lemma_operands_len(i: Instruction)
    ensures
        Instruction::operand_len(i.spec_opcode()) == Some(i.operands().len()),
        i.encoding().len() == 1 + i.operands().len(),
        i.operands().len() <= 10,
{
    lemma_field_lens();
}

/// Each operand field takes the bytes of its width.
pub proof fn lemma_field_lens()
    ensures
        forall|v: u16| (#[trigger] enc_u16(v)).len() == 2,
        forall|v: i16| (#[trigger] enc_i16(v)).len() == 2,
        forall|v: u32| (#[trigger] enc_u32(v)).len() == 4,
        forall|v: i32| (#[trigger] enc_i32(v)).len() == 4,
        forall|v: i64| (#[trigger] enc_i64(v)).len() == 8,
{
    assert forall|v: u16| (#[trigger] enc_u16(v)).len() == 2 by {
        lemma_le_bytes_len(v as nat, 2);
    }
    assert forall|v: i16| (#[trigger] enc_i16(v)).len() == 2 by {
        lemma_le_bytes_len(to_unsigned(v as int, 2), 2);
    }
    assert forall|v: u32| (#[trigger] enc_u32(v)).len() == 4 by {
        lemma_le_bytes_len(v as nat, 4);
    }
    assert forall|v: i32| (#[trigger] enc_i32(v)).len() == 4 by {
        lemma_le_bytes_len(to_unsigned(v as int, 4), 4);
    }
    assert forall|v: i64| (#[trigger] enc_i64(v)).len() == 8 by {
        lemma_le_bytes_len(to_unsigned(v as int, 8), 8);
    }
}

/// A `u16` operand is read back from where its bytes stand.
pub proof fn lemma_u16_at(bytes: Seq<u8>, at: int, v: u16)
    requires
        0 <= at,
        at + 2 <= bytes.len(),
        bytes.subrange(at, at + 2) == enc_u16(v),
    ensures
        u16_at(bytes, at) == v,
{
    lemma_spans();
    assert(bytes.skip(at).take(2) =~= bytes.subrange(at, at + 2));
    lemma_le_value_of_bytes(v as nat, 2);
}

/// An `i16` operand is read back from where its bytes stand.
pub proof fn lemma_i16_at(bytes: Seq<u8>, at: int, v: i16)
    requires
        0 <= at,
        at + 2 <= bytes.len(),
        bytes.subrange(at, at + 2) == enc_i16(v),
    ensures
        i16_at(bytes, at) == v,
{
    lemma_spans();
    assert(bytes.skip(at).take(2) =~= bytes.subrange(at, at + 2));
    lemma_signed_round_trip(v as int, 2);
    lemma_le_value_of_bytes(to_unsigned(v as int, 2), 2);
}

/// A `u32` operand is read back from where its bytes stand.
pub proof fn lemma_u32_at(bytes: Seq<u8>, at: int, v: u32)
    requires
        0 <= at,
        at + 4 <= bytes.len(),
        bytes.subrange(at, at + 4) == enc_u32(v),
    ensures
        u32_at(bytes, at) == v,
{
    lemma_spans();
    assert(bytes.skip(at).take(4) =~= bytes.subrange(at, at + 4));
    lemma_le_value_of_bytes(v as nat, 4);
}

/// An `i32` operand is read back from where its bytes stand.
pub proof fn lemma_i32_at(bytes: Seq<u8>, at: int, v: i32)
    requires
        0 <= at,
        at + 4 <= bytes.len(),
        bytes.subrange(at, at + 4) == enc_i32(v),
    ensures
        i32_at(bytes, at) == v,
{
    lemma_spans();
    assert(bytes.skip(at).take(4) =~= bytes.subrange(at, at + 4));
    lemma_signed_round_trip(v as int, 4);
    lemma_le_value_of_bytes(to_unsigned(v as int, 4), 4);
}

/// An `i64` operand is read back from where its bytes stand.
pub proof fn lemma_i64_at(bytes: Seq<u8>, at: int, v: i64)
    requires
        0 <= at,
        at + 8 <= bytes.len(),
        bytes.subrange(at, at + 8) == enc_i64(v),
    ensures
        i64_at(bytes, at) == v,
{
    lemma_spans();
    assert(bytes.skip(at).take(8) =~= bytes.subrange(at, at + 8));
    lemma_signed_round_trip(v as int, 8);
    lemma_le_value_of_bytes(to_unsigned(v as int, 8), 8);
}

/// Decoding undoes encoding: from the operand record of an instruction,
/// whatever bytes follow it, its opcode reads the instruction back.
pub proof fn lemma_decode_encoded(i: Instruction, rest: Seq<u8>)
    ensures
        Instruction::decode(i.spec_opcode(), i.operands() + rest) == Some(i),
{
    lemma_field_lens();
    let bytes = i.operands() + rest;
    match i {
        Instruction::Alloc { size } => {
            assert(bytes.subrange(0, 2) =~= enc_u16(size));
            lemma_u16_at(bytes, 0, size);
        },
        Instruction::Move { dst, src } => {
            assert(bytes.subrange(0, 2) =~= enc_i16(dst));
            assert(bytes.subrange(2, 4) =~= enc_i16(src));
            lemma_i16_at(bytes, 0, dst);
            lemma_i16_at(bytes, 2, src);
        },
        Instruction::MoveValue { dst, value } => {
            assert(bytes.subrange(0, 2) =~= enc_i16(dst));
            assert(bytes.subrange(2, 10) =~= enc_i64(value));
            lemma_i16_at(bytes, 0, dst);
            lemma_i64_at(bytes, 2, value);
        },
        Instruction::LoadConst { dst, index } | Instruction::LoadProc { dst, index } => {
            assert(bytes.subrange(0, 2) =~= enc_i16(dst));
            assert(bytes.subrange(2, 6) =~= enc_u32(index));
            lemma_i16_at(bytes, 0, dst);
            lemma_u32_at(bytes, 2, index);
        },
        Instruction::Call { index } => {
            assert(bytes.subrange(0, 4) =~= enc_u32(index));
            lemma_u32_at(bytes, 0, index);
        },
        Instruction::Branch { offset } => {
            assert(bytes.subrange(0, 4) =~= enc_i32(offset));
            lemma_i32_at(bytes, 0, offset);
        },
        Instruction::BranchZ { src, offset }
        | Instruction::BranchNz { src, offset }
        | Instruction::BranchLz { src, offset }
        | Instruction::BranchLez { src, offset }
        | Instruction::BranchGz { src, offset }
        | Instruction::BranchGez { src, offset } => {
            assert(bytes.subrange(0, 2) =~= enc_i16(src));
            assert(bytes.subrange(2, 6) =~= enc_i32(offset));
            lemma_i16_at(bytes, 0, src);
            lemma_i32_at(bytes, 2, offset);
        },
        Instruction::AddS64 { dst, left, right }
        | Instruction::SubS64 { dst, left, right }
        | Instruction::MulS64 { dst, left, right }
        | Instruction::DivS64 { dst, left, right }
        | Instruction::RemS64 { dst, left, right }
        | Instruction::AddF64 { dst, left, right }
        | Instruction::SubF64 { dst, left, right }
        | Instruction::MulF64 { dst, left, right }
        | Instruction::DivF64 { dst, left, right }
        | Instruction::RemF64 { dst, left, right } => {
            assert(bytes.subrange(0, 2) =~= enc_i16(dst));
            assert(bytes.subrange(2, 4) =~= enc_i16(left));
            assert(bytes.subrange(4, 6) =~= enc_i16(right));
            lemma_i16_at(bytes, 0, dst);
            lemma_i16_at(bytes, 2, left);
            lemma_i16_at(bytes, 4, right);
        },
        Instruction::CallDynamic { src }
        | Instruction::PrintS64 { src }
        | Instruction::PrintF64 { src }
        | Instruction::PrintProc { src } => {
            assert(bytes.subrange(0, 2) =~= enc_i16(src));
            lemma_i16_at(bytes, 0, src);
        },
        Instruction::Return | Instruction::Halt | Instruction::Breakpoint => {},
    }
}

/// The bytes of an unsigned operand are the bytes it was read from.
pub proof fn lemma_enc_unsigned_at(bytes: Seq<u8>, at: int, width: nat)
    requires
        0 <= at,
        at + width <= bytes.len(),
        width == 2 || width == 4,
    ensures
        width == 2 ==> enc_u16(u16_at(bytes, at)) == bytes.subrange(at, at + 2),
        width == 4 ==> enc_u32(u32_at(bytes, at)) == bytes.subrange(at, at + 4),
{
    lemma_spans();
    let field = bytes.skip(at).take(width as int);
    assert(field =~= bytes.subrange(at, at + width));
    lemma_le_value_bound(field);
    lemma_le_bytes_of_value(field);
}

/// The bytes of a signed operand are the bytes it was read from.
pub proof fn lemma_enc_signed_at(bytes: Seq<u8>, at: int, width: nat)
    requires
        0 <= at,
        at + width <= bytes.len(),
        width == 2 || width == 4 || width == 8,
    ensures
        width == 2 ==> enc_i16(i16_at(bytes, at)) == bytes.subrange(at, at + 2),
        width == 4 ==> enc_i32(i32_at(bytes, at)) == bytes.subrange(at, at + 4),
        width == 8 ==> enc_i64(i64_at(bytes, at)) == bytes.subrange(at, at + 8),
{
    lemma_spans();
    let field = bytes.skip(at).take(width as int);
    assert(field =~= bytes.subrange(at, at + width));
    lemma_le_value_bound(field);
    lemma_unsigned_round_trip(le_value(field), width);
    lemma_le_bytes_of_value(field);
}

/// Encoding undoes decoding: the instruction that an opcode reads from an
/// operand record has that opcode and exactly that record. So no two byte
/// strings stand for one instruction.
pub proof fn lemma_encode_decoded(opcode: u8, bytes: Seq<u8>)
    requires
        Instruction::operand_len(opcode) matches Some(n) && n <= bytes.len(),
    ensures
        Instruction::decode(opcode, bytes) matches Some(i) && i.spec_opcode() == opcode
            && i.operands() == bytes.take(Instruction::operand_len(opcode).unwrap() as int),
{
    let n = Instruction::operand_len(opcode).unwrap();
    let i = Instruction::decode(opcode, bytes).unwrap();
    let record = bytes.take(n as int);
    if n == 2 {
        lemma_enc_unsigned_at(bytes, 0, 2);
        lemma_enc_signed_at(bytes, 0, 2);
        assert(bytes.subrange(0, 2) =~= record);
    } else if n == 4 {
        lemma_enc_unsigned_at(bytes, 0, 4);
        lemma_enc_signed_at(bytes, 0, 4);
        lemma_enc_signed_at(bytes, 0, 2);
        lemma_enc_signed_at(bytes, 2, 2);
        assert(bytes.subrange(0, 4) =~= record);
        assert(bytes.subrange(0, 2) + bytes.subrange(2, 4) =~= record);
    } else if n == 6 {
        lemma_enc_signed_at(bytes, 0, 2);
        lemma_enc_signed_at(bytes, 2, 2);
        lemma_enc_signed_at(bytes, 4, 2);
        lemma_enc_signed_at(bytes, 2, 4);
        lemma_enc_unsigned_at(bytes, 2, 4);
        assert(bytes.subrange(0, 2) + bytes.subrange(2, 6) =~= record);
        assert(bytes.subrange(0, 2) + bytes.subrange(2, 4) + bytes.subrange(4, 6) =~= record);
    } else if n == 10 {
        lemma_enc_signed_at(bytes, 0, 2);
        lemma_enc_signed_at(bytes, 2, 8);
        assert(bytes.subrange(0, 2) + bytes.subrange(2, 10) =~= record);
    } else {
        assert(record =~= Seq::<u8>::empty());
    }
}

} // verus!

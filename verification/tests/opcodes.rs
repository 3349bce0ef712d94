use slotvm::fault::Fault;
use slotvm::opcodes::Instruction;
use slotvm::opcodes::{
    ADD_F64, ADD_S64, ALLOC, BRANCH, BRANCH_GEZ, BRANCH_GZ, BRANCH_LEZ, BRANCH_LZ, BRANCH_NZ,
    BRANCH_Z, BREAKPOINT, CALL, CALL_DYNAMIC, DIV_F64, DIV_S64, HALT, LOAD_CONST, LOAD_PROC, MOVE,
    MOVE_VALUE, MUL_F64, MUL_S64, PRINT_F64, PRINT_PROC, PRINT_S64, REM_F64, REM_S64, RETURN,
    SUB_F64, SUB_S64,
};
use slotvm::runtime::proc::Proc;
use slotvm::util::{le_encode, Cursor, Read, Write};

fn every_instruction() -> Vec<Instruction> {
    vec![
        Instruction::Alloc { size: 0xbeef },
        Instruction::Move { dst: -2, src: 3 },
        Instruction::MoveValue { dst: -1, value: -0x0123_4567_89ab_cdef },
        Instruction::LoadConst { dst: 7, index: 0xdead_beef },
        Instruction::LoadProc { dst: -7, index: 2 },
        Instruction::Call { index: 0x0102_0304 },
        Instruction::CallDynamic { src: i16::MIN },
        Instruction::Branch { offset: -5 },
        Instruction::BranchZ { src: 1, offset: i32::MAX },
        Instruction::BranchNz { src: -1, offset: i32::MIN },
        Instruction::BranchLz { src: 2, offset: 12 },
        Instruction::BranchLez { src: 3, offset: -12 },
        Instruction::BranchGz { src: 4, offset: 0 },
        Instruction::BranchGez { src: 5, offset: 1 },
        Instruction::Return,
        Instruction::AddS64 { dst: -1, left: 2, right: 3 },
        Instruction::SubS64 { dst: 1, left: -2, right: 3 },
        Instruction::MulS64 { dst: 1, left: 2, right: -3 },
        Instruction::DivS64 { dst: i16::MAX, left: 0, right: 0 },
        Instruction::RemS64 { dst: 0, left: i16::MAX, right: 0 },
        Instruction::AddF64 { dst: 0, left: 0, right: i16::MAX },
        Instruction::SubF64 { dst: 9, left: 8, right: 7 },
        Instruction::MulF64 { dst: 6, left: 5, right: 4 },
        Instruction::DivF64 { dst: 3, left: 2, right: 1 },
        Instruction::RemF64 { dst: -3, left: -2, right: -1 },
        Instruction::PrintS64 { src: 0 },
        Instruction::PrintF64 { src: -1 },
        Instruction::PrintProc { src: 1 },
        Instruction::Halt,
        Instruction::Breakpoint,
    ]
}

#[test]
fn opcodes_are_numbered_in_catalogue_order() {
    let expected = [
        ALLOC, MOVE, MOVE_VALUE, LOAD_CONST, LOAD_PROC, CALL, CALL_DYNAMIC, BRANCH, BRANCH_Z,
        BRANCH_NZ, BRANCH_LZ, BRANCH_LEZ, BRANCH_GZ, BRANCH_GEZ, RETURN, ADD_S64, SUB_S64,
        MUL_S64, DIV_S64, REM_S64, ADD_F64, SUB_F64, MUL_F64, DIV_F64, REM_F64, PRINT_S64,
        PRINT_F64, PRINT_PROC, HALT, BREAKPOINT,
    ];
    for (number, opcode) in expected.iter().enumerate() {
        assert_eq!(*opcode as usize, number);
    }
    for (number, instruction) in every_instruction().iter().enumerate() {
        assert_eq!(instruction.opcode() as usize, number);
    }
}

#[test]
fn operand_widths_follow_the_field_widths() {
    let expected: [usize; 30] = [
        2, 4, 10, 6, 6, 4, 2, 4, 6, 6, 6, 6, 6, 6, 0, 6, 6, 6, 6, 6, 6, 6, 6, 6, 6, 2, 2, 2, 0, 0,
    ];
    for opcode in 0..30u8 {
        assert_eq!(Instruction::operand_width(opcode), Some(expected[opcode as usize]));
    }
    for opcode in 30..=255u8 {
        assert_eq!(Instruction::operand_width(opcode), None);
    }
    for instruction in every_instruction() {
        assert_eq!(instruction.encoded_len(), 1 + expected[instruction.opcode() as usize]);
    }
}

#[test]
fn instructions_encode_to_their_exact_bytes() {
    let mut out: Vec<u8> = Vec::new();
    Instruction::Alloc { size: 0x0102 }.write(&mut out);
    assert_eq!(out, vec![0, 0x02, 0x01]);

    let mut out: Vec<u8> = Vec::new();
    Instruction::MoveValue { dst: -1, value: 1 }.write(&mut out);
    assert_eq!(out, vec![2, 0xff, 0xff, 1, 0, 0, 0, 0, 0, 0, 0]);

    let mut out: Vec<u8> = Vec::new();
    Instruction::MoveValue { dst: 0, value: -2 }.write(&mut out);
    assert_eq!(out, vec![2, 0, 0, 0xfe, 0xff, 0xff, 0xff, 0xff, 0xff, 0xff, 0xff]);

    let mut out: Vec<u8> = Vec::new();
    Instruction::BranchNz { src: -1, offset: 12 }.write(&mut out);
    assert_eq!(out, vec![9, 0xff, 0xff, 12, 0, 0, 0]);

    let mut out: Vec<u8> = Vec::new();
    Instruction::Branch { offset: -2 }.write(&mut out);
    assert_eq!(out, vec![7, 0xfe, 0xff, 0xff, 0xff]);

    let mut out: Vec<u8> = Vec::new();
    Instruction::Call { index: 0x0a0b_0c0d }.write(&mut out);
    assert_eq!(out, vec![5, 0x0d, 0x0c, 0x0b, 0x0a]);

    let mut out: Vec<u8> = Vec::new();
    Instruction::MulS64 { dst: -1, left: -1, right: 1 }.write(&mut out);
    assert_eq!(out, vec![17, 0xff, 0xff, 0xff, 0xff, 1, 0]);

    let mut out: Vec<u8> = Vec::new();
    Instruction::Return.write(&mut out);
    Instruction::Halt.write(&mut out);
    Instruction::Breakpoint.write(&mut out);
    assert_eq!(out, vec![14, 28, 29]);
}

#[test]
fn write_appends_after_what_is_there() {
    let mut out: Vec<u8> = vec![9, 9];
    Instruction::PrintS64 { src: 3 }.write(&mut out);
    assert_eq!(out, vec![9, 9, 25, 3, 0]);
}

#[test]
fn every_instruction_reads_back_as_written() {
    for instruction in every_instruction() {
        let mut bytes: Vec<u8> = Vec::new();
        instruction.write(&mut bytes);
        bytes.extend_from_slice(&[0xaa, 0xbb]);
        assert_eq!(bytes.len(), instruction.encoded_len() + 2);
        let mut cursor = Cursor::new(&bytes, 1);
        assert_eq!(Instruction::read(bytes[0], &mut cursor), Ok(instruction));
        assert_eq!(cursor.position(), instruction.encoded_len());
        assert_eq!(cursor.remaining(), 2);
    }
}

#[test]
fn unknown_opcode_reads_nothing() {
    let bytes = [1u8, 2, 3, 4, 5, 6, 7, 8, 9, 10, 11, 12];
    for opcode in 30..=255u8 {
        let mut cursor = Cursor::new(&bytes, 0);
        assert_eq!(Instruction::read(opcode, &mut cursor), Err(Fault::UnknownOpcode(opcode)));
        assert_eq!(cursor.position(), 0);
    }
}

#[test]
fn truncated_operand_record_reads_nothing() {
    for instruction in every_instruction() {
        let mut bytes: Vec<u8> = Vec::new();
        instruction.write(&mut bytes);
        if bytes.len() == 1 {
            continue;
        }
        bytes.pop();
        let mut cursor = Cursor::new(&bytes, 1);
        assert_eq!(
            Instruction::read(bytes[0], &mut cursor),
            Err(Fault::TruncatedInstruction)
        );
        assert_eq!(cursor.position(), 1);
    }
}

#[test]
fn assemble_concatenates_the_encodings() {
    let program = [
        Instruction::Alloc { size: 1 },
        Instruction::MoveValue { dst: 0, value: 4 },
        Instruction::Call { index: 2 },
        Instruction::PrintS64 { src: 0 },
        Instruction::Halt,
    ];
    let proc = Proc::assemble(&program);
    let mut expected: Vec<u8> = Vec::new();
    for instruction in program.iter() {
        instruction.write(&mut expected);
    }
    assert_eq!(proc.code, expected);
    assert_eq!(proc.len(), 3 + 11 + 5 + 3 + 1);
    assert_eq!(proc.text(), &expected[..]);
    assert_eq!(Proc::assemble(&[]).code, Vec::<u8>::new());
    assert_eq!(Proc::new(vec![28]).code, vec![28]);
}

#[test]
fn integers_are_written_little_endian() {
    let mut out: Vec<u8> = Vec::new();
    out.write_u8(0xab);
    out.write_i8(-1);
    out.write_u16(0x1234);
    out.write_i16(-2);
    out.write_u32(0x1234_5678);
    out.write_i32(i32::MIN);
    out.write_u64(0x0102_0304_0506_0708);
    out.write_i64(i64::MIN);
    out.write(&[1, 2, 3]);
    assert_eq!(
        out,
        vec![
            0xab, 0xff, 0x34, 0x12, 0xfe, 0xff, 0x78, 0x56, 0x34, 0x12, 0, 0, 0, 0x80, 8, 7, 6,
            5, 4, 3, 2, 1, 0, 0, 0, 0, 0, 0, 0, 0x80, 1, 2, 3
        ]
    );
}

#[test]
fn integers_are_read_little_endian() {
    let bytes = [
        0xabu8, 0xff, 0x34, 0x12, 0xfe, 0xff, 0x78, 0x56, 0x34, 0x12, 0, 0, 0, 0x80, 8, 7, 6, 5,
        4, 3, 2, 1, 0, 0, 0, 0, 0, 0, 0, 0x80, 9,
    ];
    let mut cursor = Cursor::new(&bytes, 0);
    assert_eq!(cursor.read_u8(), Some(0xab));
    assert_eq!(cursor.read_i8(), Some(-1));
    assert_eq!(cursor.read_u16(), Some(0x1234));
    assert_eq!(cursor.read_i16(), Some(-2));
    assert_eq!(cursor.read_u32(), Some(0x1234_5678));
    assert_eq!(cursor.read_i32(), Some(i32::MIN));
    assert_eq!(cursor.read_u64(), Some(0x0102_0304_0506_0708));
    assert_eq!(cursor.read_i64(), Some(i64::MIN));
    assert_eq!(cursor.remaining(), 1);
    assert_eq!(cursor.read_u16(), None);
    assert_eq!(cursor.position(), 30);
    assert_eq!(cursor.read(0), Some(0));
    assert_eq!(cursor.read_u8(), Some(9));
    assert_eq!(cursor.read_u8(), None);
    assert_eq!(cursor.remaining(), 0);
}

#[test]
fn signed_integers_round_trip_at_their_limits() {
    for v in [i16::MIN, -1, 0, 1, i16::MAX] {
        let mut out: Vec<u8> = Vec::new();
        out.write_i16(v);
        assert_eq!(out, v.to_le_bytes().to_vec());
        assert_eq!(Cursor::new(&out, 0).read_i16(), Some(v));
    }
    for v in [i32::MIN, -1, 0, 1, i32::MAX] {
        let mut out: Vec<u8> = Vec::new();
        out.write_i32(v);
        assert_eq!(out, v.to_le_bytes().to_vec());
        assert_eq!(Cursor::new(&out, 0).read_i32(), Some(v));
    }
    for v in [i64::MIN, -1, 0, 1, i64::MAX] {
        let mut out: Vec<u8> = Vec::new();
        out.write_i64(v);
        assert_eq!(out, v.to_le_bytes().to_vec());
        assert_eq!(Cursor::new(&out, 0).read_i64(), Some(v));
    }
    for v in [i8::MIN, -1, 0, 1, i8::MAX] {
        let mut out: Vec<u8> = Vec::new();
        out.write_i8(v);
        assert_eq!(out, v.to_le_bytes().to_vec());
        assert_eq!(Cursor::new(&out, 0).read_i8(), Some(v));
    }
}

#[test]
fn cursor_beyond_the_end_has_nothing_to_read() {
    let bytes = [1u8, 2];
    let mut cursor = Cursor::new(&bytes, 5);
    assert_eq!(cursor.remaining(), 0);
    assert_eq!(cursor.read_u8(), None);
    assert_eq!(cursor.position(), 5);
}

#[test]
fn le_encode_gives_the_low_bytes_first() {
    assert_eq!(le_encode(0x0102_0304_0506_0708, 8), vec![8, 7, 6, 5, 4, 3, 2, 1]);
    assert_eq!(le_encode(0x0102_0304_0506_0708, 3), vec![8, 7, 6]);
    assert_eq!(le_encode(5, 0), Vec::<u8>::new());
    assert_eq!(le_encode(0x0102, 10), vec![2, 1, 0, 0, 0, 0, 0, 0, 0, 0]);
}

#[test]
fn read_takes_up_to_eight_bytes() {
    let bytes = [0u8, 8, 7, 6, 0xff, 0xff, 0xff, 0xff, 0xff, 0xff, 0xff, 0xff, 1];
    let mut cursor = Cursor::new(&bytes, 1);
    assert_eq!(cursor.read(3), Some(0x06_0708));
    assert_eq!(cursor.position(), 4);
    assert_eq!(cursor.read(9), None);
    assert_eq!(cursor.position(), 4);
    assert_eq!(cursor.read(8), Some(u64::MAX));
    assert_eq!(cursor.read(2), None);
    assert_eq!(cursor.read(1), Some(1));
}

#[test]
fn disassemble_reads_back_what_assemble_wrote() {
    let program = every_instruction();
    let proc = Proc::assemble(&program);
    assert_eq!(proc.disassemble(), Ok(program));
    assert_eq!(Proc::new(Vec::new()).disassemble(), Ok(Vec::new()));
    assert_eq!(
        Proc::new(vec![28, 14, 0, 5, 0]).disassemble(),
        Ok(vec![Instruction::Halt, Instruction::Return, Instruction::Alloc { size: 5 }])
    );
}

#[test]
fn disassemble_stops_at_what_is_no_instruction() {
    assert_eq!(Proc::new(vec![28, 30, 28]).disassemble(), Err(Fault::UnknownOpcode(30)));
    assert_eq!(Proc::new(vec![28, 0, 5]).disassemble(), Err(Fault::TruncatedInstruction));
    assert_eq!(Proc::new(vec![2, 0, 0, 1, 2, 3, 4, 5, 6, 7]).disassemble(),
        Err(Fault::TruncatedInstruction));
    assert_eq!(Proc::new(vec![255]).disassemble(), Err(Fault::UnknownOpcode(255)));
}

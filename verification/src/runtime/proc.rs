//! Procedures and the addresses of their code.
//!
//! A code address is one 64-bit word, so that it fits a stack slot and a
//! frame-link record. Zero is the null address. Any other address has its top
//! bit set, the procedure's table index in the 32 bits below, and the byte
//! offset into the procedure in the low 31 bits.

use vstd::prelude::*;
use vstd::slice::slice_subrange;
use crate::fault::Fault;
use crate::opcodes::{Instruction, lemma_decode_encoded, lemma_encode_decoded, lemma_operands_len};
use crate::util::Cursor;

verus! {

/// The null code address: the program counter of a halted machine.
pub const NULL_PC: u64 = 0;

/// The address of the first byte of procedure 0.
pub const CODE_BASE: u64 = 0x8000_0000_0000_0000;

/// The distance between the first bytes of two neighbouring procedures.
pub const SEGMENT_SIZE: u64 = 0x8000_0000;

/// The longest code that can be addressed: offsets up to and including the
/// end of the code must fit in 31 bits.
pub const MAX_CODE_LEN: usize = 0x7fff_ffff;

/// The address of byte `offset` of procedure `proc`.
pub open spec fn code_address(proc: nat, offset: nat) -> u64
    recommends
        proc <= u32::MAX,
        offset <= MAX_CODE_LEN,
{
    (CODE_BASE + proc * SEGMENT_SIZE + offset) as u64
}

/// Whether the word is a code address other than null.
pub open spec fn is_code_address(addr: u64) -> bool {
    addr >= CODE_BASE
}

/// The table index of the procedure that a code address points into.
pub open spec fn address_proc(addr: u64) -> nat
    recommends
        is_code_address(addr),
{
    ((addr - CODE_BASE) / (SEGMENT_SIZE as int)) as nat
}

/// The byte offset that a code address points at.
pub open spec fn address_offset(addr: u64) -> nat
    recommends
        is_code_address(addr),
{
    ((addr - CODE_BASE) % (SEGMENT_SIZE as int)) as nat
}

/// An address is made of a procedure and an offset, and gives both back.
pub proof fn lemma_code_address(proc: nat, offset: nat)
    requires
        proc <= u32::MAX,
        offset <= MAX_CODE_LEN,
    ensures
        code_address(proc, offset) == CODE_BASE + proc * SEGMENT_SIZE + offset,
        is_code_address(code_address(proc, offset)),
        address_proc(code_address(proc, offset)) == proc,
        address_offset(code_address(proc, offset)) == offset,
{
}

/// Every code address is the address of one byte of one procedure.
pub proof fn lemma_address_parts(addr: u64)
    requires
        is_code_address(addr),
    ensures
        address_proc(addr) <= u32::MAX,
        address_offset(addr) <= MAX_CODE_LEN,
        code_address(address_proc(addr), address_offset(addr)) == addr,
{
}

/// The address of byte `offset` of procedure `proc`.
pub fn make_address(proc: u32, offset: u32) -> (addr: u64)
    requires
        offset <= MAX_CODE_LEN,
    ensures
        addr == code_address(proc as nat, offset as nat),
        is_code_address(addr),
{
    proof {
        lemma_code_address(proc as nat, offset as nat);
    }
    CODE_BASE + (proc as u64) * SEGMENT_SIZE + (offset as u64)
}

/// The procedure and the offset that a code address is made of; `None` for
/// null and for any other word that is no code address.
pub fn split_address(addr: u64) -> (parts: Option<(u32, u32)>)
    ensures
        parts.is_some() == is_code_address(addr),
        parts matches Some((proc, offset)) ==> proc == address_proc(addr) && offset
            == address_offset(addr) && offset <= MAX_CODE_LEN,
{
    if addr >= CODE_BASE {
        let rel: u64 = addr - CODE_BASE;
        Some(((rel / SEGMENT_SIZE) as u32, (rel % SEGMENT_SIZE) as u32))
    } else {
        None
    }
}

/// The bytes of a sequence of instructions, one after the other.
pub open spec fn encode_all(instructions: Seq<Instruction>) -> Seq<u8>
    decreases instructions.len(),
{
    if instructions.len() == 0 {
        Seq::empty()
    } else {
        encode_all(instructions.drop_last()) + instructions.last().encoding()
    }
}

/// How many bytes into the code of `instructions` instruction number `k`
/// starts; for `k` the number of instructions, where the code ends.
pub open spec fn offset_of(instructions: Seq<Instruction>, k: int) -> nat {
    encode_all(instructions.take(k)).len()
}

/// The code of two sequences of instructions, one after the other, is the
/// code of the first followed by the code of the second.
pub proof fn lemma_encode_all_concat(first: Seq<Instruction>, second: Seq<Instruction>)
    ensures
        encode_all(first + second) == encode_all(first) + encode_all(second),
    decreases second.len(),
{
    if second.len() == 0 {
        assert(first + second =~= first);
        assert(encode_all(first) + encode_all(second) =~= encode_all(first));
    } else {
        assert((first + second).drop_last() =~= first + second.drop_last());
        assert((first + second).last() == second.last());
        lemma_encode_all_concat(first, second.drop_last());
        assert(encode_all(first + second) =~= encode_all(first) + encode_all(second));
    }
}

/// In the code of a sequence of instructions, instruction number `k` stands
/// at `offset_of(instructions, k)`: its opcode is the byte there, its opcode
/// decodes it from the bytes that follow, and the next instruction starts
/// where it ends.
pub proof fn lemma_instruction_at(instructions: Seq<Instruction>, k: int)
    requires
        0 <= k < instructions.len(),
    ensures
        ({
            let code = encode_all(instructions);
            let at = offset_of(instructions, k);
            &&& at + instructions[k].encoding().len() == offset_of(instructions, k + 1)
            &&& offset_of(instructions, k + 1) <= code.len()
            &&& code[at as int] == instructions[k].spec_opcode()
            &&& Instruction::decode(code[at as int], code.skip(at as int + 1)) == Some(
                instructions[k],
            )
        }),
{
    let code = encode_all(instructions);
    let before = instructions.take(k);
    let upto = instructions.take(k + 1);
    let after = instructions.skip(k + 1);
    let i = instructions[k];
    assert(upto.drop_last() =~= before);
    assert(upto.last() == i);
    assert(instructions =~= upto + after);
    lemma_encode_all_concat(upto, after);
    lemma_operands_len(i);
    let at = encode_all(before).len();
    let rest = encode_all(after);
    assert(code =~= encode_all(before) + i.encoding() + rest);
    assert(code.skip(at as int + 1) =~= i.operands() + rest);
    lemma_decode_encoded(i, rest);
}

/// The instructions that `code` is made of, read one after the other from
/// its first byte to its last; or the fault of the first byte that is no
/// opcode, or of the first operand record that runs past the end.
pub open spec fn decode_all(code: Seq<u8>) -> Result<Seq<Instruction>, Fault>
    decreases code.len(),
{
    if code.len() == 0 {
        Ok(Seq::empty())
    } else {
        match Instruction::operand_len(code[0]) {
            None => Err(Fault::UnknownOpcode(code[0])),
            Some(n) => if 1 + n <= code.len() {
                match decode_all(code.skip(1 + n as int)) {
                    Ok(rest) => Ok(
                        seq![Instruction::decode(code[0], code.skip(1)).unwrap()] + rest,
                    ),
                    Err(e) => Err(e),
                }
            } else {
                Err(Fault::TruncatedInstruction)
            },
        }
    }
}

/// The code of one instruction is its encoding.
pub proof fn lemma_encode_one(i: Instruction)
    ensures
        encode_all(seq![i]) == i.encoding(),
{
    let one = seq![i];
    assert(one.drop_last() =~= Seq::<Instruction>::empty());
    assert(encode_all(one.drop_last()) =~= Seq::<u8>::empty());
    assert(encode_all(one) =~= i.encoding());
}

/// Reading undoes writing: the code of a sequence of instructions reads back
/// as that sequence.
pub proof fn lemma_decode_all_encoded(instructions: Seq<Instruction>)
    ensures
        decode_all(encode_all(instructions)) == Ok::<Seq<Instruction>, Fault>(instructions),
    decreases instructions.len(),
{
    if instructions.len() == 0 {
        assert(instructions =~= Seq::<Instruction>::empty());
    } else {
        let first = instructions[0];
        let rest = instructions.skip(1);
        let code = encode_all(instructions);
        assert(instructions =~= seq![first] + rest);
        lemma_encode_all_concat(seq![first], rest);
        lemma_encode_one(first);
        lemma_operands_len(first);
        let n = first.operands().len();
        assert(code =~= first.encoding() + encode_all(rest));
        assert(code[0] == first.spec_opcode());
        assert(code.skip(1) =~= first.operands() + encode_all(rest));
        assert(code.skip(1 + n as int) =~= encode_all(rest));
        lemma_decode_encoded(first, encode_all(rest));
        lemma_decode_all_encoded(rest);
        assert(seq![first] + rest =~= instructions);
    }
}

/// Writing undoes reading: where code reads as a sequence of instructions,
/// it is the code of that sequence.
pub proof fn lemma_encode_all_decoded(code: Seq<u8>)
    requires
        decode_all(code) is Ok,
    ensures
        encode_all(decode_all(code).unwrap()) == code,
    decreases code.len(),
{
    if code.len() == 0 {
        assert(encode_all(Seq::<Instruction>::empty()) =~= code);
    } else {
        let n = Instruction::operand_len(code[0]).unwrap();
        let first = Instruction::decode(code[0], code.skip(1)).unwrap();
        let after = code.skip(1 + n as int);
        let rest = decode_all(after).unwrap();
        assert(decode_all(code).unwrap() == seq![first] + rest);
        lemma_encode_all_decoded(after);
        assert(first.encoding() == seq![code[0]] + code.skip(1).take(n as int)) by {
            lemma_encode_decoded(code[0], code.skip(1));
        }
        assert(encode_all(seq![first] + rest) == first.encoding() + after) by {
            lemma_encode_all_concat(seq![first], rest);
            lemma_encode_one(first);
        }
        assert(seq![code[0]] + code.skip(1).take(n as int) + after =~= code);
    }
}

/// The encoding is unambiguous: two sequences of instructions with the same
/// code are the same sequence.
pub proof fn lemma_encoding_unambiguous(xs: Seq<Instruction>, ys: Seq<Instruction>)
    requires
        encode_all(xs) == encode_all(ys),
    ensures
        xs == ys,
{
    lemma_decode_all_encoded(xs);
    lemma_decode_all_encoded(ys);
}

/// A procedure: the encoded bytes of its instructions. It never changes once
/// made.
pub struct Proc {
    pub code: Vec<u8>,
}

impl View for Proc {
    type V = Seq<u8>;

    /// The code that can be addressed: all of it, unless it is longer than
    /// `MAX_CODE_LEN` bytes.
    open spec fn view(&self) -> Seq<u8> {
        if self.code@.len() <= MAX_CODE_LEN {
            self.code@
        } else {
            self.code@.take(MAX_CODE_LEN as int)
        }
    }
}

impl Proc {
    /// A procedure with the given code.
    pub fn new(code: Vec<u8>) -> (p: Proc)
        ensures
            p.code@ == code@,
    {
        Proc { code }
    }

    /// A procedure made of the given instructions, in order.
    pub fn assemble(instructions: &[Instruction]) -> (p: Proc)
        ensures
            p.code@ == encode_all(instructions@),
    {
        let mut code: Vec<u8> = Vec::new();
        let mut i: usize = 0;
        assert(instructions@.take(0) =~= Seq::<Instruction>::empty());
        while i < instructions.len()
            invariant
                i <= instructions@.len(),
                code@ == encode_all(instructions@.take(i as int)),
            decreases instructions@.len() - i,
        {
            proof {
                let upto = instructions@.take(i + 1);
                assert(upto.drop_last() =~= instructions@.take(i as int));
                assert(upto.last() == instructions@[i as int]);
            }
            instructions[i].write(&mut code);
            i = i + 1;
        }
        assert(instructions@.take(i as int) =~= instructions@);
        Proc { code }
    }

    /// The instructions that the procedure is made of, read from the code
    /// that can be addressed; or the fault on which reading them stops.
    pub fn disassemble(&self) -> (r: Result<Vec<Instruction>, Fault>)
        ensures
            match decode_all(self@) {
                Ok(instructions) => r matches Ok(v) && v@ == instructions,
                Err(e) => r matches Err(fault) && fault == e,
            },
    {
        let text = self.text();
        let mut instructions: Vec<Instruction> = Vec::new();
        let mut pos: usize = 0;
        assert(text@.skip(0) =~= text@);
        assert(instructions@ + Seq::<Instruction>::empty() =~= instructions@);
        while pos < text.len()
            invariant
                text@ == self@,
                pos <= text@.len(),
                decode_all(self@) == match decode_all(text@.skip(pos as int)) {
                    Ok(rest) => Ok::<Seq<Instruction>, Fault>(instructions@ + rest),
                    Err(e) => Err(e),
                },
            decreases text@.len() - pos,
        {
            let opcode: u8 = text[pos];
            let ghost tail = text@.skip(pos as int);
            let mut cursor = Cursor::new(text, pos + 1);
            proof {
                assert(tail[0] == opcode);
                assert(tail.skip(1) =~= text@.skip(pos + 1));
            }
            match Instruction::read(opcode, &mut cursor) {
                Err(e) => {
                    return Err(e);
                },
                Ok(instruction) => {
                    let width: usize = Instruction::operand_width(opcode).unwrap();
                    proof {
                        let rest = decode_all(tail.skip(1 + width as int));
                        assert(tail.skip(1 + width as int) =~= text@.skip(pos + 1 + width));
                        if let Ok(more) = rest {
                            assert(instructions@ + (seq![instruction] + more)
                                =~= instructions@.push(instruction) + more);
                        }
                    }
                    instructions.push(instruction);
                    pos = pos + 1 + width;
                },
            }
        }
        proof {
            assert(instructions@ + Seq::<Instruction>::empty() =~= instructions@);
        }
        Ok(instructions)
    }

    /// The code that can be addressed.
    pub fn text(&self) -> (text: &[u8])
        ensures
            text@ == self@,
    {
        let len: usize = self.len();
        let text = slice_subrange(self.code.as_slice(), 0, len);
        assert(text@ =~= self@);
        text
    }

    /// How many bytes of code can be addressed.
    pub fn len(&self) -> (len: usize)
        ensures
            len == self@.len(),
            len <= MAX_CODE_LEN,
    {
        if self.code.len() <= MAX_CODE_LEN {
            self.code.len()
        } else {
            MAX_CODE_LEN
        }
    }
}

} // verus!

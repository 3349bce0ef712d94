//! What one instruction changes and what it leaves alone.

use vstd::prelude::*;
use crate::fault::Fault;
use crate::opcodes::{Instruction, lemma_operands_len};
use crate::runtime::{Effect, RuntimeView};
use crate::runtime::arith::{arith_s64, branch_taken, float_op};
use crate::runtime::calls::{
    lemma_load_after_store,
    lemma_return_wf,
    lemma_store_leaves_other_slots,
};
use crate::runtime::proc::{
    MAX_CODE_LEN,
    NULL_PC,
    address_offset,
    address_proc,
    code_address,
    encode_all,
    is_code_address,
    lemma_address_parts,
    lemma_code_address,
    lemma_instruction_at,
    offset_of,
};
use crate::runtime::stack::{
    StackView,
    lemma_limit_is_next_frame,
    lemma_push_frame_wf,
    lemma_push_keeps_records,
    lemma_slot_index_bounds,
    lemma_store_keeps_chain,
    lemma_store_keeps_records,
};
use crate::value::Value;

verus! {

/// What an instruction does to the stack's shape. Whatever the instruction,
/// it keeps the invariant, both tables, and every return address on record.
/// A call puts one frame in front of the frame chain, just below the old
/// top, with the program counter as its return address. A return takes the
/// first frame off, puts the top back just above it and goes to its return
/// address; with no frame to pop, it leaves the stack alone. A reservation
/// lowers the top. Anything else leaves frame pointer, frame chain and top as
/// they were, and the program counter in its procedure unless it halts.
pub proof fn lemma_apply_frames(m: RuntimeView, i: Instruction)
    requires
        m.wf(),
        m.apply(i) is Ok,
    ensures
        ({
            let n = m.apply(i).unwrap().0;
            &&& n.wf()
            &&& n.constants == m.constants
            &&& n.procs == m.procs
            &&& forall|j: int|
                0 <= j < m.stack.frames().len() ==> StackView::return_address_of(
                    n.stack.mem,
                    #[trigger] m.stack.frames()[j],
                ) == StackView::return_address_of(m.stack.mem, m.stack.frames()[j])
            &&& match i {
                Instruction::Call { .. } | Instruction::CallDynamic { .. } => {
                    &&& m.stack.sp >= 2
                    &&& n.stack.sp == m.stack.sp - 2
                    &&& n.stack.fp == Some((m.stack.sp - 2) as nat)
                    &&& n.stack.frames() == seq![(m.stack.sp - 2) as nat] + m.stack.frames()
                    &&& StackView::return_address_of(n.stack.mem, (m.stack.sp - 2) as nat) == m.pc
                    &&& n.pc != NULL_PC
                    &&& n.is_proc_ref(n.pc)
                },
                Instruction::Return => match m.stack.fp {
                    Some(f) => {
                        &&& m.stack.frames().len() > 0
                        &&& n.stack.sp == f + 2
                        &&& n.stack.frames() == m.stack.frames().drop_first()
                        &&& n.pc == StackView::return_address_of(m.stack.mem, f)
                    },
                    None => n.stack == m.stack && n.pc == NULL_PC,
                },
                Instruction::Alloc { size } => {
                    &&& n.stack.sp == m.stack.sp - size
                    &&& n.stack.fp == m.stack.fp
                    &&& n.stack.frames() == m.stack.frames()
                    &&& n.pc == m.pc
                },
                _ => {
                    &&& n.stack.sp == m.stack.sp
                    &&& n.stack.fp == m.stack.fp
                    &&& n.stack.frames() == m.stack.frames()
                    &&& n.pc == m.pc || n.pc == NULL_PC || (is_code_address(m.pc)
                        && is_code_address(n.pc) && address_proc(n.pc) == address_proc(m.pc))
                },
            }
        }),
{
    let s = m.stack;
    match i {
        Instruction::Call { index } => {
            lemma_push_frame_wf(s, m.pc);
            lemma_push_keeps_records(s, m.pc);
            lemma_code_address(index as nat, 0);
        },
        Instruction::CallDynamic { src } => {
            lemma_push_frame_wf(s, m.pc);
            lemma_push_keeps_records(s, m.pc);
        },
        Instruction::Return => {
            if s.fp is Some {
                lemma_return_wf(s);
            }
        },
        Instruction::Move { dst, src } => {
            lemma_store_keeps_chain(s, dst, s.load(src).unwrap());
            lemma_store_keeps_records(s, dst, s.load(src).unwrap());
        },
        Instruction::MoveValue { dst, value } => {
            lemma_store_keeps_chain(s, dst, Value::of_s64(value));
            lemma_store_keeps_records(s, dst, Value::of_s64(value));
        },
        Instruction::LoadConst { dst, index } => {
            lemma_store_keeps_chain(s, dst, m.constants[index as int].word());
            lemma_store_keeps_records(s, dst, m.constants[index as int].word());
        },
        Instruction::LoadProc { dst, index } => {
            lemma_store_keeps_chain(s, dst, Value { bits: code_address(index as nat, 0) });
            lemma_store_keeps_records(s, dst, Value { bits: code_address(index as nat, 0) });
        },
        Instruction::AddS64 { dst, left, right }
        | Instruction::SubS64 { dst, left, right }
        | Instruction::MulS64 { dst, left, right }
        | Instruction::DivS64 { dst, left, right }
        | Instruction::RemS64 { dst, left, right } => {
            let l = s.load(left).unwrap().spec_s64();
            let r = s.load(right).unwrap().spec_s64();
            lemma_store_keeps_chain(s, dst, Value::of_s64(arith_s64(i, l, r).unwrap()));
            lemma_store_keeps_records(s, dst, Value::of_s64(arith_s64(i, l, r).unwrap()));
        },
        Instruction::Branch { offset } => {
            lemma_branch_stays(m, offset);
        },
        Instruction::BranchZ { src, offset }
        | Instruction::BranchNz { src, offset }
        | Instruction::BranchLz { src, offset }
        | Instruction::BranchLez { src, offset }
        | Instruction::BranchGz { src, offset }
        | Instruction::BranchGez { src, offset } => {
            if branch_taken(i, m.load(src).unwrap().spec_s64()) {
                lemma_branch_stays(m, offset);
            }
        },
        _ => {},
    }
}

/// How far an instruction reaches into the stack. A call writes its link
/// record below the old top and nothing else. Any other instruction writes,
/// if at all, in the active frame's locals or in its caller's: every word
/// from the caller's link record upward is left as it was.
pub proof fn lemma_apply_reach(m: RuntimeView, i: Instruction)
    requires
        m.wf(),
        m.apply(i) is Ok,
    ensures
        ({
            let n = m.apply(i).unwrap().0;
            &&& n.stack.mem.len() == m.stack.mem.len()
            &&& forall|k: int|
                (if i is Call || i is CallDynamic {
                    m.stack.sp
                } else {
                    m.stack.limit()
                }) <= k < m.stack.mem.len() ==> #[trigger] n.stack.mem[k] == m.stack.mem[k]
        }),
{
    let s = m.stack;
    match i {
        Instruction::Move { dst, src } => {
            lemma_slot_index_bounds(s, dst);
        },
        Instruction::MoveValue { dst, value } => {
            lemma_slot_index_bounds(s, dst);
        },
        Instruction::LoadConst { dst, index } => {
            lemma_slot_index_bounds(s, dst);
        },
        Instruction::LoadProc { dst, index } => {
            lemma_slot_index_bounds(s, dst);
        },
        Instruction::AddS64 { dst, left, right }
        | Instruction::SubS64 { dst, left, right }
        | Instruction::MulS64 { dst, left, right }
        | Instruction::DivS64 { dst, left, right }
        | Instruction::RemS64 { dst, left, right } => {
            lemma_slot_index_bounds(s, dst);
        },
        _ => {},
    }
    if s.fp is Some {
        lemma_limit_is_next_frame(s);
    }
}

/// A relative branch stays in its procedure: the address it goes to is the
/// program counter moved by the offset, in the same procedure and not past
/// its end.
pub proof fn lemma_branch_stays(m: RuntimeView, offset: i32)
    requires
        m.branch_rel(offset) is Ok,
    ensures
        ({
            let n = m.branch_rel(offset).unwrap();
            &&& n.pc == m.pc + offset
            &&& is_code_address(m.pc)
            &&& is_code_address(n.pc)
            &&& address_proc(n.pc) == address_proc(m.pc)
            &&& address_offset(n.pc) == address_offset(m.pc) + offset
            &&& n.code_from(n.pc) is Some
            &&& n == m.at(n.pc)
        }),
{
    lemma_address_parts(m.pc);
    lemma_code_address(address_proc(m.pc), (address_offset(m.pc) + offset) as nat);
}

/// The slots that a three-slot arithmetic instruction names: destination,
/// left operand, right operand.
pub open spec fn arith_slots(i: Instruction) -> Option<(i16, i16, i16)> {
    match i {
        Instruction::AddS64 { dst, left, right }
        | Instruction::SubS64 { dst, left, right }
        | Instruction::MulS64 { dst, left, right }
        | Instruction::DivS64 { dst, left, right }
        | Instruction::RemS64 { dst, left, right }
        | Instruction::AddF64 { dst, left, right }
        | Instruction::SubF64 { dst, left, right }
        | Instruction::MulF64 { dst, left, right }
        | Instruction::DivF64 { dst, left, right }
        | Instruction::RemF64 { dst, left, right } => Some((dst, left, right)),
        _ => None,
    }
}

/// Whether the instruction is one of the five on integers.
pub open spec fn is_arith_s64(i: Instruction) -> bool {
    i is AddS64 || i is SubS64 || i is MulS64 || i is DivS64 || i is RemS64
}

/// Whether the instruction is one of the five on doubles.
pub open spec fn is_arith_float(i: Instruction) -> bool {
    i is AddF64 || i is SubF64 || i is MulF64 || i is DivF64 || i is RemF64
}

/// The slot and the offset of a conditional branch.
pub open spec fn branch_operands(i: Instruction) -> Option<(i16, i32)> {
    match i {
        Instruction::BranchZ { src, offset }
        | Instruction::BranchNz { src, offset }
        | Instruction::BranchLz { src, offset }
        | Instruction::BranchLez { src, offset }
        | Instruction::BranchGz { src, offset }
        | Instruction::BranchGez { src, offset } => Some((src, offset)),
        _ => None,
    }
}

/// An integer instruction does nothing but write its destination: the slot
/// `dst` then holds what the instruction computes from the two operands as
/// they were, every other slot reads as before, and program counter, frame,
/// stack top and both tables are untouched. Nothing is left for the host.
pub proof fn lemma_arith_writes_only_dst(m: RuntimeView, i: Instruction, other: i16)
    requires
        m.wf(),
        is_arith_s64(i),
        m.apply(i) is Ok,
        other != arith_slots(i).unwrap().0,
    ensures
        ({
            let (dst, left, right) = arith_slots(i).unwrap();
            let (n, effect) = m.apply(i).unwrap();
            &&& effect.is_none()
            &&& m.load(left) is Ok
            &&& m.load(right) is Ok
            &&& arith_s64(i, m.load(left).unwrap().spec_s64(), m.load(right).unwrap().spec_s64())
                matches Ok(v) && n.load(dst) == Ok::<Value, Fault>(Value::of_s64(v))
            &&& n.load(other) == m.load(other)
            &&& n.pc == m.pc
            &&& n.stack.sp == m.stack.sp
            &&& n.stack.fp == m.stack.fp
            &&& n.stack.frames() == m.stack.frames()
            &&& n.constants == m.constants
            &&& n.procs == m.procs
        }),
{
    let (dst, left, right) = arith_slots(i).unwrap();
    let l = m.load(left).unwrap().spec_s64();
    let r = m.load(right).unwrap().spec_s64();
    let v = Value::of_s64(arith_s64(i, l, r).unwrap());
    lemma_store_keeps_chain(m.stack, dst, v);
    lemma_load_after_store(m.stack, dst, v);
    lemma_store_leaves_other_slots(m.stack, dst, v, other);
}

/// A floating-point instruction changes nothing in the machine and hands the
/// host the operation with both operands as they stand in their slots. It
/// goes through exactly when the active frame may touch its three slots:
/// no operand value makes it fault.
pub proof fn lemma_float_is_left_to_host(m: RuntimeView, i: Instruction)
    requires
        m.wf(),
        is_arith_float(i),
    ensures
        ({
            let (dst, left, right) = arith_slots(i).unwrap();
            &&& m.apply(i) is Ok <==> m.load(left) is Ok && m.load(right) is Ok
                && m.stack.slot_index(dst) is Some
            &&& m.apply(i) is Ok ==> m.apply(i).unwrap() == (
                m,
                Some(
                    Effect::Float {
                        op: float_op(i),
                        dst,
                        left: m.load(left).unwrap().bits,
                        right: m.load(right).unwrap().bits,
                    },
                ),
            )
        }),
{
}

/// A conditional branch reads its slot as an integer and tests it against
/// zero. Where the test holds, the program counter goes `offset` bytes on
/// from `next`, the address just past the branch's own operand record; where
/// it fails, the program counter is `next`. Nothing else changes.
pub proof fn lemma_conditional_branch(m: RuntimeView, i: Instruction, next: u64)
    requires
        m.wf(),
        branch_operands(i) is Some,
        m.perform(i, next) is Ok,
    ensures
        ({
            let (src, offset) = branch_operands(i).unwrap();
            let (n, effect) = m.perform(i, next).unwrap();
            &&& effect.is_none()
            &&& m.load(src) is Ok
            &&& n.pc == if branch_taken(i, m.load(src).unwrap().spec_s64()) {
                next + offset
            } else {
                next as int
            }
            &&& n.stack == m.stack
            &&& n.constants == m.constants
            &&& n.procs == m.procs
        }),
{
    let (src, offset) = branch_operands(i).unwrap();
    let at = m.at(next);
    if branch_taken(i, m.load(src).unwrap().spec_s64()) {
        lemma_address_parts(next);
        let bytes = at.code_from(next).unwrap();
        lemma_code_address(address_proc(next), (address_offset(next) + offset) as nat);
    }
}

/// The address that decoding hands on is the program counter moved past the
/// operand record, and the decoded instruction has the opcode it was decoded
/// for.
pub proof fn lemma_decode_next(m: RuntimeView, opcode: u8)
    requires
        m.decode(opcode) is Ok,
    ensures
        ({
            let (i, next) = m.decode(opcode).unwrap();
            &&& i.spec_opcode() == opcode
            &&& next == m.pc + i.operands().len()
            &&& Instruction::operand_len(opcode) == Some(i.operands().len())
        }),
{
    let (i, next) = m.decode(opcode).unwrap();
    lemma_operands_len(i);
    lemma_address_parts(m.pc);
    let n = Instruction::operand_len(opcode).unwrap();
    lemma_code_address(address_proc(m.pc), address_offset(m.pc) + n);
}

/// The machine runs what was assembled: where a procedure's code is the
/// encoding of a sequence of instructions and the program counter stands at
/// the start of instruction number `k`, one step carries out that
/// instruction, with the start of the next one as the address just past it.
pub proof fn lemma_step_runs_assembled(
    m: RuntimeView,
    proc: nat,
    instructions: Seq<Instruction>,
    k: int,
)
    requires
        proc < m.procs.len(),
        proc <= u32::MAX,
        m.procs[proc as int].code@ == encode_all(instructions),
        encode_all(instructions).len() <= MAX_CODE_LEN,
        0 <= k < instructions.len(),
        m.pc == code_address(proc, offset_of(instructions, k)),
    ensures
        m.step() == m.perform(
            instructions[k],
            code_address(proc, offset_of(instructions, k + 1)),
        ),
{
    let code = encode_all(instructions);
    let at = offset_of(instructions, k);
    let i = instructions[k];
    lemma_instruction_at(instructions, k);
    lemma_operands_len(i);
    lemma_code_address(proc, at);
    lemma_code_address(proc, at + 1);
    lemma_code_address(proc, offset_of(instructions, k + 1));
    assert(m.procs[proc as int]@ == code);
    let fetched = m.at((m.pc + 1) as u64);
    assert(m.fetch() == Ok::<(RuntimeView, u8), Fault>((fetched, i.spec_opcode())));
    assert(fetched.code_from(fetched.pc) == Some(code.skip(at as int + 1)));
    assert(i.operands().len() <= code.skip(at as int + 1).len());
    assert(fetched.decode(i.spec_opcode()) == Ok::<(Instruction, u64), Fault>(
        (i, code_address(proc, offset_of(instructions, k + 1))),
    ));
}

} // verus!

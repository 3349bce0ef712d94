//! The calling convention, stated over the stack's model: what a frame may
//! rely on while it runs, what passes between caller and callee, and what a
//! return gives back, whatever sequence of stack operations runs in between.
//! The same is stated over the machine, for runs of instructions, in
//! `balance`.

use vstd::prelude::*;
use crate::fault::Fault;
use crate::value::Value;
use crate::runtime::stack::{
    StackView,
    lemma_limit_is_next_frame,
    lemma_push_frame_wf,
    lemma_push_keeps_records,
    lemma_slot_index_bounds,
    lemma_store_keeps_chain,
    lemma_store_keeps_records,
};

verus! {

/// The value that `writes` stores last into `slot`, if it stores any.
pub open spec fn last_written(writes: Seq<(i16, Value)>, slot: i16) -> Option<Value>
    decreases writes.len(),
{
    if writes.len() == 0 {
        None
    } else if writes.last().0 == slot {
        Some(writes.last().1)
    } else {
        last_written(writes.drop_last(), slot)
    }
}

/// The stack after a sequence of stores, or the first fault.
pub open spec fn store_all(s: StackView, writes: Seq<(i16, Value)>) -> Result<StackView, Fault>
    decreases writes.len(),
{
    if writes.len() == 0 {
        Ok(s)
    } else {
        match store_all(s, writes.drop_last()) {
            Ok(t) => t.store(writes.last().0, writes.last().1),
            Err(e) => Err(e),
        }
    }
}

/// The active frame is the first of the frame chain, and the chain goes on
/// with the caller's.
pub proof fn lemma_frames_head(s: StackView)
    requires
        s.wf(),
    ensures
        s.fp is None <==> s.frames().len() == 0,
        s.fp matches Some(f) ==> s.frames() == seq![f] + StackView::frames_from(
            s.mem,
            StackView::caller_of(s.mem, f),
        ),
{
    if let Some(f) = s.fp {
        if let Some(c) = StackView::caller_of(s.mem, f) {
        } else {
            assert(StackView::frames_from(s.mem, None) == Seq::<nat>::empty());
            assert(seq![f] + Seq::<nat>::empty() =~= seq![f]);
        }
    }
}

/// A store reads back: the slot holds the value just stored.
pub proof fn lemma_load_after_store(s: StackView, slot: i16, value: Value)
    requires
        s.wf(),
        s.store(slot, value) is Ok,
    ensures
        s.store(slot, value).unwrap().load(slot) == Ok::<Value, Fault>(value),
{
    lemma_store_keeps_chain(s, slot, value);
    lemma_slot_index_bounds(s, slot);
}

/// A store changes one slot only: every other slot reads as before.
pub proof fn lemma_store_leaves_other_slots(s: StackView, slot: i16, value: Value, other: i16)
    requires
        s.wf(),
        s.store(slot, value) is Ok,
        other != slot,
    ensures
        s.store(slot, value).unwrap().load(other) == s.load(other),
{
    lemma_store_keeps_chain(s, slot, value);
    lemma_slot_index_bounds(s, slot);
    if s.slot_index(other) is Some {
        lemma_slot_index_bounds(s, other);
    }
}

/// After a frame reserves `n` slots, each of the slots `0 .. n` can be
/// stored to, and reads back what was stored.
pub proof fn lemma_reserved_slot_holds_store(s: StackView, n: nat, slot: i16, value: Value)
    requires
        s.wf(),
        s.fp is Some,
        s.reserve(n) is Ok,
        0 <= slot < n,
    ensures
        s.reserve(n).unwrap().store(slot, value) is Ok,
        s.reserve(n).unwrap().store(slot, value).unwrap().load(slot) == Ok::<Value, Fault>(value),
{
    let t = s.reserve(n).unwrap();
    assert(t.wf());
    lemma_load_after_store(t, slot, value);
}

/// After a frame reserves `n` slots, any sequence of stores into the slots
/// `0 .. n` succeeds, and each of those slots then reads as the value last
/// stored into it, or as before if nothing was stored into it.
pub proof fn lemma_last_store_wins(
    s: StackView,
    n: nat,
    writes: Seq<(i16, Value)>,
    slot: i16,
)
    requires
        s.wf(),
        s.fp is Some,
        s.reserve(n) is Ok,
        forall|i: int| 0 <= i < writes.len() ==> 0 <= (#[trigger] writes[i]).0 < n,
        0 <= slot < n,
    ensures
        store_all(s.reserve(n).unwrap(), writes) matches Ok(t) && t.wf() && t.fp == s.fp && t.sp
            == s.sp - n && t.load(slot) == match last_written(writes, slot) {
            Some(v) => Ok::<Value, Fault>(v),
            None => s.reserve(n).unwrap().load(slot),
        },
    decreases writes.len(),
{
    let r = s.reserve(n).unwrap();
    if writes.len() > 0 {
        let before = writes.drop_last();
        lemma_last_store_wins(s, n, before, slot);
        let t = store_all(r, before).unwrap();
        let (w, v) = writes.last();
        assert(0 <= writes[writes.len() - 1].0 < n);
        lemma_store_keeps_chain(t, w, v);
        if w != slot {
            lemma_store_leaves_other_slots(t, w, v, slot);
        }
    }
}

/// What the caller holds in a local is what the callee reads at the matching
/// negative slot: with `locals` slots reserved by the caller, its local
/// `slot` is the callee's slot `slot - locals`. So the caller's last local is
/// the callee's slot `-1`.
pub proof fn lemma_callee_sees_caller_local(s: StackView, ra: u64, slot: i16, callee_slot: i16)
    requires
        s.wf(),
        s.push_frame(ra) is Ok,
        0 <= slot < s.locals(),
        callee_slot == slot - s.locals(),
    ensures
        s.load(slot) is Ok,
        s.push_frame(ra).unwrap().load(callee_slot) == s.load(slot),
{
    lemma_push_frame_wf(s, ra);
}

/// A return keeps the invariant and takes exactly the first frame off the
/// chain.
pub proof fn lemma_return_wf(s: StackView)
    requires
        s.wf(),
        s.return_call() is Ok,
    ensures
        s.return_call().unwrap().0.wf(),
        s.frames().len() > 0,
        s.return_call().unwrap().0.frames() == s.frames().drop_first(),
{
    lemma_frames_head(s);
    let f = s.fp.unwrap();
    let rest = StackView::frames_from(s.mem, StackView::caller_of(s.mem, f));
    assert((seq![f] + rest).drop_first() =~= rest);
}

/// Directly after a call, a return restores the caller's frame pointer and
/// stack top and yields the return address that the call recorded.
pub proof fn lemma_return_undoes_call(s: StackView, ra: u64)
    requires
        s.wf(),
        s.push_frame(ra) is Ok,
    ensures
        s.push_frame(ra).unwrap().return_call() matches Ok((back, to)) && to == ra && back.fp
            == s.fp && back.sp == s.sp && back.frames() == s.frames(),
{
    lemma_push_frame_wf(s, ra);
    lemma_return_wf(s.push_frame(ra).unwrap());
    assert((seq![(s.sp - 2) as nat] + s.frames()).drop_first() =~= s.frames());
}

/// One thing a program can do to the stack.
pub enum FrameOp {
    /// Reserve this many local slots.
    Reserve(nat),
    /// Write a slot of the active frame.
    Store(i16, Value),
    /// Push a frame with this return address.
    Call(u64),
    /// Pop the active frame.
    Return,
}

/// How many frames `ops` leaves pushed: calls minus returns.
pub open spec fn pushed(ops: Seq<FrameOp>) -> int
    decreases ops.len(),
{
    if ops.len() == 0 {
        0
    } else {
        pushed(ops.drop_last()) + match ops.last() {
            FrameOp::Call(_) => 1int,
            FrameOp::Return => -1int,
            _ => 0int,
        }
    }
}

/// `ops` never returns from a frame that it did not push itself.
pub open spec fn nested(ops: Seq<FrameOp>) -> bool {
    forall|n: int| 0 <= n <= ops.len() ==> pushed(#[trigger] ops.take(n)) >= 0
}

/// `ops` pops every frame it pushes, and no other: its calls and returns are
/// properly nested pairs.
pub open spec fn balanced(ops: Seq<FrameOp>) -> bool {
    nested(ops) && pushed(ops) == 0
}

/// `ops` works in one frame: it reserves and stores, and neither calls nor
/// returns.
pub open spec fn frame_local(ops: Seq<FrameOp>) -> bool {
    forall|i: int| 0 <= i < ops.len() ==> (#[trigger] ops[i]) is Reserve || ops[i] is Store
}

/// The value that `ops` stores last into slot `slot`, if it stores any.
pub open spec fn last_stored(ops: Seq<FrameOp>, slot: int) -> Option<Value>
    decreases ops.len(),
{
    if ops.len() == 0 {
        None
    } else {
        match ops.last() {
            FrameOp::Store(s, value) if s == slot => Some(value),
            _ => last_stored(ops.drop_last(), slot),
        }
    }
}

/// The stack after one operation.
pub open spec fn apply_op(s: StackView, op: FrameOp) -> Result<StackView, Fault> {
    match op {
        FrameOp::Reserve(n) => s.reserve(n),
        FrameOp::Store(slot, value) => s.store(slot, value),
        FrameOp::Call(ra) => s.push_frame(ra),
        FrameOp::Return => match s.return_call() {
            Ok((t, _)) => Ok(t),
            Err(e) => Err(e),
        },
    }
}

/// The stack after a sequence of operations, or the first fault.
pub open spec fn apply_all(s: StackView, ops: Seq<FrameOp>) -> Result<StackView, Fault>
    decreases ops.len(),
{
    if ops.len() == 0 {
        Ok(s)
    } else {
        match apply_all(s, ops.drop_last()) {
            Ok(t) => apply_op(t, ops.last()),
            Err(e) => Err(e),
        }
    }
}

/// Running one sequence and then another is running their concatenation.
pub proof fn lemma_apply_all_concat(s: StackView, first: Seq<FrameOp>, second: Seq<FrameOp>)
    ensures
        apply_all(s, first + second) == match apply_all(s, first) {
            Ok(t) => apply_all(t, second),
            Err(e) => Err(e),
        },
    decreases second.len(),
{
    if second.len() == 0 {
        assert(first + second =~= first);
    } else {
        assert((first + second).drop_last() =~= first + second.drop_last());
        assert((first + second).last() == second.last());
        lemma_apply_all_concat(s, first, second.drop_last());
    }
}

/// Each operation keeps the invariant and every return address on record,
/// and changes the frame chain in one of three ways: a call puts one frame in
/// front, a return takes the first one off, anything else leaves it alone.
pub proof fn lemma_op_shape(s: StackView, op: FrameOp)
    requires
        s.wf(),
        apply_op(s, op) is Ok,
    ensures
        ({
            let t = apply_op(s, op).unwrap();
            &&& t.wf()
            &&& forall|j: int|
                0 <= j < s.frames().len() ==> StackView::return_address_of(
                    t.mem,
                    #[trigger] s.frames()[j],
                ) == StackView::return_address_of(s.mem, s.frames()[j])
            &&& match op {
                FrameOp::Call(ra) => {
                    &&& t.frames() == seq![(s.sp - 2) as nat] + s.frames()
                    &&& StackView::return_address_of(t.mem, (s.sp - 2) as nat) == ra
                },
                FrameOp::Return => s.frames().len() > 0 && t.frames() == s.frames().drop_first(),
                _ => t.frames() == s.frames() && t.fp == s.fp,
            }
        }),
{
    match op {
        FrameOp::Reserve(n) => {},
        FrameOp::Store(slot, value) => {
            lemma_store_keeps_chain(s, slot, value);
            lemma_store_keeps_records(s, slot, value);
        },
        FrameOp::Call(ra) => {
            lemma_push_frame_wf(s, ra);
            lemma_push_keeps_records(s, ra);
        },
        FrameOp::Return => {
            lemma_return_wf(s);
        },
    }
}

/// A prefix of a nested sequence is nested.
pub proof fn lemma_nested_prefix(ops: Seq<FrameOp>, n: int)
    requires
        nested(ops),
        0 <= n <= ops.len(),
    ensures
        nested(ops.take(n)),
        pushed(ops.take(n)) >= 0,
{
    assert forall|m: int| 0 <= m <= ops.take(n).len() implies pushed(
        #[trigger] ops.take(n).take(m),
    ) >= 0 by {
        assert(ops.take(n).take(m) =~= ops.take(m));
    }
}

/// However far a nested sequence of operations has come, the frames that
/// were active when it began are still there, beneath the frames it has
/// pushed and not yet popped, each with the return address it had.
pub proof fn lemma_nested_keeps_outer_frames(s: StackView, ops: Seq<FrameOp>)
    requires
        s.wf(),
        nested(ops),
        apply_all(s, ops) is Ok,
    ensures
        pushed(ops) >= 0,
        apply_all(s, ops).unwrap().wf(),
        apply_all(s, ops).unwrap().frames().len() == pushed(ops) + s.frames().len(),
        apply_all(s, ops).unwrap().frames().skip(pushed(ops)) == s.frames(),
        forall|j: int|
            0 <= j < s.frames().len() ==> StackView::return_address_of(
                apply_all(s, ops).unwrap().mem,
                #[trigger] s.frames()[j],
            ) == StackView::return_address_of(s.mem, s.frames()[j]),
    decreases ops.len(),
{
    assert(ops.take(ops.len() as int) =~= ops);
    if ops.len() == 0 {
        assert(s.frames().skip(0) =~= s.frames());
    } else {
        let before = ops.drop_last();
        assert(before =~= ops.take(ops.len() - 1));
        lemma_nested_prefix(ops, ops.len() - 1);
        lemma_nested_keeps_outer_frames(s, before);
        let t = apply_all(s, before).unwrap();
        let u = apply_op(t, ops.last()).unwrap();
        lemma_op_shape(t, ops.last());
        let d = pushed(before);
        match ops.last() {
            FrameOp::Call(_) => {
                assert(u.frames().skip(d + 1) =~= t.frames().skip(d));
            },
            FrameOp::Return => {
                assert(u.frames().skip(d - 1) =~= t.frames().skip(d));
            },
            _ => {},
        }
        assert forall|j: int| 0 <= j < s.frames().len() implies StackView::return_address_of(
            u.mem,
            #[trigger] s.frames()[j],
        ) == StackView::return_address_of(s.mem, s.frames()[j]) by {
            assert(t.frames().skip(d)[j] == t.frames()[d + j]);
            assert(s.frames()[j] == t.frames()[d + j]);
        }
    }
}

/// Calls and returns are paired. A call, then any reservations, stores and
/// properly nested calls and returns, then a return: the return yields the
/// address that the call recorded, and the caller has its frame pointer, its
/// stack top and the whole frame chain back.
pub proof fn lemma_call_body_return(s: StackView, ra: u64, body: Seq<FrameOp>)
    requires
        s.wf(),
        balanced(body),
        apply_all(s, seq![FrameOp::Call(ra)] + body) is Ok,
    ensures
        apply_all(s, seq![FrameOp::Call(ra)] + body).unwrap().return_call() matches Ok((back, to))
            && to == ra && back.wf() && back.fp == s.fp && back.sp == s.sp && back.frames()
            == s.frames(),
{
    let call = seq![FrameOp::Call(ra)];
    lemma_apply_all_concat(s, call, body);
    assert(call.drop_last() =~= Seq::<FrameOp>::empty());
    assert(apply_all(s, call.drop_last()) == Ok::<StackView, Fault>(s));
    assert(apply_all(s, call) == s.push_frame(ra));
    let callee = s.push_frame(ra).unwrap();
    let f = (s.sp - 2) as nat;
    lemma_push_frame_wf(s, ra);
    lemma_push_keeps_records(s, ra);
    lemma_nested_keeps_outer_frames(callee, body);
    let inner = apply_all(callee, body).unwrap();
    assert(inner.frames().skip(0) =~= inner.frames());
    assert(callee.frames()[0] == f);
    lemma_frames_head(inner);
    lemma_return_wf(inner);
    let back = inner.return_call().unwrap().0;
    assert((seq![f] + s.frames()).drop_first() =~= s.frames());
    lemma_frames_head(s);
    lemma_frames_head(back);
    if let Some(g) = s.fp {
        assert(s.frames()[0] == g);
        assert(back.frames()[0] == back.fp.unwrap());
    }
}

/// What reservations and stores in one frame leave alone and what they
/// change: the frame, its link record and the limit of its negative slots
/// stay, and a word above the link record holds what was last stored into
/// the negative slot that names it, or what it held.
pub proof fn lemma_frame_local_run(c: StackView, body: Seq<FrameOp>, index: nat, slot: int)
    requires
        c.wf(),
        c.fp is Some,
        frame_local(body),
        apply_all(c, body) is Ok,
        slot < 0,
        index == c.fp.unwrap() + 1 - slot,
        index < c.limit(),
    ensures
        ({
            let f = c.fp.unwrap();
            let t = apply_all(c, body).unwrap();
            &&& t.wf()
            &&& t.mem.len() == c.mem.len()
            &&& t.fp == c.fp
            &&& t.frames() == c.frames()
            &&& t.limit() == c.limit()
            &&& StackView::caller_of(t.mem, f) == StackView::caller_of(c.mem, f)
            &&& StackView::return_address_of(t.mem, f) == StackView::return_address_of(c.mem, f)
            &&& t.mem[index as int] == match last_stored(body, slot) {
                Some(value) => value,
                None => c.mem[index as int],
            }
        }),
    decreases body.len(),
{
    let f = c.fp.unwrap();
    lemma_limit_is_next_frame(c);
    if body.len() > 0 {
        let before = body.drop_last();
        assert forall|i: int| 0 <= i < before.len() implies (#[trigger] before[i]) is Reserve
            || before[i] is Store by {
            assert(before[i] == body[i]);
        }
        lemma_frame_local_run(c, before, index, slot);
        let t = apply_all(c, before).unwrap();
        let op = body.last();
        assert(op == body[body.len() - 1]);
        let u = apply_op(t, op).unwrap();
        lemma_op_shape(t, op);
        match op {
            FrameOp::Store(s, value) => {
                lemma_store_keeps_chain(t, s, value);
                lemma_slot_index_bounds(t, s);
                let i = t.slot_index(s).unwrap();
                assert(u.mem == t.mem.update(i as int, value));
                assert(i != f && i != f + 1);
                if s == slot {
                    assert(i == index);
                    assert(last_stored(body, slot) == Some(value));
                } else {
                    assert(i != index);
                    assert(last_stored(body, slot) == last_stored(before, slot));
                }
            },
            FrameOp::Reserve(n) => {
                assert(u.mem == t.mem);
                assert(last_stored(body, slot) == last_stored(before, slot));
            },
            _ => {},
        }
    }
}

/// What the callee stores at a negative slot is what the caller reads after
/// the return. A call, then any reservations and stores of the callee, then
/// a return: the caller has its frame pointer and its stack top back, the
/// return yields the address that the call recorded, and each local of the
/// caller holds what the callee stored last into the negative slot that
/// names it, or what it held before the call where the callee stored
/// nothing there. With `locals` slots reserved by the caller, its local
/// `slot` is the callee's slot `slot - locals`.
pub proof fn lemma_caller_sees_callee_stores(
    s: StackView,
    ra: u64,
    body: Seq<FrameOp>,
    slot: i16,
)
    requires
        s.wf(),
        frame_local(body),
        apply_all(s, seq![FrameOp::Call(ra)] + body) is Ok,
        0 <= slot < s.locals(),
    ensures
        apply_all(s, seq![FrameOp::Call(ra)] + body).unwrap().return_call() matches Ok((back, to))
            && to == ra && back.wf() && back.fp == s.fp && back.sp == s.sp && back.load(slot)
            == match last_stored(body, slot - s.locals()) {
            Some(value) => Ok::<Value, Fault>(value),
            None => s.load(slot),
        },
{
    let call = seq![FrameOp::Call(ra)];
    lemma_apply_all_concat(s, call, body);
    assert(call.drop_last() =~= Seq::<FrameOp>::empty());
    assert(apply_all(s, call.drop_last()) == Ok::<StackView, Fault>(s));
    assert(apply_all(s, call) == s.push_frame(ra));
    let callee = s.push_frame(ra).unwrap();
    let f = (s.sp - 2) as nat;
    let g = s.fp.unwrap();
    let index = (g - 1 - slot) as nat;
    lemma_push_frame_wf(s, ra);
    lemma_push_keeps_records(s, ra);
    lemma_limit_is_next_frame(callee);
    lemma_limit_is_next_frame(s);
    lemma_frames_head(s);
    assert(callee.frames()[1] == s.frames()[0]);
    lemma_frame_local_run(callee, body, index, slot - s.locals());
    let inner = apply_all(callee, body).unwrap();
    lemma_return_wf(inner);
}

} // verus!

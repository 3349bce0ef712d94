//! Calls and returns are paired, whatever runs in between: the frames that
//! are live when a procedure is called are what its caller finds when it
//! returns, and of the stack above its own locals the caller finds every
//! word as it left it.

use vstd::prelude::*;
use crate::runtime::RuntimeView;
use crate::runtime::steps::{lemma_apply_frames, lemma_apply_reach};
use crate::runtime::calls::lemma_frames_head;
use crate::runtime::stack::{
    lemma_frames_ascend,
    lemma_limit_is_next_frame,
    lemma_slot_index_bounds,
    lemma_store_keeps_chain,
};
use crate::value::Value;

verus! {

/// One thing that happens to a machine between two instruction boundaries.
pub enum Event {
    /// The machine runs one instruction.
    Step,
    /// The host stores a word in a slot of the active frame, as it does with
    /// the result of a floating-point operation.
    Store(i16, Value),
}

/// The machine after one event; `None` where the event faults.
#[verifier::opaque]
pub open spec fn after_event(m: RuntimeView, event: Event) -> Option<RuntimeView> {
    match event {
        Event::Step => match m.step() {
            Ok((n, _)) => Some(n),
            Err(_) => None,
        },
        Event::Store(slot, value) => match m.store(slot, value) {
            Ok(n) => Some(n),
            Err(_) => None,
        },
    }
}

/// The machine after a sequence of events; `None` where one of them faults.
pub open spec fn after_events(m: RuntimeView, events: Seq<Event>) -> Option<RuntimeView>
    decreases events.len(),
{
    if events.len() == 0 {
        Some(m)
    } else {
        match after_events(m, events.drop_last()) {
            Some(n) => after_event(n, events.last()),
            None => None,
        }
    }
}

/// How many frames are live.
pub open spec fn depth(m: RuntimeView) -> nat {
    m.stack.frames().len()
}

/// The `d` outermost of the live frames.
pub open spec fn outer_frames(m: RuntimeView, d: nat) -> Seq<nat> {
    m.stack.frames().skip(depth(m) - d)
}

/// Between their first and their last, the events all leave the machine
/// with more than `d` live frames: neither has the matching return happened
/// nor has anything below been popped.
pub open spec fn stays_above(m: RuntimeView, events: Seq<Event>, d: nat) -> bool {
    forall|j: int|
        0 < j < events.len() ==> ((#[trigger] after_events(m, events.take(j))) matches Some(n)
            && depth(n) > d)
}

/// The stack words from index `from` upward are the same in both machines.
pub open spec fn unchanged_from(m: RuntimeView, n: RuntimeView, from: nat) -> bool {
    forall|k: int| from <= k < m.stack.mem.len() ==> #[trigger] n.stack.mem[k] == m.stack.mem[k]
}

/// Where the stack is out of reach while at least `d` frames stay live: the
/// link record of the caller of the `d`-th frame, counted from the
/// outermost; the end of the buffer where that frame has no caller.
pub open spec fn out_of_reach(m: RuntimeView, d: nat) -> nat {
    if d >= 2 {
        outer_frames(m, d)[1]
    } else {
        m.stack.mem.len()
    }
}

/// How one event changes the stack's shape.
pub enum Shape {
    /// One frame was pushed.
    Pushed,
    /// The innermost frame was popped.
    Popped,
    /// The frame chain is as it was.
    Kept,
}

/// The change of shape between two machines, one event apart.
pub open spec fn shape_of(m: RuntimeView, n: RuntimeView) -> Shape {
    if depth(n) > depth(m) {
        Shape::Pushed
    } else if depth(n) < depth(m) {
        Shape::Popped
    } else {
        Shape::Kept
    }
}

/// An event keeps the machine's invariant and changes the frame chain in one
/// of three ways: it puts one frame in front, just below the old stack top;
/// it takes the first frame off and puts the stack top just above it; or it
/// leaves the chain alone.
pub proof fn lemma_event_shape(m: RuntimeView, event: Event)
    requires
        m.wf(),
        after_event(m, event) is Some,
    ensures
        ({
            let n = after_event(m, event).unwrap();
            &&& n.wf()
            &&& n.stack.mem.len() == m.stack.mem.len()
            &&& match shape_of(m, n) {
                Shape::Pushed => {
                    &&& m.stack.sp >= 2
                    &&& n.stack.sp == m.stack.sp - 2
                    &&& n.stack.frames() == seq![(m.stack.sp - 2) as nat] + m.stack.frames()
                    &&& unchanged_from(m, n, m.stack.sp)
                },
                Shape::Popped => {
                    &&& depth(m) > 0
                    &&& n.stack.sp == m.stack.frames()[0] + 2
                    &&& n.stack.frames() == m.stack.frames().drop_first()
                    &&& unchanged_from(m, n, m.stack.limit())
                },
                Shape::Kept => {
                    &&& n.stack.frames() == m.stack.frames()
                    &&& unchanged_from(m, n, m.stack.limit())
                },
            }
        }),
{
    reveal(after_event);
    match event {
        Event::Step => {
            let (fetched, opcode) = m.fetch().unwrap();
            let (i, next) = fetched.decode(opcode).unwrap();
            let ready = fetched.at(next);
            lemma_apply_frames(ready, i);
            lemma_apply_reach(ready, i);
            lemma_frames_head(m.stack);
        },
        Event::Store(slot, value) => {
            lemma_store_keeps_chain(m.stack, slot, value);
            lemma_slot_index_bounds(m.stack, slot);
        },
    }
}

/// Running one sequence of events and then another is running them in one.
pub proof fn lemma_after_events_concat(m: RuntimeView, first: Seq<Event>, second: Seq<Event>)
    ensures
        after_events(m, first + second) == match after_events(m, first) {
            Some(n) => after_events(n, second),
            None => None,
        },
    decreases second.len(),
{
    if second.len() == 0 {
        assert(first + second =~= first);
    } else {
        assert((first + second).drop_last() =~= first + second.drop_last());
        assert((first + second).last() == second.last());
        lemma_after_events_concat(m, first, second.drop_last());
    }
}

/// However deep the calls go, the frames beneath are not touched: while
/// every event leaves at least `d` frames live, the `d` outermost frames stay
/// what they were, and so does every stack word from the link record of the
/// caller of the innermost of them upward.
pub proof fn lemma_outer_frames_survive(m: RuntimeView, events: Seq<Event>, d: nat)
    requires
        m.wf(),
        d <= depth(m),
        forall|j: int|
            0 <= j <= events.len() ==> ((#[trigger] after_events(m, events.take(j))) matches Some(
                n,
            ) && depth(n) >= d),
    ensures
        after_events(m, events) matches Some(n) && n.wf() && depth(n) >= d && outer_frames(n, d)
            == outer_frames(m, d) && n.stack.mem.len() == m.stack.mem.len() && unchanged_from(
            m,
            n,
            out_of_reach(m, d),
        ),
    decreases events.len(),
{
    assert(events.take(events.len() as int) =~= events);
    if events.len() > 0 {
        let before = events.drop_last();
        assert(before =~= events.take(events.len() - 1));
        assert forall|j: int| 0 <= j <= before.len() implies ((#[trigger] after_events(
            m,
            before.take(j),
        )) matches Some(n) && depth(n) >= d) by {
            assert(before.take(j) =~= events.take(j));
        }
        lemma_outer_frames_survive(m, before, d);
        let p = after_events(m, before).unwrap();
        let n = after_event(p, events.last()).unwrap();
        lemma_event_shape(p, events.last());
        lemma_reach_stops_short(p, d);
        match shape_of(p, n) {
            Shape::Pushed => {
                assert(outer_frames(n, d) =~= outer_frames(p, d));
            },
            Shape::Popped => {
                assert(outer_frames(n, d) =~= outer_frames(p, d));
            },
            Shape::Kept => {},
        }
    } else {
        assert(outer_frames(m, d) =~= outer_frames(m, d));
    }
}

/// With at least `d` frames live, neither the stack top nor the limit of the
/// negative slots lies beyond what is out of reach.
pub proof fn lemma_reach_stops_short(m: RuntimeView, d: nat)
    requires
        m.wf(),
        d <= depth(m),
    ensures
        m.stack.sp <= out_of_reach(m, d) <= m.stack.mem.len(),
        m.stack.limit() <= out_of_reach(m, d),
{
    lemma_frames_head(m.stack);
    if let Some(f) = m.stack.fp {
        lemma_limit_is_next_frame(m.stack);
        crate::runtime::stack::lemma_frames_lie_above(m.stack.mem, f);
        if d >= 2 {
            let at = depth(m) - d + 1;
            assert(outer_frames(m, d)[1] == m.stack.frames()[at]);
            if at > 1 {
                lemma_frames_ascend(m.stack.mem, f, 1, at);
            }
            lemma_frames_ascend(m.stack.mem, f, 0, at);
        }
    }
}

/// The lowest stack word that a callee of the active frame cannot touch: the
/// active frame's link record, or the end of the buffer where no frame is
/// active.
pub open spec fn caller_floor(m: RuntimeView) -> nat {
    match m.stack.fp {
        Some(f) => f,
        None => m.stack.mem.len(),
    }
}

/// A return gives the caller its frame back. Take any run of two or more
/// events that ends with as many live frames as it began with and has more
/// in between: it begins with a call and ends with the matching return,
/// whatever the callee did and called meanwhile. After it the frame pointer,
/// the stack top and the whole frame chain are what they were before the
/// call, and so is every stack word from the caller's link record upward:
/// the callee can have changed its caller's locals, and nothing beyond.
pub proof fn lemma_return_matches_call(m: RuntimeView, events: Seq<Event>)
    requires
        m.wf(),
        events.len() >= 2,
        stays_above(m, events, depth(m)),
        after_events(m, events) matches Some(n) && depth(n) == depth(m),
    ensures
        after_events(m, events).unwrap().wf(),
        after_events(m, events).unwrap().stack.fp == m.stack.fp,
        after_events(m, events).unwrap().stack.sp == m.stack.sp,
        after_events(m, events).unwrap().stack.frames() == m.stack.frames(),
        unchanged_from(m, after_events(m, events).unwrap(), caller_floor(m)),
{
    let d = depth(m);
    let len = events.len() as int;
    let first = events.take(1);
    let middle = events.subrange(1, len - 1);
    let last = events.subrange(len - 1, len);
    // the first event is a call
    assert(first.drop_last() =~= Seq::<Event>::empty());
    assert(after_events(m, first.drop_last()) == Some(m));
    let called = after_events(m, first).unwrap();
    assert(called == after_event(m, events[0]).unwrap());
    lemma_event_shape(m, events[0]);
    assert(depth(called) == d + 1);
    // what follows, up to the last event, stays above the caller's frames
    assert forall|j: int| 0 <= j <= middle.len() implies (#[trigger] after_events(
        called,
        middle.take(j),
    )) matches Some(n) && depth(n) >= d + 1 by {
        lemma_after_events_concat(m, first, middle.take(j));
        assert(first + middle.take(j) =~= events.take(j + 1));
    }
    lemma_outer_frames_survive(called, middle, d + 1);
    let inner = after_events(called, middle).unwrap();
    lemma_after_events_concat(m, first, middle);
    assert(first + middle =~= events.take(len - 1));
    assert(events.drop_last() =~= events.take(len - 1));
    // the last event is the matching return
    let back = after_event(inner, events.last()).unwrap();
    assert(after_events(m, events) == Some(back));
    lemma_event_shape(inner, events.last());
    assert(depth(inner) == d + 1);
    assert(outer_frames(inner, d + 1) =~= inner.stack.frames());
    assert(outer_frames(called, d + 1) =~= called.stack.frames());
    assert(called.stack.frames().drop_first() =~= m.stack.frames());
    lemma_frames_head(m.stack);
    lemma_frames_head(back.stack);
    if let Some(f) = m.stack.fp {
        assert(m.stack.frames()[0] == f);
        assert(back.stack.frames()[0] == back.stack.fp.unwrap());
    }
    // nothing on the way reached the caller's link record
    let floor = caller_floor(m);
    lemma_reach_stops_short(inner, d + 1);
    if d >= 1 {
        assert(outer_frames(called, d + 1)[1] == m.stack.frames()[0]);
        assert(outer_frames(inner, d + 1)[1] == m.stack.frames()[0]);
    }
    assert(out_of_reach(called, d + 1) == floor);
    assert(out_of_reach(inner, d + 1) == floor);
    assert forall|k: int| floor <= k < m.stack.mem.len() implies #[trigger] back.stack.mem[k]
        == m.stack.mem[k] by {
        assert(called.stack.mem[k] == m.stack.mem[k]);
        assert(inner.stack.mem[k] == called.stack.mem[k]);
        assert(back.stack.mem[k] == inner.stack.mem[k]);
    }
}

} // verus!

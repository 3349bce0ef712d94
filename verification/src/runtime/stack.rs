//! The value stack: one fixed buffer of words, addressed by slots relative to
//! the active call frame.
//!
//! ```text
//! higher indices
//! +-------------------------+
//! | caller's locals         |  <- slots -1, -2, .. of the callee
//! +=========================+
//! | return address          |
//! +-------------------------+
//! | caller's frame pointer  |  <- fp
//! +=========================+
//! | local 0                 |
//! +-------------------------+
//! | ...                     |
//! +-------------------------+
//! | local n - 1             |  <- sp
//! +-------------------------+
//! lower indices
//! ```
//!
//! The stack grows toward index zero. A call writes a two-word frame-link
//! record below the top and makes it the new frame; a return pops the frame
//! together with everything it reserved.

use vstd::prelude::*;
use crate::fault::Fault;
use crate::value::Value;

verus! {

/// The link word that says "no caller": the frame is the outermost one.
pub const NO_CALLER: u64 = 0xffff_ffff_ffff_ffff;

/// The link word for a caller's frame pointer.
pub open spec fn encode_link(fp: Option<nat>) -> u64 {
    match fp {
        None => NO_CALLER,
        Some(f) => f as u64,
    }
}

/// The caller's frame pointer that a link word stands for.
pub open spec fn decode_link(word: u64) -> Option<nat> {
    if word == NO_CALLER {
        None
    } else {
        Some(word as nat)
    }
}

/// The stack as a mathematical value.
pub struct StackView {
    /// Every word of the buffer, by index.
    pub mem: Seq<Value>,
    /// Index of the lowest reserved word; everything below is free.
    pub sp: nat,
    /// Index of the active frame's link record, if a frame is active.
    pub fp: Option<nat>,
}

impl StackView {
    /// The caller's frame pointer recorded in the frame at `f`.
    pub open spec fn caller_of(mem: Seq<Value>, f: nat) -> Option<nat> {
        decode_link(mem[f as int].bits)
    }

    /// The return address recorded in the frame at `f`.
    pub open spec fn return_address_of(mem: Seq<Value>, f: nat) -> u64 {
        mem[f as int + 1].bits
    }

    /// What is left to walk above `fp`; the measure by which the frame chain
    /// is known to end.
    pub open spec fn room_above(mem: Seq<Value>, fp: Option<nat>) -> nat {
        match fp {
            Some(f) if f <= mem.len() => (mem.len() - f) as nat,
            _ => 0,
        }
    }

    /// Every frame from `fp` outward has its link record inside the buffer and
    /// lies strictly below its caller, with room for the record in between.
    pub open spec fn chain_ok(mem: Seq<Value>, fp: Option<nat>) -> bool
        decreases Self::room_above(mem, fp),
    {
        match fp {
            None => true,
            Some(f) => f + 2 <= mem.len() && match Self::caller_of(mem, f) {
                None => true,
                Some(c) => f + 2 <= c && Self::chain_ok(mem, Some(c)),
            },
        }
    }

    /// The frame pointers of the active frames, innermost first.
    pub open spec fn frames_from(mem: Seq<Value>, fp: Option<nat>) -> Seq<nat>
        decreases Self::room_above(mem, fp),
    {
        match fp {
            None => Seq::empty(),
            Some(f) => if f + 2 <= mem.len() {
                match Self::caller_of(mem, f) {
                    Some(c) if f + 2 <= c => seq![f] + Self::frames_from(mem, Some(c)),
                    _ => seq![f],
                }
            } else {
                Seq::empty()
            },
        }
    }

    /// The frame pointers of the active frames, innermost first.
    pub open spec fn frames(self) -> Seq<nat> {
        Self::frames_from(self.mem, self.fp)
    }

    /// The stack's invariant: the top lies inside the buffer and not above the
    /// active frame, and the frame chain is sound.
    pub open spec fn wf(self) -> bool {
        &&& self.mem.len() <= usize::MAX
        &&& self.sp <= self.mem.len()
        &&& (self.fp matches Some(f) ==> self.sp <= f)
        &&& Self::chain_ok(self.mem, self.fp)
    }

    /// How many local slots the active frame has reserved.
    pub open spec fn locals(self) -> nat {
        match self.fp {
            Some(f) if self.sp <= f => (f - self.sp) as nat,
            _ => 0,
        }
    }

    /// One past the highest index that a negative slot may reach: the
    /// caller's frame pointer, or the end of the buffer for the outermost
    /// frame.
    pub open spec fn limit(self) -> nat {
        match self.fp {
            Some(f) => match Self::caller_of(self.mem, f) {
                Some(c) => c,
                None => self.mem.len(),
            },
            None => self.mem.len(),
        }
    }

    /// The buffer index that `slot` names, if the active frame may touch it.
    ///
    /// Slot `s >= 0` is the local at `fp - 1 - s`, valid below the frame's
    /// reservation. Slot `s < 0` is the word at `fp + 1 - s`, in the caller's
    /// locals just above the link record.
    pub open spec fn slot_index(self, slot: i16) -> Option<nat> {
        match self.fp {
            None => None,
            Some(f) => if slot >= 0 {
                if self.sp + slot < f {
                    Some((f - 1 - slot) as nat)
                } else {
                    None
                }
            } else {
                if f + 1 - slot < self.limit() {
                    Some((f + 1 - slot) as nat)
                } else {
                    None
                }
            },
        }
    }

    /// Reserving `n` more words below the top.
    pub open spec fn reserve(self, n: nat) -> Result<StackView, Fault> {
        if n <= self.sp {
            Ok(StackView { sp: (self.sp - n) as nat, ..self })
        } else {
            Err(Fault::StackOverflow)
        }
    }

    /// Reading a slot.
    pub open spec fn load(self, slot: i16) -> Result<Value, Fault> {
        match self.slot_index(slot) {
            Some(i) => Ok(self.mem[i as int]),
            None => Err(Fault::InvalidSlot),
        }
    }

    /// Writing a slot.
    pub open spec fn store(self, slot: i16, value: Value) -> Result<StackView, Fault> {
        match self.slot_index(slot) {
            Some(i) => Ok(StackView { mem: self.mem.update(i as int, value), ..self }),
            None => Err(Fault::InvalidSlot),
        }
    }

    /// Pushing a frame: the link record goes into the two words below the top
    /// and becomes the active frame, with nothing reserved yet.
    pub open spec fn push_frame(self, ra: u64) -> Result<StackView, Fault> {
        if 2 <= self.sp {
            let f = (self.sp - 2) as nat;
            Ok(
                StackView {
                    mem: self.mem.update(f as int, Value { bits: encode_link(self.fp) }).update(
                        f as int + 1,
                        Value { bits: ra },
                    ),
                    sp: f,
                    fp: Some(f),
                },
            )
        } else {
            Err(Fault::StackOverflow)
        }
    }

    /// Popping the active frame: the caller's frame becomes active again, the
    /// top goes back to where it was before the call, and the recorded return
    /// address comes out.
    pub open spec fn return_call(self) -> Result<(StackView, u64), Fault> {
        match self.fp {
            None => Err(Fault::NoFrame),
            Some(f) => Ok(
                (
                    StackView { mem: self.mem, sp: f + 2, fp: Self::caller_of(self.mem, f) },
                    Self::return_address_of(self.mem, f),
                ),
            ),
        }
    }
}

/// A frame-link record as a call writes it: two stack words, the caller's
/// frame pointer below the return address.
#[derive(Clone, Copy, PartialEq, Eq, Structural, Debug)]
pub struct StackFrame {
    /// Caller frame; `None` for the outermost frame.
    pub fp: Option<usize>,
    /// Return address
    pub ra: u64,
}

/// The value stack.
pub struct Stack {
    mem: Vec<Value>,
    sp: usize,
    fp: Option<usize>,
}

impl View for Stack {
    type V = StackView;

    closed spec fn view(&self) -> StackView {
        StackView {
            mem: self.mem@,
            sp: self.sp as nat,
            fp: match self.fp {
                Some(f) => Some(f as nat),
                None => None,
            },
        }
    }
}

impl Stack {
    /// The stack's invariant, which `new` establishes and every method keeps.
    pub open spec fn wf(&self) -> bool {
        self@.wf()
    }

    /// A stack of `size` zeroed words with nothing reserved and no frame.
    pub fn new(size: usize) -> (s: Stack)
        ensures
            s.wf(),
            s@.mem == Seq::new(size as nat, |i: int| Value { bits: 0 }),
            s@.sp == size,
            s@.fp.is_none(),
    {
        let mem = vec![Value::zero(); size];
        assert(mem@ =~= Seq::new(size as nat, |i: int| Value { bits: 0 }));
        Stack { mem, sp: size, fp: None }
    }

    /// The number of words in the buffer.
    pub fn capacity(&self) -> (n: usize)
        ensures
            n == self@.mem.len(),
    {
        self.mem.len()
    }

    /// Index of the lowest reserved word.
    pub fn sp(&self) -> (sp: usize)
        ensures
            sp == self@.sp,
    {
        self.sp
    }

    /// Index of the active frame's link record, if a frame is active.
    pub fn fp(&self) -> (fp: Option<usize>)
        ensures
            fp.is_some() == self@.fp.is_some(),
            fp matches Some(f) ==> self@.fp == Some(f as nat),
    {
        self.fp
    }

    /// The word at a buffer index, whatever frame it belongs to.
    pub fn peek(&self, index: usize) -> (r: Option<Value>)
        ensures
            r == if index < self@.mem.len() {
                Some(self@.mem[index as int])
            } else {
                None
            },
    {
        if index < self.mem.len() {
            Some(self.mem[index])
        } else {
            None
        }
    }

    /// Reserves `n` more local slots below the top.
    pub fn reserve(&mut self, n: usize) -> (r: Result<(), Fault>)
        requires
            old(self).wf(),
        ensures
            final(self).wf(),
            match old(self)@.reserve(n as nat) {
                Ok(s) => r.is_ok() && final(self)@ == s,
                Err(e) => r == Err::<(), Fault>(e) && final(self)@ == old(self)@,
            },
    {
        if n <= self.sp {
            self.sp = self.sp - n;
            Ok(())
        } else {
            Err(Fault::StackOverflow)
        }
    }

    /// The caller's frame pointer recorded in the frame at `f`.
    fn caller_at(&self, f: usize) -> (c: Option<usize>)
        requires
            self.wf(),
            StackView::chain_ok(self@.mem, Some(f as nat)),
        ensures
            c.is_some() == StackView::caller_of(self@.mem, f as nat).is_some(),
            c matches Some(i) ==> StackView::caller_of(self@.mem, f as nat) == Some(i as nat) && f
                + 2 <= i && i + 2 <= self@.mem.len(),
    {
        let word: u64 = self.mem[f].bits;
        if word == NO_CALLER {
            None
        } else {
            assert(StackView::chain_ok(self@.mem, Some(word as nat)));
            Some(word as usize)
        }
    }

    /// The buffer index that `slot` names, if the active frame may touch it.
    fn index_of(&self, slot: i16) -> (r: Option<usize>)
        requires
            self.wf(),
        ensures
            r.is_some() == self@.slot_index(slot).is_some(),
            r matches Some(i) ==> self@.slot_index(slot) == Some(i as nat) && i < self@.mem.len(),
    {
        match self.fp {
            None => None,
            Some(f) => {
                if slot >= 0 {
                    let k: usize = slot as usize;
                    if k < f - self.sp {
                        Some(f - 1 - k)
                    } else {
                        None
                    }
                } else {
                    let k: usize = (-(slot as i32)) as usize;
                    let limit: usize = match self.caller_at(f) {
                        Some(c) => c,
                        None => self.mem.len(),
                    };
                    if k < limit - f - 1 {
                        Some(f + 1 + k)
                    } else {
                        None
                    }
                }
            },
        }
    }

    /// The link record of the active frame, if a frame is active.
    pub fn frame(&self) -> (r: Option<StackFrame>)
        requires
            self.wf(),
        ensures
            r.is_some() == self@.fp.is_some(),
            r matches Some(record) ==> {
                &&& record.ra == StackView::return_address_of(self@.mem, self@.fp.unwrap())
                &&& record.fp.is_some() == StackView::caller_of(
                    self@.mem,
                    self@.fp.unwrap(),
                ).is_some()
                &&& record.fp matches Some(c) ==> StackView::caller_of(
                    self@.mem,
                    self@.fp.unwrap(),
                ) == Some(c as nat)
            },
    {
        match self.fp {
            None => None,
            Some(f) => Some(StackFrame { fp: self.caller_at(f), ra: self.mem[f + 1].bits }),
        }
    }

    /// Whether the active frame may touch `slot`.
    pub fn has_slot(&self, slot: i16) -> (ok: bool)
        requires
            self.wf(),
        ensures
            ok == self@.slot_index(slot).is_some(),
    {
        self.index_of(slot).is_some()
    }

    /// Loads the value at the given slot.
    pub fn load(&self, slot: i16) -> (r: Result<Value, Fault>)
        requires
            self.wf(),
        ensures
            r == self@.load(slot),
    {
        match self.index_of(slot) {
            Some(i) => Ok(self.mem[i]),
            None => Err(Fault::InvalidSlot),
        }
    }

    /// Stores a value at the given slot.
    pub fn store(&mut self, slot: i16, value: Value) -> (r: Result<(), Fault>)
        requires
            old(self).wf(),
        ensures
            final(self).wf(),
            match old(self)@.store(slot, value) {
                Ok(s) => r.is_ok() && final(self)@ == s,
                Err(e) => r == Err::<(), Fault>(e) && final(self)@ == old(self)@,
            },
    {
        match self.index_of(slot) {
            Some(i) => {
                proof {
                    lemma_store_keeps_chain(self@, slot, value);
                }
                self.mem.set(i, value);
                Ok(())
            },
            None => Err(Fault::InvalidSlot),
        }
    }

    /// Pushes a new frame that records `ra` as its return address.
    pub fn push_frame(&mut self, ra: u64) -> (r: Result<(), Fault>)
        requires
            old(self).wf(),
        ensures
            final(self).wf(),
            match old(self)@.push_frame(ra) {
                Ok(s) => r.is_ok() && final(self)@ == s,
                Err(e) => r == Err::<(), Fault>(e) && final(self)@ == old(self)@,
            },
    {
        if self.sp < 2 {
            return Err(Fault::StackOverflow);
        }
        proof {
            lemma_push_frame_wf(self@, ra);
        }
        let f: usize = self.sp - 2;
        let link: u64 = match self.fp {
            Some(c) => c as u64,
            None => NO_CALLER,
        };
        self.mem.set(f, Value { bits: link });
        self.mem.set(f + 1, Value { bits: ra });
        self.sp = f;
        self.fp = Some(f);
        Ok(())
    }

    /// Pops the active frame and returns the return address it recorded.
    pub fn return_call(&mut self) -> (r: Result<u64, Fault>)
        requires
            old(self).wf(),
        ensures
            final(self).wf(),
            match old(self)@.return_call() {
                Ok((s, ra)) => r == Ok::<u64, Fault>(ra) && final(self)@ == s,
                Err(e) => r == Err::<u64, Fault>(e) && final(self)@ == old(self)@,
            },
    {
        match self.fp {
            None => Err(Fault::NoFrame),
            Some(f) => {
                let caller = self.caller_at(f);
                let ra: u64 = self.mem[f + 1].bits;
                self.sp = f + 2;
                self.fp = caller;
                Ok(ra)
            },
        }
    }
}

/// A write below a frame pointer leaves the chain from that frame outward as
/// it was.
pub proof fn lemma_chain_above_write(mem: Seq<Value>, fp: Option<nat>, i: nat, value: Value)
    requires
        StackView::chain_ok(mem, fp),
        i < mem.len(),
        fp matches Some(f) ==> i < f,
    ensures
        StackView::chain_ok(mem.update(i as int, value), fp),
        StackView::frames_from(mem.update(i as int, value), fp) == StackView::frames_from(mem, fp),
    decreases StackView::room_above(mem, fp),
{
    if let Some(f) = fp {
        if let Some(c) = StackView::caller_of(mem, f) {
            lemma_chain_above_write(mem, Some(c), i, value);
        }
    }
}

/// A slot that the active frame may touch lies inside the buffer and is no
/// word of the frame's link record: a local lies below the record, a negative
/// slot above it and below the caller's record.
pub proof fn lemma_slot_index_bounds(s: StackView, slot: i16)
    requires
        s.wf(),
        s.slot_index(slot) is Some,
    ensures
        s.fp is Some,
        s.slot_index(slot).unwrap() < s.mem.len(),
        slot >= 0 ==> s.sp <= s.slot_index(slot).unwrap() < s.fp.unwrap(),
        slot < 0 ==> s.fp.unwrap() + 2 <= s.slot_index(slot).unwrap() < s.limit() <= s.mem.len(),
{
    let f = s.fp.unwrap();
    if let Some(c) = StackView::caller_of(s.mem, f) {
        assert(StackView::chain_ok(s.mem, Some(c)));
    }
}

/// A store that the active frame may make touches no link record: the frame
/// chain is the same afterwards, and so is the stack's invariant.
pub proof fn lemma_store_keeps_chain(s: StackView, slot: i16, value: Value)
    requires
        s.wf(),
        s.store(slot, value) is Ok,
    ensures
        s.store(slot, value).unwrap().wf(),
        s.store(slot, value).unwrap().frames() == s.frames(),
        s.store(slot, value).unwrap().limit() == s.limit(),
        forall|other: i16|
            s.store(slot, value).unwrap().slot_index(other) == #[trigger] s.slot_index(other),
{
    lemma_slot_index_bounds(s, slot);
    let f = s.fp.unwrap();
    let i = s.slot_index(slot).unwrap();
    let after = s.mem.update(i as int, value);
    if i < f {
        lemma_chain_above_write(s.mem, s.fp, i, value);
    } else {
        if let Some(c) = StackView::caller_of(s.mem, f) {
            assert(StackView::chain_ok(s.mem, Some(c)));
            lemma_chain_above_write(s.mem, Some(c), i, value);
        }
        assert(StackView::caller_of(after, f) == StackView::caller_of(s.mem, f));
        assert(StackView::chain_ok(after, Some(f)));
    }
}

/// Every frame of the chain from `fp` outward lies at `fp` or above it, with
/// its link record inside the buffer.
pub proof fn lemma_frames_lie_above(mem: Seq<Value>, f: nat)
    requires
        StackView::chain_ok(mem, Some(f)),
    ensures
        StackView::frames_from(mem, Some(f)).len() > 0,
        StackView::frames_from(mem, Some(f))[0] == f,
        forall|j: int|
            0 <= j < StackView::frames_from(mem, Some(f)).len() ==> f <= (
            #[trigger] StackView::frames_from(mem, Some(f))[j]) && StackView::frames_from(
                mem,
                Some(f),
            )[j] + 2 <= mem.len(),
    decreases StackView::room_above(mem, Some(f)),
{
    if let Some(c) = StackView::caller_of(mem, f) {
        lemma_frames_lie_above(mem, c);
        let rest = StackView::frames_from(mem, Some(c));
        assert forall|j: int| 0 <= j < (seq![f] + rest).len() implies f <= (#[trigger] (seq![f]
            + rest)[j]) && (seq![f] + rest)[j] + 2 <= mem.len() by {
            if j > 0 {
                assert((seq![f] + rest)[j] == rest[j - 1]);
            }
        }
    }
}

/// The frame chain climbs: each frame lies below the frames that follow it
/// in the chain, with room for its link record.
pub proof fn lemma_frames_ascend(mem: Seq<Value>, f: nat, i: int, j: int)
    requires
        StackView::chain_ok(mem, Some(f)),
        0 <= i < j < StackView::frames_from(mem, Some(f)).len(),
    ensures
        StackView::frames_from(mem, Some(f))[i] + 2 <= StackView::frames_from(mem, Some(f))[j],
    decreases StackView::room_above(mem, Some(f)),
{
    lemma_frames_lie_above(mem, f);
    let c = StackView::caller_of(mem, f).unwrap();
    let rest = StackView::frames_from(mem, Some(c));
    lemma_frames_lie_above(mem, c);
    assert(StackView::frames_from(mem, Some(f))[j] == rest[j - 1]);
    if i > 0 {
        assert(StackView::frames_from(mem, Some(f))[i] == rest[i - 1]);
        lemma_frames_ascend(mem, c, i - 1, j - 1);
    }
}

/// The limit of the negative slots is the second frame of the chain, or the
/// end of the buffer where the active frame is the only one.
pub proof fn lemma_limit_is_next_frame(s: StackView)
    requires
        s.wf(),
        s.fp is Some,
    ensures
        s.frames().len() >= 1,
        s.frames()[0] == s.fp.unwrap(),
        s.limit() == if s.frames().len() >= 2 {
            s.frames()[1]
        } else {
            s.mem.len()
        },
        s.fp.unwrap() + 2 <= s.limit() <= s.mem.len(),
{
    let f = s.fp.unwrap();
    lemma_frames_lie_above(s.mem, f);
    if let Some(c) = StackView::caller_of(s.mem, f) {
        lemma_frames_lie_above(s.mem, c);
        assert(s.frames()[1] == StackView::frames_from(s.mem, Some(c))[0]);
    }
}

/// A store that the active frame may make leaves every return address on
/// record as it was.
pub proof fn lemma_store_keeps_records(s: StackView, slot: i16, value: Value)
    requires
        s.wf(),
        s.store(slot, value) is Ok,
    ensures
        forall|j: int|
            0 <= j < s.frames().len() ==> StackView::return_address_of(
                s.store(slot, value).unwrap().mem,
                #[trigger] s.frames()[j],
            ) == StackView::return_address_of(s.mem, s.frames()[j]),
{
    lemma_slot_index_bounds(s, slot);
    let f = s.fp.unwrap();
    let i = s.slot_index(slot).unwrap();
    lemma_frames_lie_above(s.mem, f);
    if slot < 0 {
        if let Some(c) = StackView::caller_of(s.mem, f) {
            lemma_frames_lie_above(s.mem, c);
            let rest = StackView::frames_from(s.mem, Some(c));
            assert forall|j: int| 0 <= j < s.frames().len() implies (#[trigger] s.frames()[j])
                + 1 != i by {
                if j > 0 {
                    assert(s.frames()[j] == rest[j - 1]);
                }
            }
        } else {
            assert(s.frames() =~= seq![f]);
        }
    }
}

/// Pushing a frame records its return address and leaves every return
/// address that was on record as it was.
pub proof fn lemma_push_keeps_records(s: StackView, ra: u64)
    requires
        s.wf(),
        s.push_frame(ra) is Ok,
    ensures
        StackView::return_address_of(s.push_frame(ra).unwrap().mem, (s.sp - 2) as nat) == ra,
        forall|j: int|
            0 <= j < s.frames().len() ==> StackView::return_address_of(
                s.push_frame(ra).unwrap().mem,
                #[trigger] s.frames()[j],
            ) == StackView::return_address_of(s.mem, s.frames()[j]),
{
    if let Some(f) = s.fp {
        lemma_frames_lie_above(s.mem, f);
    }
}

/// Pushing a frame keeps the invariant and puts exactly one frame in front of
/// the chain.
pub proof fn lemma_push_frame_wf(s: StackView, ra: u64)
    requires
        s.wf(),
        s.push_frame(ra) is Ok,
    ensures
        s.push_frame(ra).unwrap().wf(),
        s.push_frame(ra).unwrap().frames() == seq![(s.sp - 2) as nat] + s.frames(),
{
    let f = (s.sp - 2) as nat;
    let link = Value { bits: encode_link(s.fp) };
    let m1 = s.mem.update(f as int, link);
    let m2 = m1.update(f as int + 1, Value { bits: ra });
    lemma_chain_above_write(s.mem, s.fp, f, link);
    lemma_chain_above_write(m1, s.fp, f + 1, Value { bits: ra });
    assert(StackView::caller_of(m2, f) == s.fp);
}

} // verus!

//! The debugger: an interpreter that can be stepped, paused at breakpoints
//! and resumed, and that keeps a shadow record of the live call frames.

use std::collections::HashMap;
use std::time::{Duration, Instant};
use vstd::prelude::*;
use crate::fault::Fault;
use crate::opcodes::Instruction;
use crate::runtime::{Effect, Runtime, RuntimeView};
use crate::runtime::steps::{lemma_apply_frames, lemma_decode_next};
use crate::runtime::proc::{
    NULL_PC,
    address_offset,
    address_proc,
    code_address,
    is_code_address,
    lemma_address_parts,
    lemma_code_address,
    make_address,
    split_address,
};
use crate::runtime::stack::StackView;
use crate::value::Value;

verus! {

broadcast use vstd::std_specs::hash::group_hash_axioms;

/// How many instructions `resume_with_timeout` runs between two looks at the
/// clock.
pub const ITERS_PER_CHECK: u64 = 255;

/// A registered place in the code at which execution pauses.
#[derive(Clone, Copy, PartialEq, Eq, Structural, Debug)]
pub struct Breakpoint {
    /// The table index of the procedure that the breakpoint stands in.
    pub proc: u32,
}

impl Breakpoint {
    /// A breakpoint in procedure number `proc`.
    pub fn new(proc: u32) -> (b: Breakpoint)
        ensures
            b.proc == proc,
    {
        Breakpoint { proc }
    }
}

/// What the debugger records of one live call frame.
#[derive(Clone, Copy, PartialEq, Eq, Structural, Debug)]
pub struct CallFrameInfo {
    /// The table index of the procedure that runs in the frame.
    pub proc: u32,
    /// The stack index of the frame's link record.
    pub fp: usize,
    /// How many local slots the frame has reserved.
    pub size: usize,
}

impl CallFrameInfo {
    /// The record of a frame that has reserved nothing yet.
    pub fn new(proc: u32, fp: usize) -> (info: CallFrameInfo)
        ensures
            info == (CallFrameInfo { proc, fp, size: 0 }),
    {
        CallFrameInfo { proc, fp, size: 0 }
    }
}

/// Why the debugger handed control back.
#[derive(Clone, Copy, PartialEq, Eq, Structural, Debug)]
pub enum Pause {
    /// The program counter reached this registered breakpoint; the
    /// instruction there has not run.
    Breakpoint(Breakpoint),
    /// The paused flag was found set: a `BREAKPOINT` instruction ran.
    Requested,
    /// The program has halted.
    Finished,
    /// The last step left this for the host to do.
    Effect(Effect),
    /// The step budget is used up.
    StepLimit,
    /// The deadline has passed.
    TimedOut,
}

impl Pause {
    /// The breakpoint that was reached, if one was.
    pub fn breakpoint(&self) -> (b: Option<Breakpoint>)
        ensures
            b == match *self {
                Pause::Breakpoint(bp) => Some(bp),
                _ => None,
            },
    {
        match self {
            Pause::Breakpoint(bp) => Some(*bp),
            _ => None,
        }
    }
}

/// How many local slots frame number `j` has reserved, counting frames from
/// the innermost: the distance from its link record down to the stack top or
/// to the link record of the frame it called.
pub open spec fn frame_size(stack: StackView, j: int) -> int {
    if j == 0 {
        stack.frames()[0] - stack.sp
    } else {
        stack.frames()[j] - stack.frames()[j - 1] - 2
    }
}

/// The shadow call stack agrees with the stack: it has one entry for each
/// live frame, outermost first, with that frame's pointer and reservation.
pub open spec fn shadows(callstack: Seq<CallFrameInfo>, stack: StackView) -> bool {
    &&& callstack.len() == stack.frames().len()
    &&& forall|i: int|
        0 <= i < callstack.len() ==> {
            &&& (#[trigger] callstack[i]).fp == stack.frames()[callstack.len() - 1 - i]
            &&& callstack[i].size == frame_size(stack, callstack.len() - 1 - i)
        }
}

/// The shadow call stack names the right procedures: the program counter,
/// unless it is null, stands in the procedure of the innermost entry, and
/// the return address on record in each frame stands in the procedure of the
/// entry beneath.
pub open spec fn names_procs(callstack: Seq<CallFrameInfo>, rt: RuntimeView) -> bool {
    &&& callstack.len() > 0 && rt.pc != NULL_PC ==> is_code_address(rt.pc) && address_proc(rt.pc)
        == callstack.last().proc
    &&& forall|i: int|
        0 <= i < callstack.len() - 1 ==> is_code_address(#[trigger] return_into(rt.stack, i))
            && address_proc(return_into(rt.stack, i)) == callstack[i].proc
}

/// The return address on record in the frame that frame number `i` called,
/// counting frames from the outermost: where frame `i` goes on when its
/// callee returns.
pub open spec fn return_into(stack: StackView, i: int) -> u64 {
    StackView::return_address_of(stack.mem, stack.frames()[stack.frames().len() - 2 - i])
}

/// The debugger as a mathematical value.
pub struct DebuggerView {
    pub runtime: RuntimeView,
    /// The registered breakpoints, by code address.
    pub breakpoints: Map<u64, Breakpoint>,
    /// The shadow call stack, outermost frame first.
    pub callstack: Seq<CallFrameInfo>,
    pub paused: bool,
    pub finished: bool,
}

impl DebuggerView {
    /// The debugger's invariant: that of the machine; the shadow call stack
    /// agrees with the stack and names the right procedures; and a halted
    /// machine is a finished program.
    pub open spec fn wf(self) -> bool {
        &&& self.runtime.wf()
        &&& shadows(self.callstack, self.runtime.stack)
        &&& names_procs(self.callstack, self.runtime)
        &&& self.runtime.pc == NULL_PC ==> self.finished
    }

    /// The shadow call stack after instruction `i` has taken the machine to
    /// `after`.
    pub open spec fn tracked_frames(self, i: Instruction, after: RuntimeView) -> Seq<
        CallFrameInfo,
    > {
        match i {
            Instruction::Alloc { size } => if self.callstack.len() > 0 {
                self.callstack.update(
                    self.callstack.len() - 1,
                    CallFrameInfo {
                        size: (self.callstack.last().size + size) as usize,
                        ..self.callstack.last()
                    },
                )
            } else {
                self.callstack
            },
            Instruction::Call { .. } | Instruction::CallDynamic { .. } => self.callstack.push(
                CallFrameInfo {
                    proc: address_proc(after.pc) as u32,
                    fp: after.stack.fp.unwrap() as usize,
                    size: 0,
                },
            ),
            Instruction::Return => if self.callstack.len() > 0 {
                self.callstack.drop_last()
            } else {
                self.callstack
            },
            _ => self.callstack,
        }
    }

    /// The debugger after instruction `i` has taken the machine to `after`:
    /// the shadow call stack follows reservations, calls and returns, a
    /// `BREAKPOINT` sets the paused flag, and an instruction that leaves the
    /// machine halted finishes the program.
    pub open spec fn track(self, i: Instruction, after: RuntimeView) -> DebuggerView {
        DebuggerView {
            runtime: after,
            callstack: self.tracked_frames(i, after),
            paused: self.paused || i is Breakpoint,
            finished: self.finished || after.pc == NULL_PC,
            ..self
        }
    }

    /// What the instruction with this opcode does, the program counter
    /// standing at its operand record: to the machine what it does without a
    /// debugger, and the bookkeeping besides.
    pub open spec fn execute(self, opcode: u8) -> Result<(DebuggerView, Option<Effect>), Fault> {
        if self.finished {
            Err(Fault::AlreadyFinished)
        } else {
            match self.runtime.decode(opcode) {
                Err(e) => Err(e),
                Ok((i, next)) => match self.runtime.perform(i, next) {
                    Err(e) => Err(e),
                    Ok((after, effect)) => Ok((self.track(i, after), effect)),
                },
            }
        }
    }

    /// One whole instruction.
    pub open spec fn step(self) -> Result<(DebuggerView, Option<Effect>), Fault> {
        if self.finished {
            Err(Fault::AlreadyFinished)
        } else {
            match self.runtime.fetch() {
                Err(e) => Err(e),
                Ok((m, opcode)) => (DebuggerView { runtime: m, ..self }).execute(opcode),
            }
        }
    }

    /// Stepping until something stops it. Before each instruction, in this
    /// order: a set paused flag stops it; a halted machine finishes it; a
    /// breakpoint registered at the program counter pauses it; a used-up
    /// budget stops it. Then the instruction runs, and a fault or something
    /// left for the host stops it.
    #[verifier::opaque]
    pub open spec fn cruise(self, fuel: nat) -> (DebuggerView, Result<Pause, Fault>)
        decreases fuel,
    {
        if self.paused {
            (self, Ok(Pause::Requested))
        } else if self.runtime.pc == NULL_PC {
            (DebuggerView { finished: true, ..self }, Ok(Pause::Finished))
        } else if self.breakpoints.contains_key(self.runtime.pc) {
            (
                DebuggerView { paused: true, ..self },
                Ok(Pause::Breakpoint(self.breakpoints[self.runtime.pc])),
            )
        } else if fuel == 0 {
            (self, Ok(Pause::StepLimit))
        } else {
            match self.step() {
                Err(e) => (self, Err(e)),
                Ok((d, Some(effect))) => (d, Ok(Pause::Effect(effect))),
                Ok((d, None)) => d.cruise((fuel - 1) as nat),
            }
        }
    }

    /// Resuming: the paused flag is cleared, one instruction runs
    /// unconditionally if `skip_first` says so, and then the debugger steps
    /// until something stops it.
    pub open spec fn resume(self, skip_first: bool, fuel: nat) -> (
        DebuggerView,
        Result<Pause, Fault>,
    ) {
        let cleared = DebuggerView { paused: false, ..self };
        if self.finished {
            (self, Err(Fault::AlreadyFinished))
        } else if skip_first {
            match cleared.step() {
                Err(e) => (cleared, Err(e)),
                Ok((d, Some(effect))) => (d, Ok(Pause::Effect(effect))),
                Ok((d, None)) => d.cruise(fuel),
            }
        } else {
            cleared.cruise(fuel)
        }
    }

    /// Whether `after` and `r` report the outcome `plain` of a run on a
    /// budget, the used-up budget being reported either as such or as a
    /// passed deadline.
    pub open spec fn reports(
        plain: (DebuggerView, Result<Pause, Fault>),
        after: DebuggerView,
        r: Result<Pause, Fault>,
    ) -> bool {
        &&& after == plain.0
        &&& if plain.1 == Ok::<Pause, Fault>(Pause::StepLimit) {
            r == Ok::<Pause, Fault>(Pause::StepLimit) || r == Ok::<Pause, Fault>(Pause::TimedOut)
        } else {
            r == plain.1
        }
    }

    /// Whether `after` and `r` are what stepping for `batches` batches of
    /// `ITERS_PER_CHECK` instructions comes to.
    pub open spec fn cruised_in_batches(
        self,
        batches: nat,
        after: DebuggerView,
        r: Result<Pause, Fault>,
    ) -> bool {
        Self::reports(self.cruise(ITERS_PER_CHECK as nat * batches), after, r)
    }

    /// Whether `after` and `r` are what resuming for `batches` batches of
    /// `ITERS_PER_CHECK` instructions comes to.
    pub open spec fn resumed_in_batches(
        self,
        skip_first: bool,
        batches: nat,
        after: DebuggerView,
        r: Result<Pause, Fault>,
    ) -> bool {
        Self::reports(self.resume(skip_first, ITERS_PER_CHECK as nat * batches), after, r)
    }
}

/// Stepping on a budget of `a + b` is stepping on a budget of `a` and, where
/// only the budget stopped that, stepping on with a budget of `b`.
pub proof fn lemma_cruise_split(d: DebuggerView, a: nat, b: nat)
    ensures
        d.cruise(a + b) == if d.cruise(a).1 == Ok::<Pause, Fault>(Pause::StepLimit) {
            d.cruise(a).0.cruise(b)
        } else {
            d.cruise(a)
        },
    decreases a,
{
    reveal(DebuggerView::cruise);
    if d.paused || d.runtime.pc == NULL_PC || d.breakpoints.contains_key(d.runtime.pc) {
    } else if a == 0 {
    } else {
        match d.step() {
            Ok((next, None)) => {
                lemma_cruise_split(next, (a - 1) as nat, b);
                assert(d.cruise(a + b) == next.cruise((a - 1 + b) as nat));
            },
            _ => {},
        }
    }
}

/// Bookkeeping keeps the invariant: where the debugger's invariant holds and
/// the instruction decoded at the program counter takes the machine on, the
/// shadow call stack that the debugger derives agrees with the stack again
/// and names the right procedures.
pub proof fn lemma_track_wf(d: DebuggerView, opcode: u8)
    requires
        d.wf(),
        d.runtime.execute(opcode) is Ok,
    ensures
        ({
            let (i, next) = d.runtime.decode(opcode).unwrap();
            let after = d.runtime.perform(i, next).unwrap().0;
            &&& d.track(i, after).wf()
            &&& i matches Instruction::Alloc { size } ==> d.callstack.len() > 0
                ==> d.callstack.last().size + size <= usize::MAX
            &&& (i is Call || i is CallDynamic) ==> after.stack.fp is Some && is_code_address(
                after.pc,
            )
        }),
{
    let (i, next) = d.runtime.decode(opcode).unwrap();
    let before = d.runtime.at(next);
    let after = before.apply(i).unwrap().0;
    lemma_decode_next(d.runtime, opcode);
    lemma_address_parts(d.runtime.pc);
    lemma_code_address(
        address_proc(d.runtime.pc),
        address_offset(d.runtime.pc) + i.operands().len(),
    );
    assert(is_code_address(next) && address_proc(next) == address_proc(d.runtime.pc));
    lemma_apply_frames(before, i);
    let old_frames = before.stack.frames();
    let new_frames = after.stack.frames();
    let old_cs = d.callstack;
    let new_cs = d.tracked_frames(i, after);
    let n = old_cs.len() as int;
    crate::runtime::calls::lemma_frames_head(before.stack);
    match i {
        Instruction::Call { .. } | Instruction::CallDynamic { .. } => {
            assert forall|k: int| 0 <= k < new_cs.len() implies {
                &&& (#[trigger] new_cs[k]).fp == new_frames[new_cs.len() - 1 - k]
                &&& new_cs[k].size == frame_size(after.stack, new_cs.len() - 1 - k)
            } by {
                if k < n {
                    assert(old_cs[k].fp == old_frames[n - 1 - k]);
                    assert(new_frames[n - k] == old_frames[n - 1 - k]);
                    if k < n - 1 {
                        assert(new_frames[n - k - 1] == old_frames[n - 2 - k]);
                    }
                }
            }
            assert forall|k: int| 0 <= k < new_cs.len() - 1 implies is_code_address(
                #[trigger] return_into(after.stack, k),
            ) && address_proc(return_into(after.stack, k)) == new_cs[k].proc by {
                assert(new_cs[k] == old_cs[k]);
                if k < n - 1 {
                    assert(new_frames[n - 1 - k] == old_frames[n - 2 - k]);
                    assert(return_into(after.stack, k) == return_into(before.stack, k));
                }
            }
        },
        Instruction::Return => {
            if n > 0 {
                assert forall|k: int| 0 <= k < new_cs.len() implies {
                    &&& (#[trigger] new_cs[k]).fp == new_frames[new_cs.len() - 1 - k]
                    &&& new_cs[k].size == frame_size(after.stack, new_cs.len() - 1 - k)
                } by {
                    assert(old_cs[k].fp == old_frames[n - 1 - k]);
                    assert(new_frames[n - 2 - k] == old_frames[n - 1 - k]);
                    if k < n - 2 {
                        assert(new_frames[n - 3 - k] == old_frames[n - 2 - k]);
                    }
                }
                assert forall|k: int| 0 <= k < new_cs.len() - 1 implies is_code_address(
                    #[trigger] return_into(after.stack, k),
                ) && address_proc(return_into(after.stack, k)) == new_cs[k].proc by {
                    assert(new_cs[k] == old_cs[k]);
                    assert(new_frames[n - 3 - k] == old_frames[n - 2 - k]);
                    assert(return_into(after.stack, k) == return_into(before.stack, k));
                }
                if n > 1 {
                    assert(old_cs[n - 2].proc == new_cs.last().proc);
                    assert(after.pc == return_into(before.stack, n - 2));
                }
            }
        },
        _ => {
            assert forall|k: int| 0 <= k < new_cs.len() implies {
                &&& (#[trigger] new_cs[k]).fp == new_frames[new_cs.len() - 1 - k]
                &&& new_cs[k].size == frame_size(after.stack, new_cs.len() - 1 - k)
            } by {
                assert(old_cs[k].fp == old_frames[n - 1 - k]);
            }
            assert forall|k: int| 0 <= k < new_cs.len() - 1 implies is_code_address(
                #[trigger] return_into(after.stack, k),
            ) && address_proc(return_into(after.stack, k)) == new_cs[k].proc by {
                assert(old_cs[k].proc == new_cs[k].proc);
                assert(return_into(after.stack, k) == return_into(before.stack, k));
            }
        },
    }
}

/// Moving the program counter within its procedure keeps the debugger's
/// invariant.
pub proof fn lemma_at_wf(d: DebuggerView, pc: u64)
    requires
        d.wf(),
        is_code_address(pc),
        is_code_address(d.runtime.pc),
        address_proc(pc) == address_proc(d.runtime.pc),
    ensures
        (DebuggerView { runtime: d.runtime.at(pc), ..d }).wf(),
{
    let moved = DebuggerView { runtime: d.runtime.at(pc), ..d };
    assert forall|i: int| 0 <= i < moved.callstack.len() - 1 implies is_code_address(
        #[trigger] return_into(moved.runtime.stack, i),
    ) && address_proc(return_into(moved.runtime.stack, i)) == moved.callstack[i].proc by {
        assert(return_into(moved.runtime.stack, i) == return_into(d.runtime.stack, i));
    }
}

/// A point in time on the monotonic clock, `std::time::Instant`. Nothing of
/// its inside is known here.
#[verifier::external_type_specification]
#[verifier::external_body]
pub struct ExInstant(Instant);

/// Reads the monotonic clock with `Instant::now`. Nothing is claimed of the
/// reading: it is whatever the clock says.
#[verifier::external_body]
fn clock_now() -> Instant {
    Instant::now()
}

/// The time from `earlier` to `later`, as `Instant::saturating_duration_since`
/// gives it: zero where `earlier` is the later of the two. Nothing is claimed
/// of the span, since nothing is known of the two readings.
#[verifier::external_body]
fn clock_span(later: &Instant, earlier: &Instant) -> Duration {
    later.saturating_duration_since(*earlier)
}

/// The whole nanoseconds in a span of time, as `Duration::as_nanos` gives
/// them. Nothing is claimed of the number.
#[verifier::external_body]
fn span_nanos(span: &Duration) -> u128 {
    span.as_nanos()
}

/// Whether a deadline `timeout` nanoseconds after the start has passed when
/// `elapsed` nanoseconds have gone by.
pub fn deadline_passed(elapsed: u128, timeout: u128) -> (passed: bool)
    ensures
        passed == (elapsed >= timeout),
{
    elapsed >= timeout
}

/// The debugger.
pub struct Debugger {
    runtime: Runtime,
    breakpoints: HashMap<u64, Breakpoint>,
    callstack: Vec<CallFrameInfo>,
    /// Set when execution pauses; cleared when it is resumed.
    paused: bool,
    finished: bool,
}

impl View for Debugger {
    type V = DebuggerView;

    closed spec fn view(&self) -> DebuggerView {
        DebuggerView {
            runtime: self.runtime@,
            breakpoints: self.breakpoints@,
            callstack: self.callstack@,
            paused: self.paused,
            finished: self.finished,
        }
    }
}

impl Debugger {
    /// The debugger's invariant, which `new` establishes and every method
    /// keeps.
    pub open spec fn wf(&self) -> bool {
        self@.wf()
    }

    /// A debugger for `runtime` that has called procedure number `main`,
    /// which the procedure table must hold, and sits, paused, before its first
    /// instruction. The machine must have no live call frame: the debugger
    /// answers for every frame on the stack.
    pub fn new(runtime: Runtime, main: u32) -> (r: Result<Debugger, Fault>)
        requires
            runtime.wf(),
            main < runtime@.procs.len(),
        ensures
            match r {
                Ok(d) => {
                    &&& d.wf()
                    &&& runtime@.stack.fp.is_none()
                    &&& runtime@.call(main) == Ok::<RuntimeView, Fault>(d@.runtime)
                    &&& d@.breakpoints == Map::<u64, Breakpoint>::empty()
                    &&& d@.callstack == seq![
                        CallFrameInfo {
                            proc: main,
                            fp: d@.runtime.stack.fp.unwrap() as usize,
                            size: 0,
                        },
                    ]
                    &&& d@.paused
                    &&& !d@.finished
                },
                Err(e) => if runtime@.stack.fp.is_some() {
                    e == Fault::FramesActive
                } else {
                    runtime@.call(main) == Err::<RuntimeView, Fault>(e)
                },
            },
    {
        let mut runtime = runtime;
        if runtime.stack().fp().is_some() {
            return Err(Fault::FramesActive);
        }
        proof {
            crate::runtime::calls::lemma_frames_head(runtime@.stack);
            lemma_code_address(main as nat, 0);
            if runtime@.call(main) is Ok {
                lemma_apply_frames(runtime@, Instruction::Call { index: main });
            }
        }
        match runtime.call(main) {
            Err(e) => Err(e),
            Ok(()) => {
                let fp: usize = runtime.stack().fp().unwrap();
                let mut callstack: Vec<CallFrameInfo> = Vec::new();
                callstack.push(CallFrameInfo::new(main, fp));
                let d = Debugger {
                    runtime,
                    breakpoints: HashMap::new(),
                    callstack,
                    paused: true,
                    finished: false,
                };
                proof {
                    assert(d@.callstack =~= seq![CallFrameInfo { proc: main, fp, size: 0 }]);
                    assert(d@.runtime.stack.frames() =~= seq![fp as nat]);
                }
                Ok(d)
            },
        }
    }

    /// The machine under the debugger.
    pub fn runtime(&self) -> (rt: &Runtime)
        ensures
            rt@ == self@.runtime,
    {
        &self.runtime
    }

    /// Whether execution is paused.
    pub fn paused(&self) -> (paused: bool)
        ensures
            paused == self@.paused,
    {
        self.paused
    }

    /// Whether the program has halted under the debugger.
    pub fn finished(&self) -> (finished: bool)
        ensures
            finished == self@.finished,
    {
        self.finished
    }

    /// Sets or clears the paused flag, as a host does for a pause request.
    pub fn set_paused(&mut self, paused: bool)
        requires
            old(self).wf(),
        ensures
            final(self).wf(),
            final(self)@ == (DebuggerView { paused, ..old(self)@ }),
    {
        self.paused = paused;
    }

    /// The shadow call stack, outermost frame first.
    pub fn callstack(&self) -> (frames: &Vec<CallFrameInfo>)
        ensures
            frames@ == self@.callstack,
    {
        &self.callstack
    }

    /// The breakpoint registered at a code address, if there is one.
    pub fn breakpoint_at(&self, addr: u64) -> (b: Option<Breakpoint>)
        ensures
            b == if self@.breakpoints.contains_key(addr) {
                Some(self@.breakpoints[addr])
            } else {
                None
            },
    {
        match self.breakpoints.get(&addr) {
            Some(bp) => Some(*bp),
            None => None,
        }
    }

    /// Registers a breakpoint at byte `offset` of procedure number
    /// `proc_index` and says whether it did: it does nothing where there is
    /// no such byte.
    pub fn add_breakpoint(&mut self, proc_index: u32, offset: usize) -> (added: bool)
        requires
            old(self).wf(),
        ensures
            final(self).wf(),
            added == (proc_index < old(self)@.runtime.procs.len() && offset
                < old(self)@.runtime.procs[proc_index as int]@.len()),
            final(self)@ == if added {
                DebuggerView {
                    breakpoints: old(self)@.breakpoints.insert(
                        code_address(proc_index as nat, offset as nat),
                        Breakpoint { proc: proc_index },
                    ),
                    ..old(self)@
                }
            } else {
                old(self)@
            },
    {
        let len: usize = match self.runtime.proc(proc_index) {
            Some(proc) => proc.len(),
            None => {
                return false;
            },
        };
        if offset < len {
            let address = make_address(proc_index, offset as u32);
            self.breakpoints.insert(address, Breakpoint::new(proc_index));
            true
        } else {
            false
        }
    }

    /// Stores a value at a slot of the active frame: how the host hands in
    /// the result of a floating-point operation.
    pub fn store(&mut self, slot: i16, value: Value) -> (r: Result<(), Fault>)
        requires
            old(self).wf(),
        ensures
            final(self).wf(),
            match old(self)@.runtime.store(slot, value) {
                Ok(m) => r.is_ok() && final(self)@ == (DebuggerView { runtime: m, ..old(self)@ }),
                Err(e) => r == Err::<(), Fault>(e) && final(self)@ == old(self)@,
            },
    {
        let r = self.runtime.store(slot, value);
        proof {
            if r.is_ok() {
                let before = old(self)@.runtime.stack;
                let after = self@.runtime.stack;
                crate::runtime::stack::lemma_store_keeps_chain(before, slot, value);
                crate::runtime::stack::lemma_store_keeps_records(before, slot, value);
                assert forall|i: int| 0 <= i < self@.callstack.len() - 1 implies is_code_address(
                    #[trigger] return_into(after, i),
                ) && address_proc(return_into(after, i)) == self@.callstack[i].proc by {
                    assert(before.frames()[before.frames().len() - 2 - i] == after.frames()[
                        after.frames().len() - 2 - i
                    ]);
                    assert(return_into(after, i) == return_into(before, i));
                }
            }
        }
        r
    }

    /// Decodes and carries out the instruction with this opcode, and keeps
    /// the books. On a fault the debugger is left as it was.
    pub fn execute(&mut self, opcode: u8) -> (r: Result<Option<Effect>, Fault>)
        requires
            old(self).wf(),
        ensures
            final(self).wf(),
            match old(self)@.execute(opcode) {
                Ok((d, effect)) => r == Ok::<Option<Effect>, Fault>(effect) && final(self)@ == d,
                Err(e) => r == Err::<Option<Effect>, Fault>(e) && final(self)@ == old(self)@,
            },
    {
        if self.finished {
            return Err(Fault::AlreadyFinished);
        }
        let (i, next) = match self.runtime.decode(opcode) {
            Ok(decoded) => decoded,
            Err(e) => {
                return Err(e);
            },
        };
        proof {
            if self@.runtime.perform(i, next) is Ok {
                lemma_track_wf(self@, opcode);
            }
        }
        let effect = match self.runtime.perform(i, next) {
            Ok(effect) => effect,
            Err(e) => {
                return Err(e);
            },
        };
        match i {
            Instruction::Alloc { size } => {
                // Track frame size
                let depth: usize = self.callstack.len();
                if depth > 0 {
                    let top: CallFrameInfo = self.callstack[depth - 1];
                    let grown: usize = top.size + size as usize;
                    self.callstack.set(
                        depth - 1,
                        CallFrameInfo { proc: top.proc, fp: top.fp, size: grown },
                    );
                }
            },
            Instruction::Call { .. } | Instruction::CallDynamic { .. } => {
                // Track callframe
                let fp: usize = self.runtime.stack().fp().unwrap();
                let proc: u32 = match split_address(self.runtime.pc()) {
                    Some((proc, _)) => proc,
                    None => 0,
                };
                self.callstack.push(CallFrameInfo::new(proc, fp));
            },
            Instruction::Return => {
                // Untrack callframe
                if self.callstack.len() > 0 {
                    self.callstack.pop();
                }
            },
            Instruction::Breakpoint => {
                self.paused = true;
            },
            _ => {},
        }
        if self.runtime.is_halted() {
            self.finished = true;
        }
        assert(self@.callstack =~= old(self)@.tracked_frames(i, self@.runtime));
        Ok(effect)
    }

    /// Runs exactly one instruction. On a fault the debugger is left as it
    /// was, with the program counter at the faulting instruction.
    pub fn step(&mut self) -> (r: Result<Option<Effect>, Fault>)
        requires
            old(self).wf(),
        ensures
            final(self).wf(),
            match old(self)@.step() {
                Ok((d, effect)) => r == Ok::<Option<Effect>, Fault>(effect) && final(self)@ == d,
                Err(e) => r == Err::<Option<Effect>, Fault>(e) && final(self)@ == old(self)@,
            },
    {
        if self.finished {
            return Err(Fault::AlreadyFinished);
        }
        let saved: u64 = self.runtime.pc();
        proof {
            if self@.runtime.fetch() is Ok {
                lemma_address_parts(saved);
                lemma_code_address(address_proc(saved), address_offset(saved) + 1);
                lemma_at_wf(self@, (saved + 1) as u64);
            }
        }
        let opcode = match self.runtime.fetch() {
            Ok(opcode) => opcode,
            Err(e) => {
                return Err(e);
            },
        };
        let r = self.execute(opcode);
        if r.is_err() {
            self.runtime.set_pc(saved);
        }
        r
    }

    /// Steps until something stops it, on a budget of `max_steps`
    /// instructions.
    fn cruise(&mut self, max_steps: u64) -> (r: Result<Pause, Fault>)
        requires
            old(self).wf(),
        ensures
            final(self).wf(),
            (final(self)@, r) == old(self)@.cruise(max_steps as nat),
    {
        let mut left: u64 = max_steps;
        loop
            invariant
                self.wf(),
                self@.cruise(left as nat) == old(self)@.cruise(max_steps as nat),
            decreases left,
        {
            proof {
                reveal(DebuggerView::cruise);
            }
            if self.paused {
                return Ok(Pause::Requested);
            }
            if self.runtime.is_halted() {
                self.finished = true;
                return Ok(Pause::Finished);
            }
            match self.breakpoints.get(&self.runtime.pc()) {
                Some(breakpoint) => {
                    let breakpoint: Breakpoint = *breakpoint;
                    self.paused = true;
                    return Ok(Pause::Breakpoint(breakpoint));
                },
                None => {},
            }
            if left == 0 {
                return Ok(Pause::StepLimit);
            }
            match self.step() {
                Err(e) => {
                    return Err(e);
                },
                Ok(Some(effect)) => {
                    return Ok(Pause::Effect(effect));
                },
                Ok(None) => {},
            }
            left = left - 1;
        }
    }

    /// Resumes execution: clears the paused flag, runs one instruction
    /// unconditionally if `skip_first` says so (to get past the breakpoint
    /// that execution sits on), and then steps until a breakpoint is
    /// reached, the program pauses itself or halts, a step leaves the host
    /// something to do or faults, or `max_steps` instructions have run.
    pub fn resume(&mut self, skip_first: bool, max_steps: u64) -> (r: Result<Pause, Fault>)
        requires
            old(self).wf(),
        ensures
            final(self).wf(),
            (final(self)@, r) == old(self)@.resume(skip_first, max_steps as nat),
    {
        if self.finished {
            return Err(Fault::AlreadyFinished);
        }
        self.paused = false;
        if skip_first {
            match self.step() {
                Err(e) => {
                    return Err(e);
                },
                Ok(Some(effect)) => {
                    return Ok(Pause::Effect(effect));
                },
                Ok(None) => {},
            }
        }
        self.cruise(max_steps)
    }

    /// Steps in batches of `ITERS_PER_CHECK` instructions and looks at the
    /// clock after each: once `timeout` nanoseconds have passed since
    /// `start`, or `max_batches` batches have run, it comes back. At least
    /// one batch is run.
    fn cruise_until(&mut self, start: &Instant, timeout: u128, max_batches: u64) -> (r: Result<
        Pause,
        Fault,
    >)
        requires
            old(self).wf(),
        ensures
            final(self).wf(),
            exists|batches: nat|
                {
                    &&& 1 <= batches
                    &&& batches <= max_batches || batches == 1
                    &&& #[trigger] old(self)@.cruised_in_batches(batches, final(self)@, r)
                    &&& timeout == 0 ==> batches == 1
                    &&& r == Ok::<Pause, Fault>(Pause::StepLimit) ==> batches >= max_batches
                },
    {
        let mut done: u64 = 0;
        loop
            invariant
                self.wf(),
                done < max_batches || done == 0,
                done > 0 ==> timeout > 0,
                done == 0 ==> self@ == old(self)@,
                done > 0 ==> old(self)@.cruise((ITERS_PER_CHECK * done) as nat) == (
                    self@,
                    Ok::<Pause, Fault>(Pause::StepLimit),
                ),
            decreases max_batches - done,
        {
            let r = self.cruise(ITERS_PER_CHECK);
            proof {
                if done > 0 {
                    lemma_cruise_split(
                        old(self)@,
                        (ITERS_PER_CHECK * done) as nat,
                        ITERS_PER_CHECK as nat,
                    );
                }
                assert(old(self)@.cruise((ITERS_PER_CHECK * (done + 1)) as nat) == (self@, r));
            }
            done = done + 1;
            match r {
                Ok(Pause::StepLimit) => {},
                _ => {
                    assert(old(self)@.cruised_in_batches(done as nat, self@, r));
                    return r;
                },
            }
            let now = clock_now();
            let elapsed = clock_span(&now, start);
            if deadline_passed(span_nanos(&elapsed), timeout) {
                assert(old(self)@.cruised_in_batches(
                    done as nat,
                    self@,
                    Ok::<Pause, Fault>(Pause::TimedOut),
                ));
                return Ok(Pause::TimedOut);
            }
            if done >= max_batches {
                assert(old(self)@.cruised_in_batches(
                    done as nat,
                    self@,
                    Ok::<Pause, Fault>(Pause::StepLimit),
                ));
                return Ok(Pause::StepLimit);
            }
        }
    }

    /// Resumes execution like `resume`, in batches of `ITERS_PER_CHECK`
    /// instructions, and looks at the clock after each batch: once `timeout`
    /// nanoseconds have passed since the call began, it comes back with
    /// `Pause::TimedOut` and leaves the debugger where it stands, neither
    /// paused nor finished, for a later call to go on. After `max_batches`
    /// batches it comes back in any case. At least one batch is run.
    ///
    /// Which batch is the last depends on the clock. With a zero timeout it
    /// is the first.
    pub fn resume_with_timeout(&mut self, skip_first: bool, timeout: u128, max_batches: u64) -> (r:
        Result<Pause, Fault>)
        requires
            old(self).wf(),
        ensures
            final(self).wf(),
            exists|batches: nat|
                {
                    &&& 1 <= batches
                    &&& batches <= max_batches || batches == 1
                    &&& #[trigger] old(self)@.resumed_in_batches(
                        skip_first,
                        batches,
                        final(self)@,
                        r,
                    )
                    &&& timeout == 0 ==> batches == 1
                    &&& r == Ok::<Pause, Fault>(Pause::StepLimit) ==> batches >= max_batches
                },
    {
        if self.finished {
            assert(old(self)@.resumed_in_batches(
                skip_first,
                1,
                self@,
                Err::<Pause, Fault>(Fault::AlreadyFinished),
            ));
            return Err(Fault::AlreadyFinished);
        }
        let start = clock_now();
        self.paused = false;
        if skip_first {
            match self.step() {
                Err(e) => {
                    assert(old(self)@.resumed_in_batches(
                        skip_first,
                        1,
                        self@,
                        Err::<Pause, Fault>(e),
                    ));
                    return Err(e);
                },
                Ok(Some(effect)) => {
                    assert(old(self)@.resumed_in_batches(
                        skip_first,
                        1,
                        self@,
                        Ok::<Pause, Fault>(Pause::Effect(effect)),
                    ));
                    return Ok(Pause::Effect(effect));
                },
                Ok(None) => {},
            }
        }
        let ghost begun = self@;
        let r = self.cruise_until(&start, timeout, max_batches);
        proof {
            let batches = choose|batches: nat|
                {
                    &&& 1 <= batches
                    &&& batches <= max_batches || batches == 1
                    &&& #[trigger] begun.cruised_in_batches(batches, self@, r)
                    &&& timeout == 0 ==> batches == 1
                    &&& r == Ok::<Pause, Fault>(Pause::StepLimit) ==> batches >= max_batches
                };
            assert(old(self)@.resume(skip_first, ITERS_PER_CHECK as nat * batches) == begun.cruise(
                ITERS_PER_CHECK as nat * batches,
            ));
            assert(old(self)@.resumed_in_batches(skip_first, batches, self@, r));
        }
        r
    }
}

} // verus!

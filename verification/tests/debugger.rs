use slotvm::fault::Fault;
use slotvm::opcodes::Instruction;
use slotvm::runtime::debug::{
    deadline_passed, Breakpoint, CallFrameInfo, Debugger, Pause, ITERS_PER_CHECK,
};
use slotvm::runtime::proc::{make_address, Proc, NULL_PC};
use slotvm::runtime::{Constant, Effect, FloatOp, Runtime};
use slotvm::value::Value;

fn len_of(instruction: Instruction) -> i32 {
    instruction.encoded_len() as i32
}

fn runtime_with(procs: &[&[Instruction]]) -> Runtime {
    let mut rt = Runtime::new();
    for proc in procs {
        rt.push_proc(Proc::assemble(proc));
    }
    rt
}

fn debugger(procs: &[&[Instruction]]) -> Debugger {
    Debugger::new(runtime_with(procs), 0).unwrap()
}

fn main_calling(index: u32, n: i64) -> Vec<Instruction> {
    vec![
        Instruction::Alloc { size: 1 },
        Instruction::MoveValue { dst: 0, value: n },
        Instruction::Call { index },
        Instruction::Halt,
    ]
}

fn factorial_proc() -> Vec<Instruction> {
    let return_one = [Instruction::MoveValue { dst: -1, value: 1 }, Instruction::Return];
    let skip = len_of(return_one[0]) + len_of(return_one[1]);
    vec![
        Instruction::Alloc { size: 2 },
        Instruction::BranchNz { src: -1, offset: skip },
        return_one[0],
        return_one[1],
        Instruction::MoveValue { dst: 0, value: 1 },
        Instruction::Move { dst: 1, src: -1 },
        Instruction::SubS64 { dst: 1, left: 1, right: 0 },
        Instruction::Call { index: 1 },
        Instruction::MulS64 { dst: -1, left: -1, right: 1 },
        Instruction::Return,
    ]
}

/// Adds one to slot 0 for ever.
fn counter() -> Vec<Instruction> {
    let add = Instruction::AddS64 { dst: 0, left: 0, right: 1 };
    let back = Instruction::Branch { offset: 0 };
    vec![
        Instruction::Alloc { size: 2 },
        Instruction::MoveValue { dst: 1, value: 1 },
        add,
        Instruction::Branch { offset: -(len_of(add) + len_of(back)) },
    ]
}

#[test]
fn fresh_debugger_sits_paused_before_main() {
    let d = debugger(&[&main_calling(1, 5), &factorial_proc()]);
    assert!(d.paused());
    assert!(!d.finished());
    assert_eq!(d.runtime().pc(), make_address(0, 0));
    assert_eq!(d.callstack().len(), 1);
    assert_eq!(d.callstack()[0], CallFrameInfo { proc: 0, fp: 4094, size: 0 });
    assert_eq!(d.callstack()[0], CallFrameInfo::new(0, 4094));
    assert_eq!(d.runtime().stack().fp(), Some(4094));
    assert_eq!(d.breakpoint_at(make_address(0, 0)), None);
}

#[test]
fn debugger_needs_a_machine_at_rest_with_room_for_a_frame() {
    let mut rt = runtime_with(&[&[Instruction::Halt]]);
    rt.call(0).unwrap();
    assert_eq!(Debugger::new(rt, 0).err(), Some(Fault::FramesActive));
    let mut tiny = Runtime::with_stack_size(1);
    tiny.push_proc(Proc::assemble(&[Instruction::Halt]));
    assert_eq!(Debugger::new(tiny, 0).err(), Some(Fault::StackOverflow));
}

#[test]
fn breakpoint_at_factorial_pauses_before_its_first_instruction() {
    let mut d = debugger(&[&main_calling(1, 5), &factorial_proc()]);
    assert!(d.add_breakpoint(1, 0));
    let pause = d.resume(false, 1_000_000).unwrap();
    assert_eq!(pause, Pause::Breakpoint(Breakpoint::new(1)));
    assert_eq!(pause.breakpoint().unwrap().proc, 1);
    assert!(d.paused());
    assert!(!d.finished());
    // the call has happened, the first instruction of the body has not
    assert_eq!(d.runtime().pc(), make_address(1, 0));
    assert_eq!(d.callstack().len(), 2);
    assert_eq!(d.callstack()[0], CallFrameInfo { proc: 0, fp: 4094, size: 1 });
    assert_eq!(d.callstack()[1], CallFrameInfo { proc: 1, fp: 4091, size: 0 });
    assert_eq!(d.runtime().stack().sp(), 4091);
    assert_eq!(d.runtime().load(-1), Ok(Value::from_s64(5)));
    assert_eq!(d.runtime().load(0), Err(Fault::InvalidSlot));
}

#[test]
fn resume_with_skip_first_goes_on_to_the_next_hit() {
    let mut d = debugger(&[&main_calling(1, 3), &factorial_proc()]);
    assert!(d.add_breakpoint(1, 0));
    let mut arguments = Vec::new();
    let mut pause = d.resume(false, 1_000_000).unwrap();
    while pause == Pause::Breakpoint(Breakpoint { proc: 1 }) {
        arguments.push(d.runtime().load(-1).unwrap().s64());
        assert_eq!(d.callstack().len(), arguments.len() + 1);
        pause = d.resume(true, 1_000_000).unwrap();
    }
    assert_eq!(arguments, vec![3, 2, 1, 0]);
    assert_eq!(pause, Pause::Finished);
    assert_eq!(pause.breakpoint(), None);
    assert!(d.finished());
    assert_eq!(d.runtime().load(0), Ok(Value::from_s64(6)));
}

#[test]
fn resume_without_skip_first_stays_on_the_breakpoint() {
    let mut d = debugger(&[&main_calling(1, 3), &factorial_proc()]);
    assert!(d.add_breakpoint(1, 0));
    assert_eq!(d.resume(false, 100), Ok(Pause::Breakpoint(Breakpoint { proc: 1 })));
    let pc = d.runtime().pc();
    assert_eq!(d.resume(false, 100), Ok(Pause::Breakpoint(Breakpoint { proc: 1 })));
    assert_eq!(d.runtime().pc(), pc);
    assert_eq!(d.callstack().len(), 2);
}

#[test]
fn breakpoint_inside_a_procedure_is_keyed_by_its_byte() {
    let mut d = debugger(&[&main_calling(1, 0), &factorial_proc()]);
    // the `MOVE_VALUE -1, 1` of the base case
    assert!(d.add_breakpoint(1, 10));
    assert_eq!(d.breakpoint_at(make_address(1, 10)), Some(Breakpoint { proc: 1 }));
    assert_eq!(d.breakpoint_at(make_address(1, 9)), None);
    assert_eq!(d.resume(false, 1000), Ok(Pause::Breakpoint(Breakpoint { proc: 1 })));
    assert_eq!(d.runtime().pc(), make_address(1, 10));
    assert_eq!(d.callstack()[1].size, 2);
    assert_eq!(d.runtime().load(-1), Ok(Value::from_s64(0)));
    assert_eq!(d.resume(true, 1000), Ok(Pause::Finished));
    assert_eq!(d.runtime().load(0), Ok(Value::from_s64(1)));
}

#[test]
fn add_breakpoint_ignores_places_that_do_not_exist() {
    let mut d = debugger(&[&[Instruction::Halt]]);
    assert!(!d.add_breakpoint(1, 0));
    assert!(!d.add_breakpoint(0, 1));
    assert!(!d.add_breakpoint(u32::MAX, usize::MAX));
    assert!(d.add_breakpoint(0, 0));
    assert_eq!(d.resume(false, 10), Ok(Pause::Breakpoint(Breakpoint { proc: 0 })));
    assert_eq!(d.resume(true, 10), Ok(Pause::Finished));
}

#[test]
fn zero_timeout_returns_after_one_batch() {
    let mut d = debugger(&[&counter()]);
    assert_eq!(d.resume_with_timeout(false, 0, 1_000_000), Ok(Pause::TimedOut));
    assert!(!d.finished());
    assert!(!d.paused());
    // 255 instructions: two to set up, then 127 additions and 126 branches
    assert_eq!(ITERS_PER_CHECK, 255);
    assert_eq!(d.runtime().load(0), Ok(Value::from_s64(127)));
    assert_eq!(d.runtime().pc(), make_address(0, 14 + 7));
    // a later call goes on from there: 128 branches and 127 additions
    assert_eq!(d.resume_with_timeout(false, 0, 1_000_000), Ok(Pause::TimedOut));
    assert_eq!(d.runtime().load(0), Ok(Value::from_s64(254)));
}

#[test]
fn timeout_run_stops_at_the_batch_limit() {
    let mut d = debugger(&[&counter()]);
    assert_eq!(d.resume_with_timeout(false, u128::MAX, 2), Ok(Pause::StepLimit));
    assert_eq!(d.runtime().load(0), Ok(Value::from_s64(254)));
    assert!(!d.finished());
    assert!(!d.paused());
    assert_eq!(d.resume_with_timeout(true, u128::MAX, 0), Ok(Pause::StepLimit));
    assert_eq!(d.runtime().load(0), Ok(Value::from_s64(382)));
}

#[test]
fn timeout_run_finishes_a_short_program() {
    let mut d = debugger(&[&main_calling(1, 5), &factorial_proc()]);
    assert_eq!(d.resume_with_timeout(false, 0, 10), Ok(Pause::Finished));
    assert!(d.finished());
    assert_eq!(d.runtime().load(0), Ok(Value::from_s64(120)));
    assert_eq!(d.resume_with_timeout(false, 0, 10), Err(Fault::AlreadyFinished));
}

#[test]
fn timeout_run_reports_a_breakpoint() {
    let mut d = debugger(&[&main_calling(1, 5), &factorial_proc()]);
    assert!(d.add_breakpoint(1, 0));
    let pause = d.resume_with_timeout(false, 1_000_000_000, 10).unwrap();
    assert_eq!(pause, Pause::Breakpoint(Breakpoint { proc: 1 }));
    assert!(d.paused());
    let pause = d.resume_with_timeout(true, 1_000_000_000, 10).unwrap();
    assert_eq!(pause, Pause::Breakpoint(Breakpoint { proc: 1 }));
    assert_eq!(d.callstack().len(), 3);
}

#[test]
fn deadline_is_passed_from_the_timeout_on() {
    assert!(deadline_passed(0, 0));
    assert!(deadline_passed(10, 10));
    assert!(deadline_passed(11, 10));
    assert!(!deadline_passed(9, 10));
    assert!(!deadline_passed(0, 1));
}

#[test]
fn stepping_after_the_finish_is_refused() {
    let mut d = debugger(&[&[Instruction::Halt]]);
    assert_eq!(d.resume(false, 10), Ok(Pause::Finished));
    assert!(d.finished());
    assert!(!d.paused());
    assert_eq!(d.step(), Err(Fault::AlreadyFinished));
    assert_eq!(d.execute(28), Err(Fault::AlreadyFinished));
    assert_eq!(d.resume(false, 10), Err(Fault::AlreadyFinished));
    assert_eq!(d.resume(true, 10), Err(Fault::AlreadyFinished));
    assert_eq!(d.resume_with_timeout(true, 0, 1), Err(Fault::AlreadyFinished));
}

#[test]
fn step_runs_exactly_one_instruction() {
    let mut d = debugger(&[&main_calling(1, 2), &factorial_proc()]);
    assert_eq!(d.step(), Ok(None));
    assert_eq!(d.runtime().pc(), make_address(0, 3));
    assert_eq!(d.callstack()[0].size, 1);
    assert_eq!(d.step(), Ok(None));
    assert_eq!(d.runtime().load(0), Ok(Value::from_s64(2)));
    assert_eq!(d.step(), Ok(None));
    assert_eq!(d.runtime().pc(), make_address(1, 0));
    assert_eq!(d.callstack().len(), 2);
    assert!(d.paused());
}

#[test]
fn shadow_call_stack_follows_calls_and_returns() {
    let leaf =
        [Instruction::Alloc { size: 3 }, Instruction::Alloc { size: 2 }, Instruction::Return];
    let middle = [
        Instruction::Alloc { size: 1 },
        Instruction::Call { index: 2 },
        Instruction::Alloc { size: 4 },
        Instruction::Return,
    ];
    let main = [Instruction::Alloc { size: 2 }, Instruction::Call { index: 1 }, Instruction::Halt];
    let mut d = debugger(&[&main, &middle, &leaf]);
    let mut depths = vec![d.callstack().len()];
    let mut sizes = vec![d.callstack().last().unwrap().size];
    while d.runtime().pc() != NULL_PC {
        assert_eq!(d.step(), Ok(None));
        depths.push(d.callstack().len());
        sizes.push(d.callstack().last().map_or(0, |frame| frame.size));
        for (i, frame) in d.callstack().iter().enumerate() {
            if i + 1 == d.callstack().len() {
                assert_eq!(Some(frame.fp), d.runtime().stack().fp());
                assert_eq!(frame.size, frame.fp - d.runtime().stack().sp());
            } else {
                assert_eq!(frame.size, frame.fp - d.callstack()[i + 1].fp - 2);
            }
        }
    }
    assert_eq!(depths, vec![1, 1, 2, 2, 3, 3, 3, 2, 2, 1, 1]);
    assert_eq!(sizes, vec![0, 2, 0, 1, 0, 3, 5, 1, 5, 2, 2]);
    assert_eq!(d.callstack()[0], CallFrameInfo { proc: 0, fp: 4094, size: 2 });
}

#[test]
fn dynamic_call_is_tracked_with_its_procedure() {
    let callee = [Instruction::Breakpoint, Instruction::Return];
    let main = [
        Instruction::Alloc { size: 1 },
        Instruction::LoadProc { dst: 0, index: 1 },
        Instruction::CallDynamic { src: 0 },
        Instruction::Halt,
    ];
    let mut d = debugger(&[&main, &callee]);
    assert_eq!(d.resume(false, 100), Ok(Pause::Requested));
    assert!(d.paused());
    assert_eq!(d.callstack().len(), 2);
    assert_eq!(d.callstack()[1].proc, 1);
    assert_eq!(d.runtime().pc(), make_address(1, 1));
    assert_eq!(d.resume(false, 100), Ok(Pause::Finished));
    assert_eq!(d.callstack().len(), 1);
}

#[test]
fn breakpoint_instruction_requests_a_pause() {
    let mut d = debugger(&[&[
        Instruction::Alloc { size: 1 },
        Instruction::Breakpoint,
        Instruction::MoveValue { dst: 0, value: 1 },
        Instruction::Breakpoint,
        Instruction::Halt,
    ]]);
    assert_eq!(d.resume(false, 100), Ok(Pause::Requested));
    assert!(d.paused());
    assert_eq!(d.runtime().pc(), make_address(0, 4));
    assert_eq!(d.runtime().load(0), Ok(Value::from_s64(0)));
    assert_eq!(d.resume(true, 100), Ok(Pause::Requested));
    assert_eq!(d.runtime().load(0), Ok(Value::from_s64(1)));
    assert_eq!(d.resume(false, 100), Ok(Pause::Finished));
}

#[test]
fn skipped_breakpoint_instruction_pauses_at_once() {
    let mut d = debugger(&[&[Instruction::Breakpoint, Instruction::Halt]]);
    assert_eq!(d.resume(true, 100), Ok(Pause::Requested));
    assert_eq!(d.runtime().pc(), make_address(0, 1));
    assert!(!d.finished());
}

#[test]
fn host_can_request_and_lift_a_pause() {
    let mut d = debugger(&[&counter()]);
    d.set_paused(false);
    assert!(!d.paused());
    d.set_paused(true);
    assert!(d.paused());
    assert_eq!(d.resume(false, 10), Ok(Pause::StepLimit));
    assert!(!d.paused());
}

#[test]
fn resume_stops_at_the_step_limit() {
    let mut d = debugger(&[&counter()]);
    assert_eq!(d.resume(false, 4), Ok(Pause::StepLimit));
    assert_eq!(d.runtime().load(0), Ok(Value::from_s64(1)));
    assert_eq!(d.resume(false, 0), Ok(Pause::StepLimit));
    assert_eq!(d.resume(true, 0), Ok(Pause::StepLimit));
    assert_eq!(d.runtime().load(0), Ok(Value::from_s64(2)));
    assert!(!d.paused());
    assert!(!d.finished());
}

#[test]
fn effects_come_through_the_debugger() {
    let mut rt = Runtime::new();
    rt.push_constant(Constant::from_float_bits(1.5f64.to_bits()));
    rt.push_proc(Proc::assemble(&[
        Instruction::Alloc { size: 2 },
        Instruction::LoadConst { dst: 0, index: 0 },
        Instruction::AddF64 { dst: 1, left: 0, right: 0 },
        Instruction::PrintF64 { src: 1 },
        Instruction::Halt,
    ]));
    let mut d = Debugger::new(rt, 0).unwrap();
    let bits = 1.5f64.to_bits();
    assert_eq!(
        d.resume(false, 100),
        Ok(Pause::Effect(Effect::Float { op: FloatOp::Add, dst: 1, left: bits, right: bits }))
    );
    assert!(!d.paused());
    let sum = f64::from_bits(bits) + f64::from_bits(bits);
    assert_eq!(d.store(1, Value::from_float_bits(sum.to_bits())), Ok(()));
    assert_eq!(d.store(2, Value::from_float_bits(0)), Err(Fault::InvalidSlot));
    assert_eq!(d.resume(false, 100), Ok(Pause::Effect(Effect::PrintF64(3.0f64.to_bits()))));
    assert_eq!(d.resume(false, 100), Ok(Pause::Finished));
    assert_eq!(d.callstack()[0].size, 2);
}

#[test]
fn fault_leaves_the_debugger_where_it_stood() {
    let mut d = debugger(&[&[
        Instruction::Alloc { size: 1 },
        Instruction::DivS64 { dst: 0, left: 0, right: 0 },
        Instruction::Halt,
    ]]);
    assert_eq!(d.resume(false, 100), Err(Fault::DivisionByZero));
    assert_eq!(d.runtime().pc(), make_address(0, 3));
    assert_eq!(d.callstack()[0].size, 1);
    assert!(!d.finished());
    assert_eq!(d.step(), Err(Fault::DivisionByZero));
    assert_eq!(d.resume(true, 100), Err(Fault::DivisionByZero));
    assert_eq!(d.runtime().pc(), make_address(0, 3));
}

#[test]
fn return_from_main_finishes_with_an_empty_call_stack() {
    let mut d = debugger(&[&[Instruction::Alloc { size: 3 }, Instruction::Return]]);
    assert_eq!(d.resume(false, 100), Ok(Pause::Finished));
    assert_eq!(d.callstack().len(), 0);
    assert_eq!(d.runtime().stack().fp(), None);
    assert_eq!(d.runtime().stack().sp(), 4096);
}

#[test]
fn debugger_does_not_change_what_the_program_computes() {
    let procs: [&[Instruction]; 2] = [&main_calling(1, 10), &factorial_proc()];
    let mut plain = runtime_with(&procs);
    plain.call(0).unwrap();
    let mut d = debugger(&procs);
    loop {
        assert_eq!(plain.pc(), d.runtime().pc());
        assert_eq!(plain.stack().sp(), d.runtime().stack().sp());
        assert_eq!(plain.stack().fp(), d.runtime().stack().fp());
        if plain.is_halted() {
            break;
        }
        assert_eq!(plain.step(), d.step());
    }
    assert_eq!(plain.load(0), Ok(Value::from_s64(3_628_800)));
    assert_eq!(d.runtime().load(0), Ok(Value::from_s64(3_628_800)));
}

#[test]
fn step_over_halt_finishes_the_program() {
    let mut d = debugger(&[&[Instruction::Alloc { size: 1 }, Instruction::Halt]]);
    assert_eq!(d.step(), Ok(None));
    assert!(!d.finished());
    assert_eq!(d.step(), Ok(None));
    assert_eq!(d.runtime().pc(), NULL_PC);
    assert!(d.finished());
    assert_eq!(d.step(), Err(Fault::AlreadyFinished));
    assert_eq!(d.resume(false, 10), Err(Fault::AlreadyFinished));
    assert_eq!(d.resume_with_timeout(false, 0, 1), Err(Fault::AlreadyFinished));
    assert_eq!(d.callstack().len(), 1);
}

#[test]
fn step_over_the_outermost_return_finishes_the_program() {
    let mut d = debugger(&[&[Instruction::Return]]);
    assert_eq!(d.step(), Ok(None));
    assert!(d.finished());
    assert_eq!(d.callstack().len(), 0);
    assert_eq!(d.step(), Err(Fault::AlreadyFinished));
}

#[test]
fn execute_of_halt_finishes_the_program() {
    let mut d = debugger(&[&[Instruction::Halt]]);
    d.set_paused(false);
    assert_eq!(d.execute(28), Ok(None));
    assert!(d.finished());
    assert!(!d.paused());
    assert_eq!(d.execute(28), Err(Fault::AlreadyFinished));
}

#[test]
fn skipped_halt_finishes_the_program() {
    let mut d = debugger(&[&[Instruction::Halt]]);
    assert_eq!(d.resume(true, 0), Ok(Pause::Finished));
    assert!(d.finished());
}

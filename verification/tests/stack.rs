use slotvm::fault::Fault;
use slotvm::runtime::stack::{Stack, StackFrame};
use slotvm::value::Value;

fn word(v: i64) -> Value {
    Value::from_s64(v)
}

#[test]
fn new_stack_is_empty_and_zeroed() {
    let s = Stack::new(16);
    assert_eq!(s.capacity(), 16);
    assert_eq!(s.sp(), 16);
    assert_eq!(s.fp(), None);
    for i in 0..16 {
        assert_eq!(s.peek(i), Some(Value { bits: 0 }));
    }
    assert_eq!(s.peek(16), None);
}

#[test]
fn store_then_load_reads_back() {
    let mut s = Stack::new(16);
    s.push_frame(0).unwrap();
    s.reserve(3).unwrap();
    for slot in 0..3i16 {
        s.store(slot, word(100 + slot as i64)).unwrap();
    }
    for slot in 0..3i16 {
        assert_eq!(s.load(slot), Ok(word(100 + slot as i64)));
    }
}

#[test]
fn last_store_to_a_slot_wins() {
    let mut s = Stack::new(16);
    s.push_frame(0).unwrap();
    s.reserve(2).unwrap();
    s.store(0, word(1)).unwrap();
    s.store(1, word(2)).unwrap();
    s.store(0, word(3)).unwrap();
    assert_eq!(s.load(0), Ok(word(3)));
    assert_eq!(s.load(1), Ok(word(2)));
}

#[test]
fn local_slots_count_down_from_the_frame_pointer() {
    let mut s = Stack::new(16);
    s.push_frame(0).unwrap();
    assert_eq!(s.fp(), Some(14));
    s.reserve(2).unwrap();
    assert_eq!(s.sp(), 12);
    s.store(0, word(10)).unwrap();
    s.store(1, word(11)).unwrap();
    assert_eq!(s.peek(13), Some(word(10)));
    assert_eq!(s.peek(12), Some(word(11)));
}

#[test]
fn slot_outside_the_reservation_is_invalid() {
    let mut s = Stack::new(16);
    s.push_frame(0).unwrap();
    s.reserve(2).unwrap();
    assert_eq!(s.load(2), Err(Fault::InvalidSlot));
    assert_eq!(s.store(2, word(1)), Err(Fault::InvalidSlot));
    assert_eq!(s.load(i16::MAX), Err(Fault::InvalidSlot));
    assert!(s.has_slot(1));
    assert!(!s.has_slot(2));
}

#[test]
fn slot_without_a_frame_is_invalid() {
    let mut s = Stack::new(16);
    s.reserve(4).unwrap();
    assert_eq!(s.load(0), Err(Fault::InvalidSlot));
    assert_eq!(s.store(0, word(1)), Err(Fault::InvalidSlot));
    assert_eq!(s.load(-1), Err(Fault::InvalidSlot));
}

#[test]
fn outermost_frame_reaches_what_the_host_reserved() {
    let mut s = Stack::new(16);
    s.reserve(2).unwrap();
    s.push_frame(0).unwrap();
    assert_eq!(s.store(-1, word(5)), Ok(()));
    assert_eq!(s.store(-2, word(6)), Ok(()));
    assert_eq!(s.peek(14), Some(word(5)));
    assert_eq!(s.peek(15), Some(word(6)));
    assert_eq!(s.store(-3, word(7)), Err(Fault::InvalidSlot));
    assert_eq!(s.load(i16::MIN), Err(Fault::InvalidSlot));
}

#[test]
fn reservation_beyond_the_buffer_overflows() {
    let mut s = Stack::new(8);
    assert_eq!(s.reserve(9), Err(Fault::StackOverflow));
    assert_eq!(s.sp(), 8);
    assert_eq!(s.reserve(8), Ok(()));
    assert_eq!(s.sp(), 0);
    assert_eq!(s.reserve(1), Err(Fault::StackOverflow));
    assert_eq!(s.reserve(0), Ok(()));
}

#[test]
fn frame_that_does_not_fit_overflows() {
    let mut s = Stack::new(3);
    assert_eq!(s.push_frame(1), Ok(()));
    assert_eq!(s.push_frame(2), Err(Fault::StackOverflow));
    assert_eq!(s.sp(), 1);
    assert_eq!(s.fp(), Some(1));
    assert_eq!(s.return_call(), Ok(1));
}

#[test]
fn frame_link_record_holds_caller_and_return_address() {
    let mut s = Stack::new(16);
    s.push_frame(0xaa).unwrap();
    s.reserve(1).unwrap();
    s.push_frame(0xbb).unwrap();
    assert_eq!(s.fp(), Some(11));
    assert_eq!(s.peek(11), Some(Value { bits: 14 }));
    assert_eq!(s.peek(12), Some(Value { bits: 0xbb }));
    assert_eq!(s.peek(14), Some(Value { bits: u64::MAX }));
    assert_eq!(s.peek(15), Some(Value { bits: 0xaa }));
}

#[test]
fn callee_reads_the_callers_last_local_at_minus_one() {
    let mut s = Stack::new(32);
    s.push_frame(0).unwrap();
    s.reserve(3).unwrap();
    s.store(0, word(70)).unwrap();
    s.store(1, word(71)).unwrap();
    s.store(2, word(72)).unwrap();
    s.push_frame(9).unwrap();
    assert_eq!(s.load(-1), Ok(word(72)));
    assert_eq!(s.load(-2), Ok(word(71)));
    assert_eq!(s.load(-3), Ok(word(70)));
    assert_eq!(s.load(-4), Err(Fault::InvalidSlot));
}

#[test]
fn caller_reads_what_the_callee_stored_at_minus_one() {
    let mut s = Stack::new(32);
    s.push_frame(0).unwrap();
    s.reserve(2).unwrap();
    s.store(1, word(5)).unwrap();
    s.push_frame(9).unwrap();
    s.reserve(4).unwrap();
    s.store(0, word(1000)).unwrap();
    s.store(-1, word(120)).unwrap();
    assert_eq!(s.return_call(), Ok(9));
    assert_eq!(s.load(1), Ok(word(120)));
}

#[test]
fn return_restores_frame_pointer_and_top() {
    let mut s = Stack::new(32);
    s.push_frame(0).unwrap();
    s.reserve(2).unwrap();
    let fp = s.fp();
    let sp = s.sp();
    s.push_frame(77).unwrap();
    s.reserve(5).unwrap();
    s.store(4, word(1)).unwrap();
    assert_eq!(s.return_call(), Ok(77));
    assert_eq!(s.fp(), fp);
    assert_eq!(s.sp(), sp);
}

#[test]
fn nested_calls_return_in_reverse_order() {
    let mut s = Stack::new(64);
    s.push_frame(1).unwrap();
    s.reserve(1).unwrap();
    let outer = (s.fp(), s.sp());
    s.push_frame(2).unwrap();
    s.reserve(2).unwrap();
    let middle = (s.fp(), s.sp());
    s.push_frame(3).unwrap();
    s.reserve(3).unwrap();
    assert_eq!(s.return_call(), Ok(3));
    assert_eq!((s.fp(), s.sp()), middle);
    s.push_frame(4).unwrap();
    assert_eq!(s.return_call(), Ok(4));
    assert_eq!((s.fp(), s.sp()), middle);
    assert_eq!(s.return_call(), Ok(2));
    assert_eq!((s.fp(), s.sp()), outer);
    assert_eq!(s.return_call(), Ok(1));
    assert_eq!(s.fp(), None);
    assert_eq!(s.sp(), 64);
}

#[test]
fn return_without_a_frame_is_refused() {
    let mut s = Stack::new(8);
    assert_eq!(s.return_call(), Err(Fault::NoFrame));
    assert_eq!(s.sp(), 8);
    assert_eq!(s.fp(), None);
}

#[test]
fn second_call_from_one_frame_sees_the_same_locals() {
    let mut s = Stack::new(64);
    s.push_frame(0).unwrap();
    s.reserve(4).unwrap();
    s.store(3, word(8)).unwrap();
    s.push_frame(1).unwrap();
    s.reserve(4).unwrap();
    s.store(-1, word(21)).unwrap();
    s.return_call().unwrap();
    assert_eq!(s.load(3), Ok(word(21)));
    s.store(3, word(7)).unwrap();
    s.push_frame(2).unwrap();
    assert_eq!(s.load(-1), Ok(word(7)));
}

#[test]
fn active_frame_reports_its_link_record() {
    let mut s = Stack::new(16);
    assert_eq!(s.frame(), None);
    s.push_frame(0xaa).unwrap();
    assert_eq!(s.frame(), Some(StackFrame { fp: None, ra: 0xaa }));
    s.reserve(3).unwrap();
    s.push_frame(0xbb).unwrap();
    assert_eq!(s.frame(), Some(StackFrame { fp: Some(14), ra: 0xbb }));
    s.return_call().unwrap();
    assert_eq!(s.frame(), Some(StackFrame { fp: None, ra: 0xaa }));
}

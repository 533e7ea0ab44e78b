use one_collect::callstack::{read_callchain_frames, read_user_regs, PERF_CONTEXT_MAX};
use one_collect::callstack::{CompletedCallstack, PartialCallstack, PartialCallstackLookup};
use one_collect::exporting::KERNEL_START;

/// What a completion callback records for a completed callstack.
fn outcome_of(completed: &CompletedCallstack, time: u64, pid: u32, tid: u32, frames: &[u64]) -> bool {
    completed.time() != time ||
        completed.pid() != pid ||
        completed.pid() != tid ||
        completed.frames() != frames
}

fn record(outcome: &mut bool, done: Option<CompletedCallstack>, time: u64, pid: u32, tid: u32, frames: &[u64]) {
    if let Some(completed) = done {
        *outcome = outcome_of(&completed, time, pid, tid, frames);
    }
}

#[test]
fn partial_callstacks() {
    let mut outcome = false;
    let expected = vec!(KERNEL_START, 0x1, 0x2, 0x3, 0x4);

    let mut stacks = PartialCallstackLookup::default();

    /* Frames ending in userspace should give full callstack */
    let done = stacks.add_frames(0xf00d, 0, 1, &vec!(KERNEL_START, 0x1, 0x2, 0x3, 0x4));
    record(&mut outcome, done, 0xf00d, 0, 1, &expected);

    assert_eq!(true, outcome);
    outcome = false;

    /* Partial frames should only complete on user */
    let done = stacks.add_frames(0xf00d, 0, 1, &vec!(KERNEL_START));
    record(&mut outcome, done, 0xf00d, 0, 1, &expected);
    assert_eq!(false, outcome);

    let done = stacks.add_frames(0xf00d, 0, 1, &vec!(0x1, 0x2, 0x3, 0x4));
    record(&mut outcome, done, 0xf00d, 0, 1, &expected);
    assert_eq!(true, outcome);
    outcome = false;

    /* Flush should work for kernel only stacks */
    let expected = vec!(KERNEL_START);
    let mut stacks = PartialCallstackLookup::default();

    let done = stacks.add_frames(0xf00d, 0, 1, &vec!(KERNEL_START));
    record(&mut outcome, done, 0xf00d, 0, 1, &expected);
    assert_eq!(false, outcome);

    for completed in stacks.flush() {
        outcome = outcome_of(&completed, 0xf00d, 0, 1, &expected);
    }

    assert_eq!(true, outcome);
}

#[test]
fn partial_frames_are_joined_in_order() {
    let mut stacks = PartialCallstackLookup::new();

    assert!(stacks.add_frames(5, 2, 3, &[]).is_none());
    assert!(stacks.add_frames(5, 2, 3, &[KERNEL_START + 1]).is_none());
    assert!(stacks.add_frames(5, 2, 3, &[KERNEL_START + 2]).is_none());
    /* Another thread at the same time is kept apart */
    assert!(stacks.add_frames(5, 2, 4, &[KERNEL_START + 3]).is_none());
    assert_eq!(2, stacks.len());

    let done = stacks.add_frames(5, 2, 3, &[0x10]).unwrap();
    assert_eq!(5, done.time());
    assert_eq!(2, done.pid());
    assert_eq!(3, done.tid());
    assert_eq!(&[KERNEL_START + 1, KERNEL_START + 2, 0x10], done.frames());
    assert_eq!(1, stacks.len());

    let flushed = stacks.flush();
    assert_eq!(1, flushed.len());
    assert_eq!(4, flushed[0].tid());
    assert_eq!(2, flushed[0].pid());
    assert_eq!(0, stacks.len());
}

#[test]
fn flush_reports_low_sixteen_bits_of_ids() {
    let mut stacks = PartialCallstackLookup::new();
    assert!(stacks.add_frames(1, 0x12345, 0x23456, &[KERNEL_START]).is_none());
    let flushed = stacks.flush();
    assert_eq!(0x2345, flushed[0].pid());
    assert_eq!(0x3456, flushed[0].tid());
}

#[test]
fn partial_callstack_frames() {
    let mut partial = PartialCallstack::default();
    assert!(partial.is_empty());
    assert!(!partial.ends_in_userspace());
    partial.add_frames(&[KERNEL_START, 0x5]);
    assert!(partial.ends_in_userspace());
    assert_eq!(&[KERNEL_START, 0x5], partial.frames());
    assert!(!PartialCallstack::frames_end_in_userspace(&[0x5, KERNEL_START]));
    partial.clear();
    assert!(partial.is_empty());
}

#[test]
fn callchain_skips_context_markers() {
    let mut data = Vec::new();
    data.extend_from_slice(&0x1000u64.to_le_bytes());
    data.extend_from_slice(&0xFFFF_FFFF_FFFF_FE00u64.to_le_bytes());
    data.extend_from_slice(&0x2000u64.to_le_bytes());
    data.extend_from_slice(&(PERF_CONTEXT_MAX - 1).to_le_bytes());
    data.extend_from_slice(&[1, 2, 3]);
    let mut frames = vec![7u64];
    read_callchain_frames(&data, &mut frames);
    assert_eq!(vec![7u64, 0x1000, 0x2000, PERF_CONTEXT_MAX - 1], frames);
}

#[test]
fn user_regs_need_exactly_three() {
    let mut data = Vec::new();
    data.extend_from_slice(&1u64.to_le_bytes());
    data.extend_from_slice(&2u64.to_le_bytes());
    data.extend_from_slice(&3u64.to_le_bytes());
    assert_eq!(Some((1, 2, 3)), read_user_regs(&data));
    data.push(0);
    assert_eq!(None, read_user_regs(&data));
    assert_eq!(None, read_user_regs(&data[..16]));
}

use one_collect::exporting::cswitch::{
    is_exec_mapping, is_process_comm, is_scheduler_switch, CSwitchTable, ExportCSwitch,
    PERF_RECORD_MISC_SWITCH_OUT,
};
use one_collect::exporting::process::ExportProcessSample;

fn sample(time: u64) -> ExportProcessSample {
    ExportProcessSample::new(time, 0, 1, 2, 42, 0x1000, 7)
}

#[test]
fn cswitch_records_wait_from_switch_out_to_switch_in() {
    let mut table = CSwitchTable::new();

    // Switch out at 100, the profile record follows with its sample.
    assert!(table.on_swap(42, PERF_RECORD_MISC_SWITCH_OUT, 100).is_none());
    table.on_profile(42, sample(105));
    assert_eq!(Some(0), table.start_time(42));
    assert!(table.on_swap(42, PERF_RECORD_MISC_SWITCH_OUT, 100).is_none());
    assert_eq!(Some(100), table.start_time(42));

    // Switch in at 250: the sample comes back timed at 100, valued 150.
    let s = table.on_swap(42, 0, 250).unwrap();
    assert_eq!(100, s.time());
    assert_eq!(150, s.value());
    assert_eq!(42, s.tid());
    assert_eq!(7, s.callstack_id());
    assert_eq!(Some(0), table.start_time(42));

    // A second switch in gives nothing.
    assert!(table.on_swap(42, 0, 300).is_none());
}

#[test]
fn cswitch_switch_in_without_start_drops_sample() {
    let mut entry = ExportCSwitch::new();
    entry.stash(sample(10));
    assert!(entry.swap(0, 20).is_none());
    // The stash was dropped: a later wait gives nothing back.
    assert!(entry.swap(PERF_RECORD_MISC_SWITCH_OUT, 30).is_none());
    assert_eq!(30, entry.start_time());
    assert!(entry.swap(0, 40).is_none());
}

#[test]
fn cswitch_unknown_thread_is_ignored() {
    let mut table = CSwitchTable::new();
    assert!(table.on_swap(9, 0, 10).is_none());
    assert_eq!(None, table.start_time(9));
}

#[test]
fn cswitch_record_filters() {
    assert!(is_scheduler_switch(0, 5));
    assert!(is_scheduler_switch(5, 0));
    assert!(!is_scheduler_switch(5, 6));
    assert!(is_exec_mapping(4));
    assert!(is_exec_mapping(7));
    assert!(!is_exec_mapping(3));
    assert!(is_process_comm(8, 8));
    assert!(!is_process_comm(8, 9));
}

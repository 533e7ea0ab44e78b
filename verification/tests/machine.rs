use one_collect::exporting::machine::{ExportMachine, ExportSettings};
use one_collect::exporting::process::ExportProcessSample;
use one_collect::exporting::ExportDevNode;
use one_collect::intern::CallstackId;

fn machine() -> ExportMachine {
    ExportMachine::new(ExportSettings::new(false))
}

#[test]
fn replay_by_time() {
    let mut machine = machine();
    let proc = machine.process_mut(1);

    let first = ExportProcessSample::new(1, 0, 0, 0, 0, 0, 0);
    let second = ExportProcessSample::new(3, 0, 0, 0, 0, 0, 0);
    let third = ExportProcessSample::new(5, 0, 0, 0, 0, 0, 0);
    let forth = ExportProcessSample::new(7, 0, 0, 0, 0, 0, 0);

    proc.add_sample(forth);
    proc.add_sample(second);
    proc.add_sample(first);
    proc.add_sample(third);

    let proc = machine.process_mut(2);

    let first = ExportProcessSample::new(2, 0, 0, 0, 0, 0, 0);
    let second = ExportProcessSample::new(4, 0, 0, 0, 0, 0, 0);
    let third = ExportProcessSample::new(6, 0, 0, 0, 0, 0, 0);
    let forth = ExportProcessSample::new(8, 0, 0, 0, 0, 0, 0);

    proc.add_sample(forth);
    proc.add_sample(second);
    proc.add_sample(first);
    proc.add_sample(third);

    let mut time = 0;

    for (pid, sample) in machine.replay_by_time(&[1, 2]) {
        if sample.time() % 2 == 0 {
            assert_eq!(2, pid);
        } else {
            assert_eq!(1, pid);
        }

        assert_eq!(sample.time() - 1, time);

        time = sample.time();
    }

    assert_eq!(8, time);
}

#[test]
fn replay_interleaves_equal_times_in_list_order() {
    let mut machine = machine();
    machine.add_custom_sample(5, ExportProcessSample::new(10, 1, 0, 0, 0, 0, 0));
    machine.add_custom_sample(5, ExportProcessSample::new(10, 2, 0, 0, 0, 0, 0));
    machine.add_custom_sample(6, ExportProcessSample::new(10, 3, 0, 0, 0, 0, 0));
    machine.add_custom_sample(6, ExportProcessSample::new(u64::MAX, 4, 0, 0, 0, 0, 0));
    machine.add_custom_sample(7, ExportProcessSample::new(1, 5, 0, 0, 0, 0, 0));

    let order: Vec<(u32, u64)> = machine
        .replay_by_time(&[6, 5, 99])
        .iter()
        .map(|(pid, s)| (*pid, s.value()))
        .collect();
    assert_eq!(vec![(6, 3), (5, 1), (5, 2)], order);
}

#[test]
fn sample_kinds_are_interned_in_order() {
    let mut machine = machine();
    assert_eq!(0, machine.sample_kind("cpu"));
    assert_eq!(1, machine.sample_kind("cswitch"));
    assert_eq!(0, machine.sample_kind("cpu"));
    assert_eq!(Some(1), machine.find_sample_kind("cswitch"));
    assert_eq!(None, machine.find_sample_kind("other"));
    assert_eq!(vec!["cpu".to_string(), "cswitch".to_string()], *machine.sample_kinds());
}

#[test]
fn samples_keep_their_callstacks() {
    let mut machine = machine();
    machine.add_sample(100, 7, 42, 11, 3, 1, &[0x10, 0x20, 0x30]);
    machine.add_sample(101, 8, 42, 11, 3, 1, &[]);

    let proc = machine.find_process(42).unwrap();
    assert_eq!(42, proc.pid());
    let samples = proc.samples();
    assert_eq!(2, samples.len());
    assert_eq!((100, 7, 11, 3, 1, 0x10), (samples[0].time(), samples[0].value(), samples[0].tid(), samples[0].cpu(), samples[0].kind(), samples[0].ip()));
    assert_eq!(0, samples[1].ip());

    let mut frames = Vec::new();
    machine
        .callstacks()
        .from_id(CallstackId::new(samples[0].ip(), samples[0].callstack_id()), &mut frames)
        .unwrap();
    assert_eq!(vec![0x10u64, 0x20, 0x30], frames);
    machine
        .callstacks()
        .from_id(CallstackId::new(samples[1].ip(), samples[1].callstack_id()), &mut frames)
        .unwrap();
    assert_eq!(vec![0u64], frames);
    assert!(machine.find_process(43).is_none());
}

#[test]
fn mmaps_are_anonymous_by_name() {
    let mut machine = machine();
    let names = ["[heap]", "/memfd:jit", "//anon", "", "/usr/lib/libc.so"];
    for (i, name) in names.iter().enumerate() {
        machine.add_mmap_exec(5, 9, 0x1000 * (i as u64 + 1), 0x100, 0x40, 8, 1, 77, name);
    }
    let proc = machine.find_process(9).unwrap();
    let maps = proc.mappings();
    assert_eq!(5, maps.len());
    for (i, map) in maps.iter().enumerate() {
        assert_eq!(i, map.id());
        assert_eq!(0x1000 * (i as u64 + 1), map.start());
        assert_eq!(0x1000 * (i as u64 + 1) + 0xFF, map.end());
        assert_eq!(names[i], machine.strings().from_id(map.filename_id()).unwrap());
    }
    assert!(maps[0].anon() && maps[1].anon() && maps[2].anon() && maps[3].anon());
    assert!(!maps[4].anon());
    assert!(maps[0].node().is_none());
    let node = maps[4].node().unwrap();
    assert_eq!(((8u64 << 8) | 1, 77), (node.dev(), node.ino()));
    assert_eq!(ExportDevNode::from_parts(8, 1, 77).dev(), node.dev());
}

#[test]
fn processes_split_by_name() {
    let mut machine = machine();
    machine.add_comm_exec(1, "a");
    machine.add_comm_exec(2, "a");
    machine.add_comm_exec(3, "b");
    machine.add_custom_sample(4, ExportProcessSample::new(1, 1, 0, 0, 0, 0, 0));

    let mut ids = machine.process_ids();
    ids.sort();
    assert_eq!(vec![1u32, 2, 3, 4], ids);

    let a = machine.find_process(1).unwrap().comm_id();
    assert_eq!("a", machine.strings().from_id(a.unwrap()).unwrap());
    assert_eq!(a, machine.find_process(2).unwrap().comm_id());

    let mut groups = machine.split_processes_by_comm();
    for g in groups.iter_mut() {
        g.1.sort();
    }
    groups.sort();
    let b = machine.find_process(3).unwrap().comm_id();
    let mut expected = vec![(a, vec![1u32, 2]), (b, vec![3u32]), (None, vec![4u32])];
    expected.sort();
    assert_eq!(expected, groups);
}

#[test]
fn forks_copy_name_and_mappings() {
    let mut machine = machine();
    machine.add_comm_exec(10, "parent");
    machine.add_mmap_exec(0, 10, 0x4000, 0x1000, 0, 1, 2, 3, "/bin/app");
    machine.add_custom_sample(10, ExportProcessSample::new(1, 1, 0, 0, 0, 0, 0));
    machine.fork_exec(11, 10);

    let parent = machine.find_process(10).unwrap();
    let child = machine.find_process(11).unwrap();
    assert_eq!(11, child.pid());
    assert_eq!(parent.comm_id(), child.comm_id());
    assert_eq!(1, child.mappings().len());
    assert_eq!(0x4000, child.mappings()[0].start());
    assert!(child.samples().is_empty());
    assert_eq!(1, parent.samples().len());
}

#[test]
fn capture_duration_in_micros() {
    let mut machine = machine();
    machine.mark_end(500, 1000);
    assert_eq!(None, machine.end_qpc());
    assert_eq!(None, machine.duration_micros());
    machine.mark_start_direct(1000);
    machine.mark_end(3500, 1000);
    assert_eq!(Some(1000), machine.start_qpc());
    assert_eq!(Some(3500), machine.end_qpc());
    assert_eq!(Some(2_500_000), machine.duration_micros());
}

#[test]
fn settings_builders() {
    let settings = ExportSettings::new(true)
        .with_string_buckets(8)
        .with_callstack_buckets(16)
        .with_cpu_profiling(99)
        .with_cswitches()
        .with_target_pid(5)
        .with_target_pid(6);
    assert!(settings.has_unwinder());
    assert_eq!(8, settings.string_buckets());
    assert_eq!(16, settings.callstack_buckets());
    assert!(settings.cpu_profiling());
    assert_eq!(99, settings.cpu_freq());
    assert!(settings.cswitches());
    assert_eq!(Some(&vec![5, 6]), settings.target_pids());

    let defaults = ExportSettings::new(false);
    assert_eq!(64, defaults.string_buckets());
    assert_eq!(512, defaults.callstack_buckets());
    assert_eq!(1000, defaults.cpu_freq());
    assert!(!defaults.cpu_profiling() && !defaults.cswitches() && defaults.target_pids().is_none());
}

#[test]
fn same_frames_share_a_callstack() {
    let mut machine = machine();
    let a = machine.make_sample(1, 1, 1, 0, 0, &[0x10, 0x20, 0x30]);
    let b = machine.make_sample(2, 1, 1, 0, 0, &[0x11, 0x20, 0x30]);
    assert_eq!(a.callstack_id(), b.callstack_id());
    assert_eq!((0x10, 0x11), (a.ip(), b.ip()));
    let c = machine.make_sample(3, 1, 1, 0, 0, &[0x10, 0x20]);
    assert_ne!(a.callstack_id(), c.callstack_id());
    assert_eq!(c.callstack_id(), a.callstack_id() + 1);
}

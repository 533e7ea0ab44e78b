use std::collections::HashSet;

use one_collect::exporting::mappings::ExportMapping;
use one_collect::exporting::process::{ExportProcess, ExportProcessSample};
use one_collect::exporting::{ExportDevNode, KERNEL_START};
use one_collect::exporting::symbols::SymbolEntry;
use one_collect::intern::{InternedCallstacks, InternedStrings};

fn new_mapping(time: u64, start: u64, end: u64, id: usize) -> ExportMapping {
    let mut map = ExportMapping::new(time, 0, start, end, 0, false, id);
    map.set_node(ExportDevNode::new(0, id as u64));
    map
}

#[test]
fn find_section() {
    let mut proc = ExportProcess::new(1);
    proc.add_mapping(new_mapping(0, 0, 1023, 1));
    proc.add_mapping(new_mapping(0, 1024, 2047, 2));
    proc.add_mapping(new_mapping(0, 2048, 3071, 3));

    /* Find should work properly */
    let found = proc.find_section(0);
    assert!(found.is_some());
    let found = found.unwrap();
    assert_eq!(1, found.key().ino());

    let found = proc.find_section(512);
    assert!(found.is_some());
    let found = found.unwrap();
    assert_eq!(1, found.key().ino());

    let found = proc.find_section(1024);
    assert!(found.is_some());
    let found = found.unwrap();
    assert_eq!(2, found.key().ino());

    let found = proc.find_section(2000);
    assert!(found.is_some());
    let found = found.unwrap();
    assert_eq!(2, found.key().ino());

    let found = proc.find_section(2048);
    assert!(found.is_some());
    let found = found.unwrap();
    assert_eq!(3, found.key().ino());

    let found = proc.find_section(3071);
    assert!(found.is_some());
    let found = found.unwrap();
    assert_eq!(3, found.key().ino());

    /* Outside all should find none */
    assert!(proc.find_section(3072).is_none());

    /* Should always find latest mapping */
    proc.add_mapping(new_mapping(200, 0, 1023, 4));

    let found = proc.find_section(0);
    assert!(found.is_some());
    let found = found.unwrap();
    assert_eq!(4, found.key().ino());

    proc.add_mapping(new_mapping(100, 10, 1023, 5));

    let found = proc.find_section(10);
    assert!(found.is_some());
    let found = found.unwrap();
    assert_eq!(4, found.key().ino());

    let found = proc.find_section(0);
    assert!(found.is_some());
    let found = found.unwrap();
    assert_eq!(4, found.key().ino());

    proc.add_mapping(new_mapping(300, 20, 1023, 6));

    let found = proc.find_section(0);
    assert!(found.is_some());
    let found = found.unwrap();
    assert_eq!(4, found.key().ino());

    let found = proc.find_section(20);
    assert!(found.is_some());
    let found = found.unwrap();
    assert_eq!(6, found.key().ino());
}

#[test]
fn find_mapping_for_time() {
    let mut proc = ExportProcess::new(1);

    proc.add_mapping(new_mapping(0, 0, 1023, 1));
    proc.add_mapping(new_mapping(0, 1024, 2047, 2));
    proc.add_mapping(new_mapping(0, 2048, 3071, 3));

    /* Find should work properly */
    let found = proc.find_mapping(0, Some(0));
    assert!(found.is_some());
    let found = found.unwrap();
    assert_eq!(1, found.key().ino());

    let found = proc.find_mapping(512, Some(0));
    assert!(found.is_some());
    let found = found.unwrap();
    assert_eq!(1, found.key().ino());

    let found = proc.find_mapping(1024, Some(0));
    assert!(found.is_some());
    let found = found.unwrap();
    assert_eq!(2, found.key().ino());

    let found = proc.find_mapping(2000, Some(0));
    assert!(found.is_some());
    let found = found.unwrap();
    assert_eq!(2, found.key().ino());

    let found = proc.find_mapping(2048, Some(0));
    assert!(found.is_some());
    let found = found.unwrap();
    assert_eq!(3, found.key().ino());

    let found = proc.find_mapping(3071, Some(0));
    assert!(found.is_some());
    let found = found.unwrap();
    assert_eq!(3, found.key().ino());

    /* Outside all should find none */
    assert!(proc.find_mapping(3072, Some(0)).is_none());

    /* Find at times before and after should work */
    proc.add_mapping(new_mapping(200, 0, 1023, 5));
    proc.add_mapping(new_mapping(100, 10, 1023, 4));
    proc.add_mapping(new_mapping(300, 20, 1023, 6));

    let found = proc.find_mapping(0, Some(0));
    assert!(found.is_some());
    let found = found.unwrap();
    assert_eq!(1, found.key().ino());

    let found = proc.find_mapping(10, Some(100));
    assert!(found.is_some());
    let found = found.unwrap();
    assert_eq!(4, found.key().ino());

    let found = proc.find_mapping(0, Some(200));
    assert!(found.is_some());
    let found = found.unwrap();
    assert_eq!(5, found.key().ino());

    let found = proc.find_mapping(20, Some(1024));
    assert!(found.is_some());
    let found = found.unwrap();
    assert_eq!(6, found.key().ino());
}

#[test]
fn unique_kernel_and_user_ips() {
    let mut callstacks = InternedCallstacks::new(8);
    let k1 = KERNEL_START + 1;
    let k2 = KERNEL_START + 2;
    let kid = callstacks.to_id(&[k1, k2, 0x500, KERNEL_START + 9]);
    let uid = callstacks.to_id(&[0x100, 0x200, k2]);

    let mut proc = ExportProcess::new(7);
    proc.add_sample(ExportProcessSample::new(1, 1, 0, 0, 7, kid.ip(), kid.id()));
    proc.add_sample(ExportProcessSample::new(2, 1, 0, 0, 7, uid.ip(), uid.id()));

    let mut addrs = HashSet::new();
    let mut frames = Vec::new();
    proc.get_unique_kernel_ips(&mut addrs, &mut frames, &callstacks);
    let expected: HashSet<u64> = [k1, k2].into_iter().collect();
    assert_eq!(expected, addrs);

    ExportProcess::get_unique_user_ips(proc.samples(), &mut addrs, &mut frames, &callstacks, None);
    let expected: HashSet<u64> = [0x500, 0x100, 0x200].into_iter().collect();
    assert_eq!(expected, addrs);

    let map = new_mapping(0, 0x150, 0x600, 1);
    ExportProcess::get_unique_user_ips(proc.samples(), &mut addrs, &mut frames, &callstacks, Some(&map));
    let expected: HashSet<u64> = [0x500, 0x200].into_iter().collect();
    assert_eq!(expected, addrs);
}

#[test]
fn process_bookkeeping() {
    let mut proc = ExportProcess::new(3);
    assert_eq!(3, proc.pid());
    assert!(proc.comm_id().is_none());
    proc.set_comm_id(9);
    *proc.ns_pid_mut() = Some(44);
    assert_eq!(Some(44), proc.ns_pid());
    assert!(!proc.has_anon_mappings());
    proc.add_mapping(ExportMapping::new(0, 0, 0, 10, 0, true, 1));
    assert!(proc.has_anon_mappings());
    proc.mappings_mut().push(new_mapping(0, 20, 30, 2));
    assert_eq!(2, proc.mappings().len());

    let fork = proc.fork(4);
    assert_eq!(4, fork.pid());
    assert_eq!(Some(9), fork.comm_id());
    assert_eq!(2, fork.mappings().len());
    assert!(fork.samples().is_empty());
}

#[test]
fn anon_symbols_go_to_anon_mappings_only() {
    let mut callstacks = InternedCallstacks::new(8);
    let anon_stack = callstacks.to_id(&[0x1500, 0x1900]);
    let file_stack = callstacks.to_id(&[0x3500]);

    let mut proc = ExportProcess::new(5);
    proc.add_mapping(ExportMapping::new(0, 0, 0x1000, 0x1fff, 0, true, 1));
    proc.add_mapping(ExportMapping::new(0, 0, 0x3000, 0x3fff, 0, false, 2));
    proc.add_sample(ExportProcessSample::new(1, 1, 0, 0, 5, anon_stack.ip(), anon_stack.id()));
    proc.add_sample(ExportProcessSample::new(2, 1, 0, 0, 5, file_stack.ip(), file_stack.id()));

    let symbols = vec![
        SymbolEntry::new(0x1400, 0x1600, "jit_a".to_string()),
        SymbolEntry::new(0x1600, 0x1700, "jit_b".to_string()),
        SymbolEntry::new(0x1900, 0x1910, "jit_c".to_string()),
        SymbolEntry::new(0x3400, 0x3600, "file_fn".to_string()),
    ];
    let mut strings = InternedStrings::new(8);
    let mut addrs = HashSet::new();
    let mut frames = Vec::new();
    proc.add_matching_anon_symbols(&mut addrs, &mut frames, &symbols, &callstacks, &mut strings);

    let anon = &proc.mappings()[0];
    assert_eq!(2, anon.symbols().len());
    assert_eq!((0x1400, 0x1600), (anon.symbols()[0].start(), anon.symbols()[0].end()));
    assert_eq!((0x1900, 0x1910), (anon.symbols()[1].start(), anon.symbols()[1].end()));
    assert_eq!("jit_a", strings.from_id(anon.symbols()[0].name_id()).unwrap());
    assert_eq!("jit_c", strings.from_id(anon.symbols()[1].name_id()).unwrap());
    assert!(proc.mappings()[1].symbols().is_empty());
}

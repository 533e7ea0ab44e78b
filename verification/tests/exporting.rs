use one_collect::exporting::attributes::{
    ExportAttributePair, ExportAttributeValue, ExportAttributeWalker, ExportAttributes,
};
use one_collect::exporting::modulemetadata::{ElfModuleMetadata, ModuleMetadata, ModuleMetadataLookup};
use one_collect::exporting::os::{CpuSamplePairing, ElfBinaryMetadata, ElfBinaryMetadataLookup, OSExportMachine};
use one_collect::exporting::span::ExportSpan;
use one_collect::exporting::ExportDevNode;
use one_collect::intern::InternedStrings;

#[test]
fn attribute_walker() {
    let mut walker = ExportAttributeWalker::default();

    /* Push/Pop should work */
    walker.start();
    walker.push_id(1);
    walker.push_id(2);
    walker.push_id(3);

    assert_eq!(3, walker.pop_id().unwrap());
    assert_eq!(2, walker.pop_id().unwrap());
    assert_eq!(1, walker.pop_id().unwrap());
    assert!(walker.pop_id().is_none());

    /* Prevent cycles */
    walker.start();
    walker.push_id(0);
    walker.push_id(0);
    walker.push_id(0);

    assert!(walker.pop_id().is_some());
    assert!(walker.pop_id().is_none());

    /* Ensure attribute retrieval */
    let mut attributes = ExportAttributes::default();
    attributes.push(ExportAttributePair::new(0, ExportAttributeValue::Value(0)));

    walker.push_attributes(attributes.attributes());
    assert_eq!(1, walker.attributes().len());

    /* Start should reset everything */
    walker.push_id(0);
    walker.push_id(1);
    walker.start();

    assert!(walker.pop_id().is_none());
    assert!(walker.attributes().is_empty());
}

#[test]
fn attribute_pairs_intern_names() {
    let mut strings = InternedStrings::new(8);
    let label = ExportAttributePair::new_label("Name", "Value", &mut strings);
    let value = ExportAttributePair::new_value("Count", 42, &mut strings);

    assert_eq!(Some("Name"), label.name_str(&strings));
    assert_eq!(Some("Value"), label.label_str(&strings));
    assert_eq!(None, label.value());
    assert_eq!(Some("Count"), value.name_str(&strings));
    assert_eq!(Some(42), value.value());
    assert_eq!(None, value.label());
    assert_eq!(None, value.label_str(&strings));
}

#[test]
fn elf_module_metadata_lookup() {
    let mut strings = InternedStrings::new(8);
    let mut metadata_lookup = ModuleMetadataLookup::new();

    let dev_node_1 = ExportDevNode::new(1, 2);
    assert!(!metadata_lookup.contains(&dev_node_1));

    let symbol_file_path = "/path/to/symbol/file";
    let mut metadata = ElfModuleMetadata::new();
    metadata.set_debug_link(Some(String::from(symbol_file_path)), &mut strings);
    metadata_lookup.insert(dev_node_1, ModuleMetadata::Elf(metadata));

    assert!(metadata_lookup.contains(&dev_node_1));
    let result = metadata_lookup.get(&dev_node_1).unwrap();
    match result {
        ModuleMetadata::Elf(metadata) => match metadata.debug_link(&strings) {
            Some(path) => assert_eq!(path, symbol_file_path),
            None => assert!(false),
        },
    }

    let dev_node_2 = ExportDevNode::new(2, 3);
    assert!(!metadata_lookup.contains(&dev_node_2));
    assert!(metadata_lookup.contains(&dev_node_1));
}

#[test]
fn binary_metadata_lookup() {
    let mut metadata_lookup = ElfBinaryMetadataLookup::new();

    let dev_node_1 = ExportDevNode::new(1, 2);
    assert!(!metadata_lookup.contains(&dev_node_1));

    let symbol_file_path = "/path/to/symbol/file";
    let mut entry = ElfBinaryMetadata::new();
    entry.set_debug_link(Some(String::from(symbol_file_path)));
    metadata_lookup.insert(dev_node_1, entry);

    assert!(metadata_lookup.contains(&dev_node_1));
    let result = metadata_lookup.get(&dev_node_1).unwrap();
    match result.debug_link() {
        Some(path) => assert_eq!(path, symbol_file_path),
        None => assert!(false),
    }

    let dev_node_2 = ExportDevNode::new(2, 3);
    assert!(!metadata_lookup.contains(&dev_node_2));
    assert!(metadata_lookup.contains(&dev_node_1));
}

#[test]
fn os_export_machine() {
    let mut machine = OSExportMachine::new();
    assert!(machine.get_global_pid(1).is_none());

    /* Allocating PID should work */
    let global_pid = machine.alloc_global_pid(1);
    assert_eq!(global_pid, machine.get_global_pid(1).unwrap());
    assert_eq!(global_pid, machine.get_or_alloc_global_pid(1));

    /* Allocating inplace should be different */
    let new_global_pid = machine.alloc_global_pid(1);
    assert_ne!(global_pid, new_global_pid);
    assert_eq!(new_global_pid, machine.get_global_pid(1).unwrap());
    assert_eq!(new_global_pid, machine.get_or_alloc_global_pid(1));

    let global_pid = new_global_pid;

    /* Allocating another should be different */
    let new_global_pid = machine.alloc_global_pid(2);
    assert_ne!(global_pid, new_global_pid);
    assert_eq!(new_global_pid, machine.get_global_pid(2).unwrap());
    assert_eq!(new_global_pid, machine.get_or_alloc_global_pid(2));
}

#[test]
fn span_marks_children() {
    let mut span = ExportSpan::start(1, 10, 2);
    span.add_child(ExportSpan::start(2, 12, 0));
    span.mark_last_child_end(15);
    span.mark_end(20);

    assert_eq!(10, span.qpc_duration());
    assert_eq!(1, span.children().len());
    assert_eq!(15, span.children()[0].end_time());
    assert_eq!(3, span.children()[0].qpc_duration());
}

#[test]
fn dev_nodes_compare_by_fields() {
    let a = ExportDevNode::new(1, 2);
    assert!(a.same(&ExportDevNode::new(1, 2)));
    assert!(!a.same(&ExportDevNode::new(1, 3)));
    assert_eq!(1, a.dev());
    assert_eq!(2, a.ino());
}

#[test]
fn page_masks() {
    assert_eq!(0xFFFF_FFFF_FFFF_F000, one_collect::util::page_size_to_mask(4096));
    assert_eq!(u64::MAX, one_collect::util::page_size_to_mask(1));
    assert_eq!(0x1234_5000, 0x1234_5678 & one_collect::util::page_size_to_mask(0x1000));
}

#[test]
fn cpu_samples_pair_with_their_callstacks() {
    let mut pids = OSExportMachine::new();
    let mut pairing = CpuSamplePairing::new();

    // The idle thread's record is not kept.
    pairing.on_profile(10, 0, 1, 0, 0x10);
    assert!(pairing.on_callstack(&mut pids, 10, 0, 4, &[1, 2]).is_none());

    pairing.on_profile(20, 7, 1, 2, 0x20);
    pairing.on_profile(30, 8, 1, 3, 0x30);
    pairing.on_profile(40, 9, 2, 1, 0x40);

    // The callstack of thread 7 at 20 pairs with its record.
    let s = pairing.on_callstack(&mut pids, 20, 7, 100, &[0x20, 0x21]).unwrap();
    assert_eq!((20, 7, 2, 0), (s.time, s.tid, s.cpu, s.pid));
    assert_eq!(vec![0x20, 0x21], s.frames);
    // It is taken: a second callstack finds nothing.
    assert!(pairing.on_callstack(&mut pids, 20, 7, 100, &[0x20]).is_none());
    // Another thread at another time does not match.
    assert!(pairing.on_callstack(&mut pids, 30, 9, 100, &[0x30]).is_none());

    // The rest go to a new "Unknown" process, one frame each.
    let (pid, mut rest) = pairing.flush(&mut pids).unwrap();
    assert_eq!(1, pid);
    rest.sort_by_key(|s| s.time);
    assert_eq!(2, rest.len());
    assert_eq!((30, 8, 3, vec![0x30]), (rest[0].time, rest[0].tid, rest[0].cpu, rest[0].frames.clone()));
    assert_eq!((40, 9, 1, vec![0x40]), (rest[1].time, rest[1].tid, rest[1].cpu, rest[1].frames.clone()));
    assert!(rest.iter().all(|s| s.pid == 1));

    // Once flushed, nothing more is kept.
    pairing.on_profile(50, 7, 1, 0, 0x50);
    assert!(pairing.on_callstack(&mut pids, 50, 7, 100, &[0x50]).is_none());
    assert!(pairing.flush(&mut pids).is_none());
}

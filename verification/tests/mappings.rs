use one_collect::exporting::mappings::{sort_addresses, ExportMapping, ExportMappingLookup};
use one_collect::exporting::symbols::SymbolEntry;
use one_collect::intern::InternedStrings;
use one_collect::exporting::ExportDevNode;
use one_collect::exporting::KERNEL_START;

fn new_map(time: u64, start: u64, end: u64, id: usize) -> ExportMapping {
    ExportMapping::new(time, 0, start, end, 0, false, id)
}

#[test]
fn lookup() {
    let mappings = vec!(
        new_map(0, 0, 1023, 1),
        new_map(0, 2048, 3071, 3),
        new_map(0, 1024, 2047, 2),
        new_map(100, 128, 255, 4),
    );

    let mut lookup = ExportMappingLookup::default();

    for mapping in mappings {
        lookup.mappings_mut().push(mapping);
    }

    /* No Time: Linear */
    lookup.set_lookup_min_size(usize::MAX);
    assert_eq!(1, lookup.find(0, None).unwrap().id());
    assert_eq!(2, lookup.find(1024, None).unwrap().id());
    assert_eq!(3, lookup.find(2048, None).unwrap().id());
    assert_eq!(4, lookup.find(128, None).unwrap().id());

    /* No Time: Lookup */
    lookup.set_lookup_min_size(0);
    assert_eq!(1, lookup.find(0, None).unwrap().id());
    assert_eq!(2, lookup.find(1024, None).unwrap().id());
    assert_eq!(3, lookup.find(2048, None).unwrap().id());
    assert_eq!(4, lookup.find(128, None).unwrap().id());

    /* Time: Linear */
    lookup.set_lookup_min_size(usize::MAX);
    assert_eq!(1, lookup.find(0, Some(0)).unwrap().id());
    assert_eq!(2, lookup.find(1024, Some(0)).unwrap().id());
    assert_eq!(3, lookup.find(2048, Some(0)).unwrap().id());
    assert_eq!(1, lookup.find(128, Some(0)).unwrap().id());
    assert_eq!(4, lookup.find(128, Some(100)).unwrap().id());

    /* Time: Lookup */
    lookup.set_lookup_min_size(0);
    assert_eq!(1, lookup.find(0, Some(0)).unwrap().id());
    assert_eq!(2, lookup.find(1024, Some(0)).unwrap().id());
    assert_eq!(3, lookup.find(2048, Some(0)).unwrap().id());
    assert_eq!(1, lookup.find(128, Some(0)).unwrap().id());
    assert_eq!(4, lookup.find(128, Some(100)).unwrap().id());

    lookup.mappings_mut().push(new_map(200, 0, 3071, 5));

    lookup.set_lookup_min_size(usize::MAX);

    /* No Time: Large span Linear */
    assert_eq!(5, lookup.find(0, None).unwrap().id());
    assert_eq!(5, lookup.find(1024, None).unwrap().id());
    assert_eq!(5, lookup.find(2048, None).unwrap().id());
    assert_eq!(5, lookup.find(128, None).unwrap().id());

    /* Time: Large span Linear */
    assert_eq!(1, lookup.find(0, Some(0)).unwrap().id());
    assert_eq!(2, lookup.find(1024, Some(0)).unwrap().id());
    assert_eq!(3, lookup.find(2048, Some(0)).unwrap().id());
    assert_eq!(1, lookup.find(128, Some(0)).unwrap().id());
    assert_eq!(4, lookup.find(128, Some(100)).unwrap().id());

    assert_eq!(5, lookup.find(0, Some(200)).unwrap().id());
    assert_eq!(5, lookup.find(1024, Some(200)).unwrap().id());
    assert_eq!(5, lookup.find(2048, Some(200)).unwrap().id());
    assert_eq!(5, lookup.find(128, Some(200)).unwrap().id());
    assert_eq!(5, lookup.find(128, Some(200)).unwrap().id());

    lookup.set_lookup_min_size(0);

    /* No Time: Large span Lookup */
    assert_eq!(5, lookup.find(0, None).unwrap().id());
    assert_eq!(5, lookup.find(1024, None).unwrap().id());
    assert_eq!(5, lookup.find(2048, None).unwrap().id());
    assert_eq!(5, lookup.find(128, None).unwrap().id());

    /* Time: Large span Lookup */
    assert_eq!(1, lookup.find(0, Some(0)).unwrap().id());
    assert_eq!(2, lookup.find(1024, Some(0)).unwrap().id());
    assert_eq!(3, lookup.find(2048, Some(0)).unwrap().id());
    assert_eq!(1, lookup.find(128, Some(0)).unwrap().id());
    assert_eq!(4, lookup.find(128, Some(100)).unwrap().id());

    assert_eq!(5, lookup.find(0, Some(200)).unwrap().id());
    assert_eq!(5, lookup.find(1024, Some(200)).unwrap().id());
    assert_eq!(5, lookup.find(2048, Some(200)).unwrap().id());
    assert_eq!(5, lookup.find(128, Some(200)).unwrap().id());
    assert_eq!(5, lookup.find(128, Some(200)).unwrap().id());
}

#[test]
fn file_to_va() {
    let start = 4096;
    let end = start + 4096;
    let file_offset = 1024;

    let mapping = ExportMapping::new(0, 0, start, end, file_offset, false, 0);

    /* Simple in range case: start */
    let va_range = mapping.file_to_va_range(1024, 1096).unwrap();
    assert_eq!((start, start + 72), va_range);

    /* Simple in range case: middle */
    let va_range = mapping.file_to_va_range(1096, 2048).unwrap();
    assert_eq!((start + 72, start + 72 + 952), va_range);

    /* Entirely out of range cases */
    assert!(mapping.file_to_va_range(end, end+1).is_none());
    assert!(mapping.file_to_va_range(0, 1023).is_none());

    /* Partial start case */
    let va_range = mapping.file_to_va_range(956, 1096).unwrap();
    assert_eq!((start, start + 72), va_range);

    /* Partial end case */
    let va_range = mapping.file_to_va_range(1096, 9216).unwrap();
    assert_eq!((start + 72, end), va_range);
}

#[test]
fn anonymous_and_kernel_ranges_pass_through() {
    let anon = ExportMapping::new(0, 0, 4096, 8192, 0, true, 0);
    assert_eq!(Some((1, 2)), anon.file_to_va_range(1, 2));
    let kernel = ExportMapping::new(0, 0, KERNEL_START, KERNEL_START + 10, 0, false, 0);
    assert_eq!(Some((3, 4)), kernel.file_to_va_range(3, 4));
}

#[test]
fn mapping_accessors() {
    let mut map = ExportMapping::new(7, 3, 100, 200, 50, false, 9);
    assert_eq!(7, map.time());
    assert_eq!(3, map.filename_id());
    assert_eq!(100, map.len());
    assert_eq!(50, map.file_offset());
    assert!(map.contains_ip(100));
    assert!(map.contains_ip(200));
    assert!(!map.contains_ip(201));
    assert_eq!(60, map.rva(110));
    assert_eq!((0, 0), (map.key().dev(), map.key().ino()));
    map.set_node(ExportDevNode::new(4, 5));
    assert_eq!((4, 5), (map.key().dev(), map.key().ino()));
    assert!(map.node().is_some());
    assert!(map.symbols().is_empty());
}

#[test]
fn lookup_end_address_differs_from_scan() {
    let mut lookup = ExportMappingLookup::default();
    lookup.mappings_mut().push(new_map(0, 0, 1023, 1));
    lookup.mappings_mut().push(new_map(0, 1023, 2047, 2));

    /* A scan holds the end address inclusive and keeps the first */
    lookup.set_lookup_min_size(usize::MAX);
    assert_eq!(1, lookup.find(1023, None).unwrap().id());
    assert!(lookup.find(5000, None).is_none());

    /* The lookup has closed the first mapping at its end address */
    lookup.set_lookup_min_size(0);
    assert_eq!(2, lookup.find(1023, None).unwrap().id());
    assert_eq!(1, lookup.find(1022, None).unwrap().id());
    assert!(lookup.find(5000, None).is_none());

    let copy = lookup.clone();
    assert_eq!(2, copy.mappings().len());
}

#[test]
fn sort_addresses_orders_and_keeps_duplicates() {
    let mut ips = vec![5u64, 1, 9, 1, 0];
    sort_addresses(&mut ips);
    assert_eq!(vec![0u64, 1, 1, 5, 9], ips);
}

#[test]
fn add_matching_symbols_keeps_hit_ranges() {
    let mut mapping = ExportMapping::new(0, 0, 0x1000, 0x1fff, 0, false, 1);
    let mut strings = InternedStrings::new(8);
    let mut ips = vec![0x1300u64, 0x1110, 0x1000, 0x1fff];
    let symbols = vec![
        SymbolEntry::new(0x000, 0x010, "a".to_string()),
        SymbolEntry::new(0x100, 0x120, "b".to_string()),
        SymbolEntry::new(0x200, 0x210, "c".to_string()),
        SymbolEntry::new(0x5000, 0x6000, "d".to_string()),
        SymbolEntry::new(0x300, 0x310, "a".to_string()),
    ];

    mapping.add_matching_symbols(&mut ips, &symbols, &mut strings);

    assert_eq!(vec![0x1000u64, 0x1110, 0x1300, 0x1fff], ips);
    let added = mapping.symbols();
    assert_eq!(3, added.len());
    assert_eq!((0x1000, 0x1010), (added[0].start(), added[0].end()));
    assert_eq!((0x1100, 0x1120), (added[1].start(), added[1].end()));
    assert_eq!((0x1300, 0x1310), (added[2].start(), added[2].end()));
    assert_eq!(added[0].name_id(), added[2].name_id());
    assert_eq!("a", strings.from_id(added[0].name_id()).unwrap());
    assert_eq!("b", strings.from_id(added[1].name_id()).unwrap());
}

#[test]
fn add_matching_symbols_without_hits_adds_nothing() {
    let mut mapping = ExportMapping::new(0, 0, 0x1000, 0x1fff, 0, false, 1);
    let mut strings = InternedStrings::new(8);
    let mut ips: Vec<u64> = vec![0x3000];
    let symbols = vec![SymbolEntry::new(0x000, 0x010, "a".to_string())];
    mapping.add_matching_symbols(&mut ips, &symbols, &mut strings);
    assert!(mapping.symbols().is_empty());
}

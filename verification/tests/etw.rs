use one_collect::etw::{
    comm, guid_from_tracelogging_name, mmap, read_utf16_at, AncillaryData, EventRecordData,
    ExtendedDataItem, ProviderGuidError, EXT_TYPE_STACK_TRACE64,
};
use one_collect::guid::parse_guid_literal;
use one_collect::Guid;
use one_collect::event::LocationType;
use one_collect::etw::KernelCallstacks;

#[test]
fn read_utf16_at_basic() {
    let buf: Vec<u8> = vec![0xFF, 0xFF, b'A', 0, b'B', 0, 0, 0];
    assert_eq!(read_utf16_at(&buf, 2), "AB");
}

#[test]
fn read_utf16_at_zero_offset() {
    assert_eq!(read_utf16_at(&[0x41, 0x00, 0x00, 0x00], 0), "");
}

#[test]
fn read_utf16_at_out_of_bounds() {
    assert_eq!(read_utf16_at(&[0x41, 0x00], 100), "");
}

#[test]
fn tracelogging_invalid_guid_literal_errors() {
    // A `{...}` that isn't valid hex is a real error, not a silent hash.
    assert!(guid_from_tracelogging_name("{not-a-guid}").is_err());
}

#[test]
fn tracelogging_guid_literal_is_parsed_verbatim() {
    let guid = guid_from_tracelogging_name("{E13C0D23-CCBC-4E12-931B-D9CC2EEE27E4}").unwrap();
    assert_eq!(
        guid.to_bytes(),
        Guid::from_u128(0xE13C0D23_CCBC_4E12_931B_D9CC2EEE27E4).to_bytes());
}

const KNOWN_NAME: &str = "OneCollect-Test-Provider";
const KNOWN_GUID: u128 = 0xB03CBD70_B6F7_5552_04A1_A17A1FE5F1A4;

#[test]
fn tracelogging_name_hashes_to_known_guid() {
    let guid = guid_from_tracelogging_name(KNOWN_NAME).unwrap();
    assert_eq!(guid.to_bytes(), Guid::from_u128(KNOWN_GUID).to_bytes());
}

#[test]
fn tracelogging_name_is_case_insensitive() {
    let upper = guid_from_tracelogging_name(&KNOWN_NAME.to_uppercase()).unwrap();
    let lower = guid_from_tracelogging_name(&KNOWN_NAME.to_lowercase()).unwrap();
    assert_eq!(upper.to_bytes(), Guid::from_u128(KNOWN_GUID).to_bytes());
    assert_eq!(lower.to_bytes(), Guid::from_u128(KNOWN_GUID).to_bytes());
}

#[test]
fn tracelogging_empty_literal_errors() {
    assert_eq!(
        Err(ProviderGuidError::InvalidLiteral),
        guid_from_tracelogging_name("{}").map(|g| g.to_bytes()));
}

#[test]
fn guid_literal_forms() {
    let plain = parse_guid_literal("e13c0d23ccbc4e12931bd9cc2eee27e4").unwrap();
    let dashed = parse_guid_literal(" {E13C0D23-CCBC-4E12-931B-D9CC2EEE27E4} ").unwrap();
    assert_eq!(plain.to_bytes(), dashed.to_bytes());
    assert!(parse_guid_literal("").is_none());
    assert!(parse_guid_literal("{xyz}").is_none());
}

fn guid(n: u128) -> Guid {
    Guid::from_u128(n)
}

#[test]
fn ancillary_data_reads_event() {
    let mut ancillary = AncillaryData::new();
    assert_eq!(0, ancillary.cpu());
    assert_eq!(0, ancillary.time());

    let mut frames_data = Vec::new();
    frames_data.extend_from_slice(&7u64.to_le_bytes());
    frames_data.extend_from_slice(&0x1000u64.to_le_bytes());
    frames_data.extend_from_slice(&0x2000u64.to_le_bytes());

    ancillary.set_event(Some(EventRecordData {
        cpu: 3,
        pid: 4,
        tid: 5,
        time: 6,
        provider: guid(1),
        activity: guid(2),
        version: 9,
        extended: vec![ExtendedDataItem { ext_type: EXT_TYPE_STACK_TRACE64, data: frames_data }],
    }));

    assert_eq!(3, ancillary.cpu());
    assert_eq!(4, ancillary.pid());
    assert_eq!(5, ancillary.tid());
    assert_eq!(6, ancillary.time());
    assert_eq!(9, ancillary.version());
    assert_eq!(guid(1).to_bytes(), ancillary.provider().to_bytes());
    assert_eq!(guid(2).to_bytes(), ancillary.activity().to_bytes());
    assert_eq!(Some(0), ancillary.find_ext(EXT_TYPE_STACK_TRACE64));

    let mut frames = vec![1u64];
    let mut match_id = 0u64;
    assert!(ancillary.callstack(&mut frames, &mut match_id));
    assert_eq!(vec![1u64, 0x1000, 0x2000], frames);
    assert_eq!(7, match_id);
}

#[test]
fn kernel_event_schemas() {
    let e = comm(1, "Process");
    assert_eq!(1, e.id());
    assert_eq!("Process", e.name());
    assert!(e.format().get_field_ref("ProcessId").is_some());

    let e = mmap(2, "Image");
    assert_eq!(2, e.id());
    assert!(e.format().get_field_ref("FileName").is_some());
}

#[test]
fn image_load_event_layout() {
    let e = mmap(5, "Image");
    assert_eq!(5, e.id());
    assert_eq!("Image", e.name());
    assert!(e.has_no_callstack_flag());
    let layout: Vec<(&str, usize, usize)> = e
        .format()
        .fields()
        .iter()
        .map(|f| (f.name.as_str(), f.offset, f.size))
        .collect();
    assert_eq!(
        vec![
            ("ImageBase", 0, 4),
            ("ImageSize", 4, 4),
            ("ProcessId", 8, 4),
            ("ImageCheckSum", 12, 4),
            ("TimeDateStamp", 16, 4),
            ("DefaultBase", 24, 4),
            ("FileName", 44, 0),
        ],
        layout
    );
    assert_eq!(LocationType::StaticUTF16String, e.format().fields()[6].location);
}

#[test]
fn read_utf16_lossy_pairs_and_lone_surrogates() {
    // "A", a surrogate pair for U+1F600, a lone high surrogate, "B", NUL.
    let units: [u16; 6] = [0x41, 0xD83D, 0xDE00, 0xD800, 0x42, 0];
    let mut buf: Vec<u8> = vec![0, 0];
    for u in units.iter() {
        buf.extend_from_slice(&u.to_le_bytes());
    }
    assert_eq!("A\u{1F600}\u{FFFD}B", read_utf16_at(&buf, 2));
}

#[test]
fn kernel_callstacks_ignore_garbage_and_duplicates() {
    let mut k = KernelCallstacks::new();
    assert!(!k.needs_kernel_callstacks());
    k.add(guid(1), 256);
    assert!(!k.needs_kernel_callstacks());
    k.add(guid(1), 10);
    k.add(guid(1), 10);
    k.add(guid(2), 10);
    k.add(guid(1), 11);
    assert!(k.needs_kernel_callstacks());
    let events: Vec<(u32, u8)> = k.events().iter().map(|(g, t)| (g.data1, *t)).collect();
    assert_eq!(3, events.len());
    assert_eq!(10, events[0].1);
    assert_eq!(11, events[2].1);
}

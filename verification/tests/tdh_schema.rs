use one_collect::etw::tdh::{
    build_cached_schema, schema_source, walk_properties, EventInformation, ManifestEventKey,
    PropertyInfo, SchemaId, SchemaSource, TdhDecodeError, TdhDecoder, DECODING_SOURCE_TLG,
    DECODING_SOURCE_XML_FILE,
    PROPERTY_PARAM_COUNT, PROPERTY_PARAM_LENGTH, PROPERTY_STRUCT, TDH_INTYPE_ANSISTRING,
    TDH_INTYPE_BINARY, TDH_INTYPE_DOUBLE, TDH_INTYPE_UINT16, TDH_INTYPE_UINT32,
    TDH_INTYPE_UINT64, TDH_INTYPE_UINT8,
};
use one_collect::event::{EventFormat, LocationType};
use one_collect::Guid;

fn leaf(name: &str, in_type: i32) -> PropertyInfo {
    PropertyInfo {
        name: name.to_string(),
        flags: 0,
        in_type: in_type as u16,
        struct_start_index: 0,
        num_struct_members: 0,
        count: 1,
        length: 0,
    }
}

fn structure(name: &str, start: u16, members: u16) -> PropertyInfo {
    PropertyInfo {
        name: name.to_string(),
        flags: PROPERTY_STRUCT,
        in_type: start,
        struct_start_index: start,
        num_struct_members: members,
        count: 1,
        length: 0,
    }
}

fn field_tuple(format: &EventFormat, i: usize) -> (String, String, LocationType, usize, usize) {
    let f = &format.fields()[i];
    (f.name.clone(), f.type_str.clone(), f.location, f.offset, f.size)
}

#[test]
fn schema_of_scalars_has_running_offsets() {
    let props = vec![
        leaf("Code", TDH_INTYPE_UINT32),
        leaf("Value", TDH_INTYPE_DOUBLE),
        leaf("Count", TDH_INTYPE_UINT64),
    ];
    let schema = build_cached_schema("MultiScalar".to_string(), &props, 3, false).unwrap();
    assert_eq!("MultiScalar", schema.event_name);
    assert_eq!(SchemaId(0), schema.schema_id);
    let fields = schema.format.fields();
    assert_eq!(3, fields.len());
    assert_eq!(("Code".to_string(), "u32".to_string(), LocationType::Static, 0, 4), field_tuple(&schema.format, 0));
    assert_eq!(("Value".to_string(), "double".to_string(), LocationType::Static, 4, 8), field_tuple(&schema.format, 1));
    assert_eq!(("Count".to_string(), "u64".to_string(), LocationType::Static, 12, 8), field_tuple(&schema.format, 2));
}

#[test]
fn offsets_are_zero_after_a_string() {
    let props = vec![
        leaf("Id", TDH_INTYPE_UINT32),
        leaf("Message", TDH_INTYPE_ANSISTRING),
        leaf("Flags", TDH_INTYPE_UINT32),
    ];
    let schema = build_cached_schema("WithString".to_string(), &props, 3, false).unwrap();
    assert_eq!(("Id".to_string(), "u32".to_string(), LocationType::Static, 0, 4), field_tuple(&schema.format, 0));
    assert_eq!(
        ("Message".to_string(), "string".to_string(), LocationType::StaticString, 4, 0),
        field_tuple(&schema.format, 1)
    );
    assert_eq!(("Flags".to_string(), "u32".to_string(), LocationType::Static, 0, 4), field_tuple(&schema.format, 2));
}

#[test]
fn structures_are_flattened_with_dotted_names() {
    let props = vec![
        structure("Hdr", 2, 2),
        leaf("Tail", TDH_INTYPE_UINT8),
        leaf("A", TDH_INTYPE_UINT16),
        leaf("", TDH_INTYPE_UINT8),
    ];
    let schema = build_cached_schema("Nested".to_string(), &props, 2, false).unwrap();
    assert_eq!(3, schema.format.fields().len());
    assert_eq!(("Hdr.A".to_string(), "u16".to_string(), LocationType::Static, 0, 2), field_tuple(&schema.format, 0));
    assert_eq!(("Hdr.field3".to_string(), "u8".to_string(), LocationType::Static, 2, 1), field_tuple(&schema.format, 1));
    assert_eq!(("Tail".to_string(), "u8".to_string(), LocationType::Static, 3, 1), field_tuple(&schema.format, 2));
}

#[test]
fn arrays_and_explicit_lengths() {
    let mut array = leaf("Items", TDH_INTYPE_UINT32);
    array.flags = PROPERTY_PARAM_COUNT;
    array.count = 3;
    let mut blob = leaf("Blob", TDH_INTYPE_BINARY);
    blob.length = 6;
    let mut param_len = leaf("Sized", TDH_INTYPE_BINARY);
    param_len.flags = PROPERTY_PARAM_LENGTH;
    param_len.length = 1;
    let props = vec![blob, array, param_len];

    let schema = build_cached_schema("Mixed".to_string(), &props, 3, true).unwrap();
    assert_eq!(("Blob".to_string(), "binary".to_string(), LocationType::Static, 0, 6), field_tuple(&schema.format, 0));
    assert_eq!(
        ("Items".to_string(), "unsupported".to_string(), LocationType::Static, 6, 0),
        field_tuple(&schema.format, 1)
    );
    assert_eq!(("Sized".to_string(), "binary".to_string(), LocationType::Static, 0, 0), field_tuple(&schema.format, 2));
}

#[test]
fn no_properties_gives_no_fields() {
    let schema = build_cached_schema("Empty".to_string(), &[], 5, false).unwrap();
    assert!(schema.format.fields().is_empty());
    assert_eq!("Empty", schema.event_name);
}

#[test]
fn property_index_out_of_bounds_is_malformed() {
    let props = vec![leaf("Only", TDH_INTYPE_UINT32)];
    match build_cached_schema("Bad".to_string(), &props, 2, false) {
        Err(e) => {
            assert_eq!(TdhDecodeError::Malformed("property index out of bounds"), e);
            assert_eq!("malformed TRACE_EVENT_INFO: property index out of bounds", e.message());
        },
        Ok(_) => panic!("expected an error"),
    }
}

#[test]
fn self_nested_structure_exceeds_depth() {
    let props = vec![structure("Loop", 0, 1)];
    let mut format = EventFormat::new();
    let mut offset = 0usize;
    let mut seen = false;
    let r = walk_properties(&props, 0, 1, "", &mut format, &mut offset, &mut seen, false, 0);
    assert_eq!(Err(TdhDecodeError::Malformed("struct nesting depth exceeded")), r);
    assert!(format.fields().is_empty());
}

#[test]
fn walk_continues_from_given_state() {
    let props = vec![leaf("X", TDH_INTYPE_UINT32)];
    let mut format = EventFormat::new();
    let mut offset = 10usize;
    let mut seen = false;
    walk_properties(&props, 0, 1, "Outer", &mut format, &mut offset, &mut seen, false, 0).unwrap();
    assert_eq!(14, offset);
    assert!(!seen);
    assert_eq!(("Outer.X".to_string(), "u32".to_string(), LocationType::Static, 10, 4), field_tuple(&format, 0));
}

fn utf16z(s: &str) -> Vec<u8> {
    let mut v = Vec::new();
    for u in s.encode_utf16() {
        v.extend_from_slice(&u.to_le_bytes());
    }
    v.extend_from_slice(&[0, 0]);
    v
}

fn information(decoding_source: i32, props: Vec<PropertyInfo>) -> EventInformation {
    let mut buffer = vec![0u8; 4];
    let event_name_offset = buffer.len() as u32;
    buffer.extend_from_slice(&utf16z("EventName"));
    let task_name_offset = buffer.len() as u32;
    buffer.extend_from_slice(&utf16z("TaskName"));
    let top_level_count = props.len() as u32;
    EventInformation { buffer, decoding_source, event_name_offset, task_name_offset, properties: props, top_level_count }
}

fn key(id: u16) -> ManifestEventKey {
    ManifestEventKey { provider: Guid::from_u128(0x1122_3344_5566_7788_99AA_BBCC_DDEE_FF00), id, version: 1 }
}

#[test]
fn schema_sources_are_classified() {
    assert!(matches!(schema_source(Some(&[1, 2]), true, key(1)), Ok(SchemaSource::TraceLogging(ref b)) if b == &vec![1u8, 2]));
    assert!(matches!(schema_source(Some(&[]), true, key(1)), Err(TdhDecodeError::Unsupported)));
    assert!(matches!(schema_source(None, true, key(1)), Err(TdhDecodeError::Unsupported)));
    assert!(matches!(schema_source(None, false, key(3)), Ok(SchemaSource::Manifest(k)) if k.id == 3));
}

#[test]
fn decoder_caches_tracelogging_schemas_with_ids() {
    let mut decoder = TdhDecoder::new();
    let source = SchemaSource::TraceLogging(vec![9, 9]);
    assert_eq!(Ok(None), decoder.lookup_cached(&source, false));
    let idx = decoder
        .decode_miss(source, false, Ok(information(DECODING_SOURCE_TLG, vec![leaf("A", TDH_INTYPE_UINT32)])))
        .unwrap();
    assert_eq!(0, idx);
    let source = SchemaSource::TraceLogging(vec![9, 9]);
    assert_eq!(Ok(Some(0)), decoder.lookup_cached(&source, false));
    assert_eq!(Ok(None), decoder.lookup_cached(&source, true));
    let schema = decoder.cache().get(idx);
    assert_eq!("EventName", schema.event_name);
    assert_eq!(SchemaId(0), schema.schema_id);
    assert_eq!(1, schema.format.fields().len());

    let other = SchemaSource::TraceLogging(vec![7]);
    let idx = decoder.decode_miss(other, true, Ok(information(DECODING_SOURCE_TLG, vec![]))).unwrap();
    assert_eq!(1, idx);
    assert_eq!(SchemaId(1), decoder.cache().get(idx).schema_id);
}

#[test]
fn decoder_manifest_paths() {
    let mut decoder = TdhDecoder::new();

    let not_found = decoder.decode_miss(SchemaSource::Manifest(key(1)), false, Err(TdhDecodeError::NotFound));
    assert_eq!(Err(TdhDecodeError::NotFound), not_found);
    assert_eq!(Ok(None), decoder.lookup_cached(&SchemaSource::Manifest(key(1)), false));

    let wpp = decoder.decode_miss(SchemaSource::Manifest(key(2)), false, Ok(information(2, vec![])));
    assert_eq!(Err(TdhDecodeError::Unsupported), wpp);
    assert_eq!(Err(TdhDecodeError::Unsupported), decoder.lookup_cached(&SchemaSource::Manifest(key(2)), true));

    let idx = decoder
        .decode_miss(SchemaSource::Manifest(key(3)), false, Ok(information(DECODING_SOURCE_XML_FILE, vec![])))
        .unwrap();
    assert_eq!("TaskName", decoder.cache().get(idx).event_name);
    assert_eq!(SchemaId(0), decoder.cache().get(idx).schema_id);
    assert_eq!(Ok(Some(idx)), decoder.lookup_cached(&SchemaSource::Manifest(key(3)), false));
}

#[test]
fn decoder_reports_malformed_schemas() {
    let mut decoder = TdhDecoder::new();
    let mut info = information(DECODING_SOURCE_TLG, vec![leaf("A", TDH_INTYPE_UINT32)]);
    info.top_level_count = 2;
    let r = decoder.decode_miss(SchemaSource::TraceLogging(vec![1]), false, Ok(info));
    assert_eq!(Err(TdhDecodeError::Malformed("property index out of bounds")), r);
    assert_eq!(0, decoder.cache().len());
    assert_eq!(Ok(None), decoder.lookup_cached(&SchemaSource::TraceLogging(vec![1]), false));
}

#[test]
fn decoder_gives_one_schema_id_per_source_and_width() {
    let mut decoder = TdhDecoder::new();
    let a64 = decoder
        .decode_miss(SchemaSource::TraceLogging(vec![5, 6]), false, Ok(information(DECODING_SOURCE_TLG, vec![])))
        .unwrap();
    let a32 = decoder
        .decode_miss(SchemaSource::TraceLogging(vec![5, 6]), true, Ok(information(DECODING_SOURCE_TLG, vec![])))
        .unwrap();
    let b64 = decoder
        .decode_miss(SchemaSource::TraceLogging(vec![5, 7]), false, Ok(information(DECODING_SOURCE_TLG, vec![])))
        .unwrap();
    let m = decoder
        .decode_miss(SchemaSource::Manifest(key(4)), false, Ok(information(DECODING_SOURCE_XML_FILE, vec![])))
        .unwrap();
    let ids: Vec<SchemaId> = [a64, a32, b64, m].iter().map(|&i| decoder.cache().get(i).schema_id).collect();
    assert_eq!(vec![SchemaId(0), SchemaId(1), SchemaId(2), SchemaId(3)], ids);
    assert_eq!(Ok(Some(a64)), decoder.lookup_cached(&SchemaSource::TraceLogging(vec![5, 6]), false));
    assert_eq!(Ok(Some(a32)), decoder.lookup_cached(&SchemaSource::TraceLogging(vec![5, 6]), true));
    assert_eq!(Ok(Some(m)), decoder.lookup_cached(&SchemaSource::Manifest(key(4)), false));
}

use one_collect::etw::tdh::{
    intype_to_field_info, intype_to_type_name, CachedSchema, ManifestEventKey, SchemaCache, SchemaId,
    TdhDecodeError, TDH_INTYPE_ANSISTRING, TDH_INTYPE_BINARY, TDH_INTYPE_BOOLEAN,
    TDH_INTYPE_COUNTEDANSISTRING, TDH_INTYPE_COUNTEDSTRING, TDH_INTYPE_DOUBLE, TDH_INTYPE_GUID,
    TDH_INTYPE_INT8, TDH_INTYPE_NONNULLTERMINATEDANSISTRING, TDH_INTYPE_NONNULLTERMINATEDSTRING,
    TDH_INTYPE_POINTER, TDH_INTYPE_REVERSEDCOUNTEDANSISTRING, TDH_INTYPE_REVERSEDCOUNTEDSTRING,
    TDH_INTYPE_UINT32, TDH_INTYPE_UINT8, TDH_INTYPE_UNICODESTRING,
};
use one_collect::event::{EventFormat, LocationType};
use one_collect::Guid;

#[test]
fn type_name_scalars() {
    assert_eq!(intype_to_type_name(TDH_INTYPE_INT8), "s8");
    assert_eq!(intype_to_type_name(TDH_INTYPE_UINT8), "u8");
    assert_eq!(intype_to_type_name(TDH_INTYPE_UINT32), "u32");
    assert_eq!(intype_to_type_name(TDH_INTYPE_DOUBLE), "double");
    assert_eq!(intype_to_type_name(TDH_INTYPE_GUID), "guid");
    assert_eq!(intype_to_type_name(TDH_INTYPE_UNICODESTRING), "wstring");
    assert_eq!(intype_to_type_name(TDH_INTYPE_ANSISTRING), "string");
    assert_eq!(intype_to_type_name(TDH_INTYPE_BINARY), "binary");
    assert_eq!(intype_to_type_name(999), "unsupported");
}

#[test]
fn type_name_boolean_is_u32() {
    assert_eq!(intype_to_type_name(TDH_INTYPE_BOOLEAN), "u32");
    let (name, loc, size) = intype_to_field_info(TDH_INTYPE_BOOLEAN, false);
    assert_eq!(name, "u32");
    assert_eq!(loc, LocationType::Static);
    assert_eq!(size, 4);
}

#[test]
fn type_name_extended_strings() {
    // Counted string variants (2-byte length prefix)
    assert_eq!(intype_to_type_name(TDH_INTYPE_COUNTEDSTRING), "counted_wstring");
    assert_eq!(intype_to_type_name(TDH_INTYPE_COUNTEDANSISTRING), "counted_string");
    // Reversed-counted → null-scan fallback
    assert_eq!(intype_to_type_name(TDH_INTYPE_REVERSEDCOUNTEDSTRING), "wstring");
    assert_eq!(intype_to_type_name(TDH_INTYPE_REVERSEDCOUNTEDANSISTRING), "string");
    // Non-null-terminated → null-scan fallback
    assert_eq!(intype_to_type_name(TDH_INTYPE_NONNULLTERMINATEDSTRING), "wstring");
    assert_eq!(intype_to_type_name(TDH_INTYPE_NONNULLTERMINATEDANSISTRING), "string");
}

#[test]
fn pointer_size_follows_payload_width() {
    assert_eq!(("pointer", LocationType::Static, 4), intype_to_field_info(TDH_INTYPE_POINTER, true));
    assert_eq!(("pointer", LocationType::Static, 8), intype_to_field_info(TDH_INTYPE_POINTER, false));
    assert_eq!(
        ("counted_wstring", LocationType::StaticLenPrefixArray, 0),
        intype_to_field_info(TDH_INTYPE_COUNTEDSTRING, true));
}

fn mk(name: &str) -> CachedSchema {
    CachedSchema {
        event_name: name.to_string(),
        format: EventFormat::new(),
        schema_id: SchemaId(0),
    }
}

#[test]
fn manifest_cache_shared_arena_and_pointer_split() {
    let key = ManifestEventKey {
        provider: Guid::from_u128(0x1122_3344_5566_7788_99AA_BBCC_DDEE_FF00),
        id: 5,
        version: 2,
    };

    let mut cache = SchemaCache::new();

    // 64-bit insert, then hit.
    let idx_a = cache.insert_manifest(key, false, mk("A"));
    assert_eq!(cache.index_of_manifest(&key, false), Some(idx_a));

    // The 32-bit map is a separate keyspace: same key misses there.
    assert_eq!(cache.index_of_manifest(&key, true), None);
    let idx_b = cache.insert_manifest(key, true, mk("B"));
    assert_ne!(idx_a, idx_b, "32-/64-bit split must yield distinct slots");

    // TraceLogging shares the arena but is indexed separately.
    let tl_idx = cache.insert_tl(vec![1, 2, 3], false, mk("C"));
    assert_ne!(tl_idx, idx_a);
    assert_ne!(tl_idx, idx_b);
    assert_eq!(cache.index_of_tl(&[1, 2, 3], false), Some(tl_idx));

    // Each index reads back its own schema — no cross-source aliasing.
    assert_eq!(cache.get(idx_a).event_name, "A");
    assert_eq!(cache.get(idx_b).event_name, "B");
    assert_eq!(cache.get(tl_idx).event_name, "C");

    // A duplicate manifest insert returns the existing index and drops
    // the freshly built schema (no arena orphan).
    let before = cache.len();
    assert_eq!(cache.insert_manifest(key, false, mk("dup")), idx_a);
    assert_eq!(cache.len(), before, "duplicate must not grow arena");
    assert_eq!(cache.get(idx_a).event_name, "A", "existing schema preserved");
}

#[test]
fn manifest_unsupported_negative_cache() {
    let key = ManifestEventKey {
        provider: Guid::from_u128(0x0011_2233_4455_6677_8899_AABB_CCDD_EEFF),
        id: 7,
        version: 1,
    };
    let other = ManifestEventKey {
        provider: key.provider,
        id: 8,
        version: 1,
    };

    let mut cache = SchemaCache::new();
    assert!(!cache.is_manifest_unsupported(&key));

    cache.mark_manifest_unsupported(key);
    assert!(cache.is_manifest_unsupported(&key), "marked key must report unsupported");
    assert!(!cache.is_manifest_unsupported(&other), "distinct key unaffected");

    // Marking is not a positive-cache entry: index lookups still miss.
    assert_eq!(cache.index_of_manifest(&key, false), None);
    assert_eq!(cache.index_of_manifest(&key, true), None);
}

#[test]
fn insert_tl_duplicate_key_returns_existing_index() {
    let mut cache = SchemaCache::new();

    let idx = cache.insert_tl(vec![9, 8, 7], false, mk("first"));
    assert_eq!(cache.index_of_tl(&[9, 8, 7], false), Some(idx));

    // Duplicate insert returns the existing index and drops the freshly
    // built schema — the arena must not grow.
    let before = cache.len();
    assert_eq!(cache.insert_tl(vec![9, 8, 7], false, mk("dup")), idx);
    assert_eq!(cache.len(), before, "duplicate must not grow arena");
    assert_eq!(cache.get(idx).event_name, "first", "existing schema preserved");

    // The 32-bit map is a separate keyspace: the same bytes miss there.
    assert_eq!(cache.index_of_tl(&[9, 8, 7], true), None);
}

#[test]
fn manifest_keys_differ_in_guid_tail() {
    let a = ManifestEventKey { provider: Guid::from_u128(1), id: 1, version: 1 };
    let b = ManifestEventKey { provider: Guid::from_u128(2), id: 1, version: 1 };
    let mut cache = SchemaCache::new();
    let ia = cache.insert_manifest(a, false, mk("a"));
    let ib = cache.insert_manifest(b, false, mk("b"));
    assert_ne!(ia, ib);
    assert_eq!(Some(ib), cache.index_of_manifest(&b, false));
}

#[test]
fn decode_error_messages() {
    assert_eq!("no decodable schema found for event", TdhDecodeError::NotFound.message());
    assert_eq!("event schema source is not supported", TdhDecodeError::Unsupported.message());
    assert_eq!(
        "TdhGetEventInformation failed with Win32 error 1168",
        TdhDecodeError::Win32(1168).message());
    assert_eq!(
        "malformed TRACE_EVENT_INFO: too small",
        TdhDecodeError::Malformed("too small").message());
}

use one_collect::{guid_from_provider_name_hash, Guid, PathBufInteger};

const NS: &[u8] = b"one_collect test namespace";

#[test]
fn v5_from_name_is_deterministic() {
    assert_eq!(
        Guid::v5_from_name(NS, b"record-trace").to_bytes(),
        Guid::v5_from_name(NS, b"record-trace").to_bytes());
}

#[test]
fn v5_from_name_distinct_names_distinct_guids() {
    assert_ne!(
        Guid::v5_from_name(NS, b"session-a").to_bytes(),
        Guid::v5_from_name(NS, b"session-b").to_bytes());
}

#[test]
fn v5_from_name_distinct_namespaces_distinct_guids() {
    assert_ne!(
        Guid::v5_from_name(b"namespace-a", b"same-name").to_bytes(),
        Guid::v5_from_name(b"namespace-b", b"same-name").to_bytes());
}

#[test]
fn v5_from_name_sets_version_nibble_to_5() {
    let guid = Guid::v5_from_name(NS, b"record-trace");
    assert_eq!(guid.data3 & 0xF000, 0x5000);
}

#[test]
fn guid_from_provider_name_hash_matches_known_vector() {
    assert_eq!(
        guid_from_provider_name_hash("OneCollect-Test-Provider").to_bytes(),
        Guid::from_u128(0xB03CBD70_B6F7_5552_04A1_A17A1FE5F1A4).to_bytes());
}

#[test]
fn guid_from_provider_name_hash_is_case_insensitive() {
    assert_eq!(
        guid_from_provider_name_hash("onecollect-test-provider").to_bytes(),
        guid_from_provider_name_hash("OneCollect-Test-Provider").to_bytes());
}

#[test]
fn from_u128_splits_fields() {
    let g = Guid::from_u128(0x00112233_4455_6677_8899_AABBCCDDEEFF);
    assert_eq!(0x00112233, g.data1);
    assert_eq!(0x4455, g.data2);
    assert_eq!(0x6677, g.data3);
    assert_eq!([0x88, 0x99, 0xAA, 0xBB, 0xCC, 0xDD, 0xEE, 0xFF], g.data4);
    assert_eq!(
        [0x33, 0x22, 0x11, 0x00, 0x55, 0x44, 0x77, 0x66,
         0x88, 0x99, 0xAA, 0xBB, 0xCC, 0xDD, 0xEE, 0xFF],
        g.to_bytes());
}

#[test]
fn pathbuf_ext_it_works() {
    let mut buf = std::path::PathBuf::new();

    buf.push_u64(0);
    assert_eq!("0", buf.to_str().unwrap());

    buf.clear();
    buf.push_u64(123456789000);
    assert_eq!("123456789000", buf.to_str().unwrap());

    buf.clear();
    buf.push_u64(18446744073709551615);
    assert_eq!("18446744073709551615", buf.to_str().unwrap());
}

#[test]
fn u64_decimal_digits() {
    assert_eq!(b"0".to_vec(), one_collect::pathbuf_ext::u64_decimal(0));
    assert_eq!(b"4096".to_vec(), one_collect::pathbuf_ext::u64_decimal(4096));
}

use one_collect::exporting::symbols::SymbolEntry;
use one_collect::exporting::symtext::{kallsyms_symbols, perf_map_symbols};

fn views(v: &[SymbolEntry]) -> Vec<(u64, u64, String)> {
    v.iter().map(|e| (e.start(), e.end(), e.name().to_string())).collect()
}

#[test]
fn kallsyms_keeps_text_symbols_with_ends() {
    let text = "ffffffff81000000 T _stext\n\
                ffffffff81000010 t helper [mymod]\n\
                ffffffff81000020 D data_sym\n\
                ffffffff81000030 T last_fn\n";
    let v = kallsyms_symbols(text.as_bytes()).unwrap();
    assert_eq!(
        vec![
            (0xffffffff81000000, 0xffffffff8100000f, "_stext".to_string()),
            (0xffffffff81000010, 0xffffffff8100001f, "[mymod] helper".to_string()),
            (0xffffffff81000030, u64::MAX, "last_fn".to_string()),
        ],
        views(&v)
    );
}

#[test]
fn kallsyms_zero_addresses_end_at_max() {
    // Without privileges the addresses read as zeros.
    let v = kallsyms_symbols(b"0000000000000000 T a\n0000000000000000 T b\n").unwrap();
    assert_eq!(vec![(0, u64::MAX, "a".to_string()), (0, u64::MAX, "b".to_string())], views(&v));
}

#[test]
fn kallsyms_refuses_bad_input() {
    assert!(kallsyms_symbols(b"zzzz T a\n").is_none());
    // An end would fall below zero: the next line has address 0.
    assert!(kallsyms_symbols(b"10 T a\n\n").is_none());
    assert!(kallsyms_symbols(b"").unwrap().is_empty());
}

#[test]
fn perf_map_reads_each_line() {
    let text = "0x1000 10 Foo::Bar\n2000 8 with spaces in name\n3000 4 nul\0rest\n";
    let v = perf_map_symbols(text.as_bytes()).unwrap();
    assert_eq!(
        vec![
            (0x1000, 0x1010, "Foo::Bar".to_string()),
            (0x2000, 0x2008, "with spaces in name".to_string()),
            (0x3000, 0x3004, "nul".to_string()),
        ],
        views(&v)
    );
    assert_eq!(vec![(0x10, 0, String::new())], views(&perf_map_symbols(b"10").unwrap()));
}

#[test]
fn perf_map_refuses_bad_input() {
    assert!(perf_map_symbols(b"xyz 10 a\n").is_none());
    // Only two parts: the size keeps its newline and is no number.
    assert!(perf_map_symbols(b"1000 10\n").is_none());
    assert!(perf_map_symbols(b"ffffffffffffffff 1 a\n").is_none());
}

#[test]
fn listings_stop_at_a_line_that_is_not_utf8() {
    let mut text = b"0x1000 10 Good\n".to_vec();
    text.extend_from_slice(&[0x32, 0x30, 0x30, 0x30, 0x20, 0x38, 0x20, 0xff, 0x0a]);
    text.extend_from_slice(b"3000 4 Unread\n");
    assert_eq!(vec![(0x1000, 0x1010, "Good".to_string())], views(&perf_map_symbols(&text).unwrap()));

    let mut text = b"ffffffff81000000 T first\n".to_vec();
    text.extend_from_slice(&[0xc3, 0x28, 0x0a]);
    text.extend_from_slice(b"ffffffff81000030 T unread\n");
    assert_eq!(vec![(0xffffffff81000000, u64::MAX, "first".to_string())], views(&kallsyms_symbols(&text).unwrap()));
}

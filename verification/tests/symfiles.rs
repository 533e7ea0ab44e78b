use one_collect::exporting::symfiles::{
    build_id_file, select_symbol_files, symbol_candidates_in, symbol_file_candidates, symbol_search_done,
    SYMBOL_TYPE_ELF_DYNSYM, SYMBOL_TYPE_ELF_SYMTAB,
};

#[test]
fn symbol_candidates_full_list() {
    let mut id = [0u8; 20];
    id[0] = 0xab;
    id[1] = 0x01;
    id[19] = 0xff;
    let paths = symbol_candidates_in("/usr/lib/libfoo.so", Some("libfoo.debug"), Some("/usr/lib"), Some(&id));
    let expected = vec![
        "/usr/lib/libfoo.so".to_string(),
        "/usr/lib/libfoo.so.dbg".to_string(),
        "/usr/lib/libfoo.so.debug".to_string(),
        "libfoo.debug".to_string(),
        "/usr/lib/libfoo.debug".to_string(),
        "/usr/lib/.debug/libfoo.debug".to_string(),
        "/usr/lib/debug/usr/lib/libfoo.debug".to_string(),
        "/usr/lib/debug/.build-id/ab/010000000000000000000000000000000000ff.debug".to_string(),
        "/usr/lib/debug/usr/lib/libfoo.so.debug".to_string(),
        "/usr/lib/debug/usr/lib/libfoo.so".to_string(),
        "/usr/lib/debug/lib/libfoo.so".to_string(),
    ];
    assert_eq!(expected, paths);
}

#[test]
fn symbol_candidates_without_link_or_id() {
    let paths = symbol_candidates_in("/opt/app", None, Some("/opt"), None);
    assert_eq!(
        vec![
            "/opt/app".to_string(),
            "/opt/app.dbg".to_string(),
            "/opt/app.debug".to_string(),
            "/usr/lib/debug/opt/app.debug".to_string(),
            "/usr/lib/debug/opt/app".to_string(),
        ],
        paths
    );
}

#[test]
fn symbol_file_candidates_uses_parent_directory() {
    let paths = symbol_file_candidates("/opt/bin/app", Some("app.dbg"), None);
    assert_eq!("/opt/bin/app.dbg", paths[4]);
    assert_eq!("/opt/bin/.debug/app.dbg", paths[5]);
    assert_eq!("/usr/lib/debug/opt/bin/app.dbg", paths[6]);
    assert_eq!(
        vec!["".to_string(), ".dbg".to_string(), ".debug".to_string()],
        symbol_file_candidates("", None, None)
    );
}

#[test]
fn build_id_file_name() {
    let id = [0x12u8; 20];
    assert_eq!(
        "/usr/lib/debug/.build-id/12/12121212121212121212121212121212121212.debug",
        build_id_file(&id)
    );
}

#[test]
fn select_stops_when_all_kinds_found() {
    let all = SYMBOL_TYPE_ELF_SYMTAB | SYMBOL_TYPE_ELF_DYNSYM;
    let found = [None, Some(SYMBOL_TYPE_ELF_DYNSYM), None, Some(SYMBOL_TYPE_ELF_SYMTAB), Some(all)];
    assert_eq!(vec![1usize, 3], select_symbol_files(&found, all));
    let found = [Some(all), Some(all)];
    assert_eq!(vec![0usize], select_symbol_files(&found, all));
    let found = [Some(SYMBOL_TYPE_ELF_DYNSYM), None, Some(SYMBOL_TYPE_ELF_DYNSYM)];
    assert_eq!(vec![0usize, 2], select_symbol_files(&found, all));
}

#[test]
fn symbol_candidates_stop_before_uncuttable_paths() {
    // A relative binary with one component has an empty directory: the
    // list stops before the directory would be cut.
    let paths = symbol_candidates_in("app", Some("app.dbg"), Some(""), None);
    assert_eq!(
        vec![
            "app".to_string(),
            "app.dbg".to_string(),
            "app.debug".to_string(),
            "app.dbg".to_string(),
            "app.dbg".to_string(),
            ".debug/app.dbg".to_string(),
        ],
        paths
    );
    // A binary starting with a wide character keeps the candidates before
    // the `/usr/lib/debug` ones.
    let paths = symbol_candidates_in("\u{e9}x", None, None, None);
    assert_eq!(3, paths.len());
    assert_eq!(6, symbol_file_candidates("app", Some("app.dbg"), None).len());
}

#[test]
fn symbol_search_stops_once_all_kinds_found() {
    let all = SYMBOL_TYPE_ELF_SYMTAB | SYMBOL_TYPE_ELF_DYNSYM;
    assert!(!symbol_search_done(&[], all));
    assert!(!symbol_search_done(&[None, Some(SYMBOL_TYPE_ELF_DYNSYM)], all));
    assert!(symbol_search_done(&[None, Some(SYMBOL_TYPE_ELF_DYNSYM), Some(SYMBOL_TYPE_ELF_SYMTAB)], all));
}

use vendordeps::CppInfo;

fn simple() -> CppInfo {
    CppInfo {
        include_dirs: vec!["/a".to_string()],
        library_search_paths: vec!["/b".to_string()],
        libraries: vec!["c".to_string()],
    }
}

#[test]
fn combined_flags_in_include_search_library_order() {
    assert_eq!(
        simple().gcc_clang_args(),
        vec!["-I/a".to_string(), "-L/b".to_string(), "-lc".to_string()]
    );
}

#[test]
fn individual_flag_groups() {
    let info = CppInfo {
        include_dirs: vec!["/i1".to_string(), "/i2".to_string()],
        library_search_paths: vec!["/s1".to_string()],
        libraries: vec!["m".to_string(), "n".to_string()],
    };
    assert_eq!(info.gcc_clang_include_dir_args(), vec!["-I/i1".to_string(), "-I/i2".to_string()]);
    assert_eq!(info.gcc_clang_library_search_path_args(), vec!["-L/s1".to_string()]);
    assert_eq!(info.gcc_clang_library_args(), vec!["-lm".to_string(), "-ln".to_string()]);
}

#[test]
fn ld_library_path_joins_search_paths_with_colons() {
    assert_eq!(simple().ld_library_path(), "/b");
    let info = CppInfo {
        include_dirs: vec![],
        library_search_paths: vec!["/b1".to_string(), "/b2".to_string(), "/b3".to_string()],
        libraries: vec![],
    };
    assert_eq!(info.ld_library_path(), "/b1:/b2:/b3");
    assert_eq!(CppInfo::new_empty().ld_library_path(), "");
}

#[test]
fn extend_concatenates_without_deduplication() {
    let mut info = simple();
    info.extend(simple());
    assert_eq!(info.include_dirs, vec!["/a".to_string(), "/a".to_string()]);
    assert_eq!(info.library_search_paths, vec!["/b".to_string(), "/b".to_string()]);
    assert_eq!(info.libraries, vec!["c".to_string(), "c".to_string()]);
}

#[test]
fn new_empty_has_nothing() {
    let info = CppInfo::new_empty();
    assert!(info.include_dirs.is_empty());
    assert!(info.library_search_paths.is_empty());
    assert!(info.libraries.is_empty());
    assert!(info.gcc_clang_args().is_empty());
}

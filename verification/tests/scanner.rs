use vendordeps::{ArtifactTree, CppInfo};

fn tree(dir: &str, entries: &[&str]) -> ArtifactTree {
    ArtifactTree {
        artifact_dir: dir.to_string(),
        entries: entries.iter().map(|e| e.to_string()).collect(),
    }
}

#[test]
fn scans_so_and_dll_with_search_paths_deduplicated() {
    let info = CppInfo::from_trees(&vec![tree(
        "/root/foo",
        &["/root/foo/libs/libbar.so", "/root/foo/libs/subdir/baz.dll"],
    )]);
    assert_eq!(info.libraries, vec!["bar".to_string(), "baz".to_string()]);
    assert_eq!(
        info.library_search_paths,
        vec!["/root/foo/libs".to_string(), "/root/foo/libs/subdir".to_string()]
    );
    assert_eq!(info.include_dirs, vec!["/root/foo/include".to_string()]);
}

#[test]
fn search_paths_deduplicate_within_one_artifact() {
    let info = CppInfo::from_trees(&vec![tree(
        "/r/a",
        &["/r/a/libs/libx.so", "/r/a/libs/liby.so", "/r/a/libs/z.dll"],
    )]);
    assert_eq!(info.libraries, vec!["x".to_string(), "y".to_string(), "z".to_string()]);
    assert_eq!(info.library_search_paths, vec!["/r/a/libs".to_string()]);
}

#[test]
fn search_paths_are_not_deduplicated_across_artifacts() {
    let info = CppInfo::from_trees(&vec![
        tree("/r/a", &["/r/a/libs/libx.so"]),
        tree("/r/b", &["/r/a/libs/liby.so"]),
    ]);
    assert_eq!(info.library_search_paths, vec!["/r/a/libs".to_string(), "/r/a/libs".to_string()]);
}

#[test]
fn other_extensions_and_directories_are_ignored() {
    let info = CppInfo::from_trees(&vec![tree(
        "/r/a",
        &[
            "/r/a/libs",
            "/r/a/libs/readme.txt",
            "/r/a/libs/libfoo.so.debug",
            "/r/a/libs/libfoo.SO",
            "/r/a/libs/archive.a",
        ],
    )]);
    assert!(info.libraries.is_empty());
    assert!(info.library_search_paths.is_empty());
    assert_eq!(info.include_dirs, vec!["/r/a/include".to_string()]);
}

#[test]
fn so_stems_shorter_than_the_lib_prefix_are_skipped() {
    let info = CppInfo::from_trees(&vec![tree("/r/a", &["/r/a/libs/ab.so", "/r/a/libs/libc.so"])]);
    assert_eq!(info.libraries, vec!["c".to_string()]);
}

#[test]
fn dll_stem_is_kept_verbatim() {
    let info = CppInfo::from_trees(&vec![tree("/r/a", &["/r/a/libs/libwinstuff.dll"])]);
    assert_eq!(info.libraries, vec!["libwinstuff".to_string()]);
}

#[test]
fn libraries_keep_walk_order_and_duplicates() {
    let info = CppInfo::from_trees(&vec![tree(
        "/r/a",
        &["/r/a/libs/libz.so", "/r/a/libs/deep/libz.so", "/r/a/libs/liba.so"],
    )]);
    assert_eq!(info.libraries, vec!["z".to_string(), "z".to_string(), "a".to_string()]);
}

#[test]
fn artifacts_contribute_in_order() {
    let info = CppInfo::from_trees(&vec![
        tree("/r/b", &["/r/b/libs/libfirst.so"]),
        tree("/r/a", &["/r/a/libs/libsecond.so"]),
    ]);
    assert_eq!(info.include_dirs, vec!["/r/b/include".to_string(), "/r/a/include".to_string()]);
    assert_eq!(info.libraries, vec!["first".to_string(), "second".to_string()]);
    assert_eq!(
        info.library_search_paths,
        vec!["/r/b/libs".to_string(), "/r/a/libs".to_string()]
    );
}

#[test]
fn jni_walks_have_no_include_dirs() {
    let info = CppInfo::from_walks(&vec![tree("/r/a", &["/r/a/libjni.so"])]);
    assert!(info.include_dirs.is_empty());
    assert_eq!(info.libraries, vec!["jni".to_string()]);
    assert_eq!(info.library_search_paths, vec!["/r/a".to_string()]);
}

use std::io::Write;

use vendordeps::{
    CppDependency, CppDepOutcomes, Error, JavaDependency, JniDependency, VendorDep,
};
use zip::write::SimpleFileOptions;

fn make_zip(files: &[(&str, &[u8])]) -> Vec<u8> {
    let mut w = zip::ZipWriter::new(std::io::Cursor::new(Vec::new()));
    for (name, data) in files {
        w.start_file(*name, SimpleFileOptions::default()).unwrap();
        w.write_all(data).unwrap();
    }
    w.finish().unwrap().into_inner()
}

fn manifest() -> VendorDep {
    VendorDep {
        file_name: "v.json".to_string(),
        name: "v".to_string(),
        version: "1.0.0".to_string(),
        frc_year: 2024,
        uuid: "u".to_string(),
        maven_urls: vec!["http://m1/".to_string(), "http://m2/".to_string()],
        json_url: "http://m1/v.json".to_string(),
        conflicts_with: vec![],
        java_dependencies: vec![
            JavaDependency {
                group_id: "g".to_string(),
                artifact_id: "a".to_string(),
                version: "1".to_string(),
            },
            JavaDependency {
                group_id: "g".to_string(),
                artifact_id: "b".to_string(),
                version: "2".to_string(),
            },
        ],
        jni_dependencies: vec![JniDependency {
            group_id: "g".to_string(),
            artifact_id: "n".to_string(),
            version: "1".to_string(),
            is_jar: false,
            skip_invalid_platforms: false,
            valid_platforms: vec![],
            sim_mode: None,
        }],
        cpp_dependencies: vec![CppDependency {
            group_id: "g".to_string(),
            artifact_id: "c".to_string(),
            version: "1".to_string(),
            header_classifier: "headers".to_string(),
            binary_platforms: vec![],
        }],
    }
}

#[test]
fn java_plan_writes_each_jar_under_its_file_name() {
    let m = manifest();
    let outcomes = vec![
        vec![Some(b"jar-a".to_vec()), None],
        vec![Some(b"jar-b".to_vec()), None],
    ];
    let files = m.plan_java_downloads(&outcomes, false).unwrap();
    assert_eq!(files.len(), 2);
    assert_eq!(files[0].path, "a-1.jar");
    assert_eq!(files[0].data, b"jar-a");
    assert_eq!(files[1].path, "b-2.jar");
    assert_eq!(files[1].data, b"jar-b");
}

#[test]
fn java_failover_takes_first_success_and_matches_single_mirror() {
    let m = manifest();
    let failing_then_good = vec![
        vec![None, Some(b"payload-a".to_vec())],
        vec![None, Some(b"payload-b".to_vec())],
    ];
    let single_mirror = vec![
        vec![Some(b"payload-a".to_vec())],
        vec![Some(b"payload-b".to_vec())],
    ];
    let with_failover = m.plan_java_downloads(&failing_then_good, false).unwrap();
    let direct = m.plan_java_downloads(&single_mirror, false).unwrap();
    assert_eq!(format!("{:?}", with_failover), format!("{:?}", direct));
}

#[test]
fn java_exhausted_mirrors_name_the_coordinate() {
    let m = manifest();
    let outcomes = vec![vec![None, None], vec![Some(b"x".to_vec()), None]];
    let err = m.plan_java_downloads(&outcomes, false).unwrap_err();
    assert_eq!(err, Error::NotFound("g:a:1".to_string()));
}

#[test]
fn java_skip_failed_packages_keeps_later_dependencies() {
    let m = manifest();
    let outcomes = vec![vec![None, None], vec![Some(b"jar-b".to_vec()), None]];
    let files = m.plan_java_downloads(&outcomes, true).unwrap();
    assert_eq!(files.len(), 1);
    assert_eq!(files[0].path, "b-2.jar");
}

#[test]
fn jni_plan_extracts_under_the_artifact_directory() {
    let m = manifest();
    let bundle = make_zip(&[("linux/x86-64/libnative.so", b"ELF")]);
    let outcomes = vec![vec![Some(bundle)]];
    let files = m.plan_jni_downloads(&outcomes, false).unwrap();
    assert_eq!(files.len(), 1);
    assert_eq!(files[0].path, "n/linux/x86-64/libnative.so");
    assert_eq!(files[0].data, b"ELF");
}

#[test]
fn jni_failover_swallows_bad_archives() {
    let m = manifest();
    let good = make_zip(&[("lib.so", b"ok")]);
    let outcomes = vec![vec![Some(b"garbage".to_vec()), Some(good)]];
    let files = m.plan_jni_downloads(&outcomes, false).unwrap();
    assert_eq!(files.len(), 1);
    assert_eq!(files[0].path, "n/lib.so");
}

#[test]
fn jni_unsafe_archive_on_every_mirror_is_not_found() {
    let m = manifest();
    let evil = make_zip(&[("../evil.txt", b"bad")]);
    let outcomes = vec![vec![Some(evil.clone()), Some(evil)]];
    let err = m.plan_jni_downloads(&outcomes, false).unwrap_err();
    assert_eq!(err, Error::NotFound("g:n:1".to_string()));
}

#[test]
fn cpp_plan_extracts_headers_and_binaries_into_their_subtrees() {
    let m = manifest();
    let headers = make_zip(&[("pkg/a.hpp", b"hdr")]);
    let libs = make_zip(&[("linux/libc.so", b"bin")]);
    let outcomes = vec![CppDepOutcomes { headers: vec![Some(headers)], libs: vec![Some(libs)] }];
    let files = m.plan_cpp_downloads(&outcomes, false).unwrap();
    assert_eq!(files.len(), 2);
    assert_eq!(files[0].path, "c/include/pkg/a.hpp");
    assert_eq!(files[0].data, b"hdr");
    assert_eq!(files[1].path, "c/libs/linux/libc.so");
    assert_eq!(files[1].data, b"bin");
}

#[test]
fn cpp_each_download_fails_over_independently() {
    let m = manifest();
    let headers = make_zip(&[("a.hpp", b"h")]);
    let libs = make_zip(&[("libz.so", b"l")]);
    let outcomes = vec![CppDepOutcomes {
        headers: vec![Some(headers), None],
        libs: vec![None, Some(libs)],
    }];
    let files = m.plan_cpp_downloads(&outcomes, false).unwrap();
    assert_eq!(files.len(), 2);
}

#[test]
fn cpp_exhausted_headers_fail_or_skip_whole_dependency() {
    let m = manifest();
    let libs = make_zip(&[("libz.so", b"l")]);
    let outcomes = vec![CppDepOutcomes { headers: vec![None, None], libs: vec![Some(libs)] }];
    let err = m.plan_cpp_downloads(&outcomes, false).unwrap_err();
    assert_eq!(err, Error::NotFound("g:c:1".to_string()));
    let libs2 = make_zip(&[("libz.so", b"l")]);
    let outcomes2 = vec![CppDepOutcomes { headers: vec![None, None], libs: vec![Some(libs2)] }];
    let files = m.plan_cpp_downloads(&outcomes2, true).unwrap();
    assert!(files.is_empty());
}

#[test]
fn no_mirrors_means_every_dependency_is_exhausted() {
    let mut m = manifest();
    m.maven_urls.clear();
    let outcomes = vec![vec![], vec![]];
    let err = m.plan_java_downloads(&outcomes, false).unwrap_err();
    assert_eq!(err, Error::NotFound("g:a:1".to_string()));
    assert!(m.plan_java_downloads(&outcomes, true).unwrap().is_empty());
}

#[test]
fn shared_artifact_ids_plan_both_writes_in_order() {
    let mut m = manifest();
    m.java_dependencies[1].artifact_id = "a".to_string();
    m.java_dependencies[1].version = "1".to_string();
    let outcomes = vec![vec![Some(b"first".to_vec())], vec![Some(b"second".to_vec())]];
    let files = m.plan_java_downloads(&outcomes, false).unwrap();
    assert_eq!(files.len(), 2);
    assert_eq!(files[0].path, "a-1.jar");
    assert_eq!(files[0].data, b"first");
    assert_eq!(files[1].path, "a-1.jar");
    assert_eq!(files[1].data, b"second");
}

#[test]
fn empty_manifest_plans_nothing() {
    let mut m = manifest();
    m.java_dependencies.clear();
    m.jni_dependencies.clear();
    m.cpp_dependencies.clear();
    assert!(m.plan_java_downloads(&vec![], false).unwrap().is_empty());
    assert!(m.plan_jni_downloads(&vec![], false).unwrap().is_empty());
    assert!(m.plan_cpp_downloads(&vec![], false).unwrap().is_empty());
}

#[test]
fn cpp_exhausted_binaries_keep_the_headers_when_skipping() {
    let m = manifest();
    let headers = make_zip(&[("a.hpp", b"h")]);
    let outcomes = vec![CppDepOutcomes { headers: vec![Some(headers)], libs: vec![None] }];
    let files = m.plan_cpp_downloads(&outcomes, true).unwrap();
    assert_eq!(files.len(), 1);
    assert_eq!(files[0].path, "c/include/a.hpp");
}

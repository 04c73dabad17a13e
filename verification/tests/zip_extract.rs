use std::io::Write;

use vendordeps::{plan_zip_extraction, Error};
use zip::write::SimpleFileOptions;

fn make_zip(files: &[(&str, &[u8])], dirs: &[&str]) -> Vec<u8> {
    let mut w = zip::ZipWriter::new(std::io::Cursor::new(Vec::new()));
    for d in dirs {
        w.add_directory(*d, SimpleFileOptions::default()).unwrap();
    }
    for (name, data) in files {
        w.start_file(*name, SimpleFileOptions::default()).unwrap();
        w.write_all(data).unwrap();
    }
    w.finish().unwrap().into_inner()
}

#[test]
fn extracts_members_in_archive_order_with_contents() {
    let bytes = make_zip(
        &[
            ("ctre/phoenix6/CANcoder.hpp", b"#pragma once"),
            ("ctre/phoenix6/TalonFX.hpp", b"class TalonFX;"),
        ],
        &["ctre/", "ctre/phoenix6/"],
    );
    let files = plan_zip_extraction(bytes).unwrap();
    assert_eq!(files.len(), 2);
    assert_eq!(files[0].path, "ctre/phoenix6/CANcoder.hpp");
    assert_eq!(files[0].data, b"#pragma once");
    assert_eq!(files[1].path, "ctre/phoenix6/TalonFX.hpp");
    assert_eq!(files[1].data, b"class TalonFX;");
}

#[test]
fn directory_members_are_skipped() {
    let bytes = make_zip(&[("a.txt", b"x")], &["sub/", "sub/deeper/"]);
    let files = plan_zip_extraction(bytes).unwrap();
    assert_eq!(files.len(), 1);
    assert_eq!(files[0].path, "a.txt");
}

#[test]
fn traversing_member_aborts_with_zip_security_and_plans_nothing() {
    let bytes = make_zip(&[("ok.txt", b"fine"), ("../evil.txt", b"bad")], &[]);
    let result = plan_zip_extraction(bytes);
    assert_eq!(result, Err(Error::ZipSecurity));
}

#[test]
fn absolute_member_aborts_with_zip_security() {
    let bytes = make_zip(&[("/abs.txt", b"bad")], &[]);
    assert_eq!(plan_zip_extraction(bytes), Err(Error::ZipSecurity));
}

#[test]
fn deep_traversal_aborts_with_zip_security() {
    let bytes = make_zip(&[("a/../../b.txt", b"bad")], &[]);
    assert_eq!(plan_zip_extraction(bytes), Err(Error::ZipSecurity));
}

#[test]
fn balanced_dot_dot_inside_the_root_is_allowed() {
    let bytes = make_zip(&[("a/../b.txt", b"ok")], &[]);
    let files = plan_zip_extraction(bytes).unwrap();
    assert_eq!(files.len(), 1);
    assert_eq!(files[0].path, "a/../b.txt");
}

#[test]
fn not_an_archive_fails_with_zip_error() {
    assert_eq!(plan_zip_extraction(b"this is not a zip".to_vec()), Err(Error::Zip));
    assert_eq!(plan_zip_extraction(Vec::new()), Err(Error::Zip));
}

#[test]
fn error_messages_name_the_failure() {
    assert_eq!(
        Error::ZipSecurity.message(),
        "Zipped file has an absolute file location. This is not allowed."
    );
    assert_eq!(
        Error::NotFound("g:a:v".to_string()).message(),
        "Could not find Maven artifact g:a:v."
    );
    assert_eq!(Error::Zip.message(), "Package was not a valid zip.");
}

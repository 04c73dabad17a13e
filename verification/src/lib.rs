//! Vendor dependency manifests for an FRC robotics build toolchain.
//!
//! A manifest names, per vendor library, the Maven-coordinate artifacts of
//! three target flavors (pure-Java jars, Java-native binary bundles, and C++
//! binaries with separate header bundles) together with the ordered list of
//! Maven repositories to search. This crate parses such manifests from JSON,
//! resolves coordinates to Maven URLs, plans safe extraction of downloaded
//! zip archives, models mirror failover across repositories, and scans a
//! materialized on-disk layout into the include/library-path/library triple
//! that drives a C/C++ compiler and linker.
//!
//! All network and filesystem work is left to the caller: the functions here
//! are pure, taking fetched bytes and directory listings as plain values and
//! returning the files to write and the flags to emit.

mod archive;
mod cppinfo;
mod error;
mod json;
mod manifest;
mod model;
mod paths;
mod pipeline;
mod platform;
mod scan;
mod text;
mod urls;

pub use archive::PlannedFile;
pub use archive::PlannedFileView;
pub use archive::lemma_extract_plan_safety;
pub use archive::lemma_extraction_path_safety;
pub use archive::plan_zip_extraction;
pub use archive::spec_extract_plan;
pub use archive::spec_is_dir_name;
pub use archive::spec_plan_entries;
pub use archive::spec_zip_parse;
pub use archive::zip_archive_entries;
pub use cppinfo::ArtifactTree;
pub use cppinfo::ArtifactTreeView;
pub use cppinfo::CppInfo;
pub use cppinfo::CppInfoView;
pub use cppinfo::lemma_trees_order;
pub use cppinfo::spec_prefix_all;
pub use cppinfo::spec_trees_libs;
pub use cppinfo::spec_trees_paths;
pub use error::Error;
pub use error::ErrorView;
pub use json::JsonVal;
pub use json::JsonValue;
pub use json::spec_number_end;
pub use json::spec_parse_elements;
pub use json::spec_parse_json;
pub use json::spec_parse_members;
pub use json::spec_parse_string_body;
pub use json::spec_parse_value;
pub use json::spec_skip_ws;
pub use manifest::lemma_frc_year_lenience;
pub use manifest::spec_lookup;
pub use manifest::spec_manifest;
pub use manifest::spec_str_field;
pub use manifest::spec_u32_from_decimal;
pub use manifest::spec_vendor_dep_of;
pub use manifest::spec_year_of;
pub use model::CppDependency;
pub use model::CppDependencyView;
pub use model::JavaDependency;
pub use model::JavaDependencyView;
pub use model::JniDependency;
pub use model::JniDependencyView;
pub use model::PackageSpec;
pub use model::PackageSpecView;
pub use model::VendorDep;
pub use model::VendorDepView;
pub use paths::check_member_path;
pub use paths::spec_depth_after;
pub use paths::spec_find;
pub use paths::spec_safe_member;
pub use paths::spec_split;
pub use pipeline::CppDepOutcomes;
pub use pipeline::CppDepOutcomesView;
pub use pipeline::lemma_cpp_failover_equivalence;
pub use pipeline::lemma_cpp_skip_failed_first;
pub use pipeline::lemma_java_failover_equivalence;
pub use pipeline::lemma_java_skip_failed_first;
pub use pipeline::lemma_jni_failover_equivalence;
pub use pipeline::lemma_jni_skip_failed_first;
pub use pipeline::spec_first_extraction;
pub use pipeline::spec_first_fetch;
pub use pipeline::spec_plan_cpp;
pub use pipeline::spec_plan_java;
pub use pipeline::spec_plan_jni;
pub use pipeline::spec_prefix_files;
pub use platform::BinaryPlatform;
pub use platform::spec_platform_of;
pub use platform::spec_platform_str;
pub use scan::spec_file_name;
pub use scan::spec_lib_of;
pub use scan::spec_parent;
pub use scan::spec_rfind;
pub use scan::spec_scan_libs;
pub use scan::spec_scan_paths;
pub use scan::spec_split_ext;
pub use text::spec_group_path;
pub use text::spec_join;
pub use urls::spec_coordinate;
pub use urls::spec_cpp_url;
pub use urls::spec_java_file_name;
pub use urls::spec_java_url;
pub use urls::spec_jni_url;

//! The manifest data model: one vendor library release, its conflict
//! records, and its Java, JNI and C++ dependency coordinates.

use vstd::prelude::*;

verus! {

/// A reference to another vendor dependency that this one conflicts with.
#[derive(Debug, Clone, PartialEq, Eq)]
pub struct PackageSpec {
    /// The `uuid` field of the other vendor dependency.
    pub uuid: String,
    /// The message shown when both packages are included.
    pub error_message: String,
    /// File name of the other package's manifest.
    pub offline_file_name: String,
}

/// The mathematical value of a [`PackageSpec`].
pub struct PackageSpecView {
    pub uuid: Seq<char>,
    pub error_message: Seq<char>,
    pub offline_file_name: Seq<char>,
}

impl DeepView for PackageSpec {
    type V = PackageSpecView;

    open spec fn deep_view(&self) -> PackageSpecView {
        PackageSpecView {
            uuid: self.uuid@,
            error_message: self.error_message@,
            offline_file_name: self.offline_file_name@,
        }
    }
}

/// A dependency for Java compilation: one jar per Maven coordinate.
#[derive(Debug, Clone, PartialEq, Eq)]
pub struct JavaDependency {
    /// Maven group.
    pub group_id: String,
    /// Maven artifact.
    pub artifact_id: String,
    /// Maven version.
    pub version: String,
}

/// The mathematical value of a [`JavaDependency`].
pub struct JavaDependencyView {
    pub group_id: Seq<char>,
    pub artifact_id: Seq<char>,
    pub version: Seq<char>,
}

impl DeepView for JavaDependency {
    type V = JavaDependencyView;

    open spec fn deep_view(&self) -> JavaDependencyView {
        JavaDependencyView {
            group_id: self.group_id@,
            artifact_id: self.artifact_id@,
            version: self.version@,
        }
    }
}

/// A native dependency required by Java code: platform binaries packaged as
/// a jar or a zip per platform.
#[derive(Debug, Clone, PartialEq, Eq)]
pub struct JniDependency {
    /// Maven group.
    pub group_id: String,
    /// Maven artifact.
    pub artifact_id: String,
    /// Maven version.
    pub version: String,
    /// Whether the platform binaries ship in a `.jar`; otherwise a `.zip`.
    pub is_jar: bool,
    /// Carried verbatim from the manifest; the pipeline ascribes it no
    /// meaning.
    pub skip_invalid_platforms: bool,
    /// Platform tags this library claims to support (advisory only).
    pub valid_platforms: Vec<String>,
    /// Carried verbatim from the manifest; the pipeline ascribes it no
    /// meaning.
    pub sim_mode: Option<String>,
}

/// The mathematical value of a [`JniDependency`].
pub struct JniDependencyView {
    pub group_id: Seq<char>,
    pub artifact_id: Seq<char>,
    pub version: Seq<char>,
    pub is_jar: bool,
    pub skip_invalid_platforms: bool,
    pub valid_platforms: Seq<Seq<char>>,
    pub sim_mode: Option<Seq<char>>,
}

impl DeepView for JniDependency {
    type V = JniDependencyView;

    open spec fn deep_view(&self) -> JniDependencyView {
        JniDependencyView {
            group_id: self.group_id@,
            artifact_id: self.artifact_id@,
            version: self.version@,
            is_jar: self.is_jar,
            skip_invalid_platforms: self.skip_invalid_platforms,
            valid_platforms: self.valid_platforms.deep_view(),
            sim_mode: self.sim_mode.deep_view(),
        }
    }
}

/// A dependency for C++ compilation: per-platform binary bundles plus one
/// separate headers bundle.
#[derive(Debug, Clone, PartialEq, Eq)]
pub struct CppDependency {
    /// Maven group.
    pub group_id: String,
    /// Maven artifact.
    pub artifact_id: String,
    /// Maven version.
    pub version: String,
    /// The classifier used in place of the platform tag when fetching the
    /// headers bundle, conventionally `headers`.
    pub header_classifier: String,
    /// Platform tags this library ships binaries for; may be empty.
    pub binary_platforms: Vec<String>,
}

/// The mathematical value of a [`CppDependency`].
pub struct CppDependencyView {
    pub group_id: Seq<char>,
    pub artifact_id: Seq<char>,
    pub version: Seq<char>,
    pub header_classifier: Seq<char>,
    pub binary_platforms: Seq<Seq<char>>,
}

impl DeepView for CppDependency {
    type V = CppDependencyView;

    open spec fn deep_view(&self) -> CppDependencyView {
        CppDependencyView {
            group_id: self.group_id@,
            artifact_id: self.artifact_id@,
            version: self.version@,
            header_classifier: self.header_classifier@,
            binary_platforms: self.binary_platforms.deep_view(),
        }
    }
}

/// One vendor library release: identity, the Maven repositories to search,
/// a compatibility record, and the dependencies of each flavor, in manifest
/// order.
#[derive(Debug, Clone, PartialEq, Eq)]
pub struct VendorDep {
    /// File name under which a build system persists this manifest.
    pub file_name: String,
    /// Name of the vendor library.
    pub name: String,
    /// Vendor library version, usually equal to each artifact's version.
    pub version: String,
    /// The competition year this release supports.
    pub frc_year: u32,
    /// Opaque identity, used for compatibility checks.
    pub uuid: String,
    /// Ordered list of Maven repository base URLs tried during fetch.
    pub maven_urls: Vec<String>,
    /// Canonical URL of this manifest.
    pub json_url: String,
    /// Vendor dependencies this one is explicitly incompatible with;
    /// advisory data, carried through unchanged.
    pub conflicts_with: Vec<PackageSpec>,
    /// Java source dependencies, in manifest order.
    pub java_dependencies: Vec<JavaDependency>,
    /// Java native dependencies, in manifest order.
    pub jni_dependencies: Vec<JniDependency>,
    /// C++ dependencies, in manifest order.
    pub cpp_dependencies: Vec<CppDependency>,
}

/// The mathematical value of a [`VendorDep`].
pub struct VendorDepView {
    pub file_name: Seq<char>,
    pub name: Seq<char>,
    pub version: Seq<char>,
    pub frc_year: u32,
    pub uuid: Seq<char>,
    pub maven_urls: Seq<Seq<char>>,
    pub json_url: Seq<char>,
    pub conflicts_with: Seq<PackageSpecView>,
    pub java_dependencies: Seq<JavaDependencyView>,
    pub jni_dependencies: Seq<JniDependencyView>,
    pub cpp_dependencies: Seq<CppDependencyView>,
}

impl DeepView for VendorDep {
    type V = VendorDepView;

    open spec fn deep_view(&self) -> VendorDepView {
        VendorDepView {
            file_name: self.file_name@,
            name: self.name@,
            version: self.version@,
            frc_year: self.frc_year,
            uuid: self.uuid@,
            maven_urls: self.maven_urls.deep_view(),
            json_url: self.json_url@,
            conflicts_with: self.conflicts_with.deep_view(),
            java_dependencies: self.java_dependencies.deep_view(),
            jni_dependencies: self.jni_dependencies.deep_view(),
            cpp_dependencies: self.cpp_dependencies.deep_view(),
        }
    }
}

} // verus!

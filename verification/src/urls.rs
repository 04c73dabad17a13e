//! The coordinate resolver: pure construction of Maven URLs and expected
//! file names for each dependency flavor.
//!
//! A resolved URL always has the shape
//! `{base}{group with dots replaced by slashes}/{artifact}/{version}/{file}`,
//! where the file name carries the artifact, the version, and for binary
//! flavors a platform classifier with optional `static` and `debug`
//! suffixes, in that order.

use vstd::prelude::*;

use crate::model::{CppDependency, JavaDependency, JniDependency};
use crate::text::{dot_to_slash, spec_group_path};

verus! {

/// The file name of a Java dependency's jar: `{artifact}-{version}.jar`.
pub open spec fn spec_java_file_name(artifact_id: Seq<char>, version: Seq<char>) -> Seq<char> {
    artifact_id + "-"@ + version + ".jar"@
}

/// The URL of a Java dependency's jar under a repository base URL.
pub open spec fn spec_java_url(
    base: Seq<char>,
    group_id: Seq<char>,
    artifact_id: Seq<char>,
    version: Seq<char>,
) -> Seq<char> {
    base + spec_group_path(group_id) + "/"@ + artifact_id + "/"@ + version + "/"@
        + spec_java_file_name(artifact_id, version)
}

/// The URL of a JNI dependency's platform bundle: the classifier is the
/// platform tag, a `debug` suffix follows when asked for, and the extension
/// is `.jar` or `.zip` as the dependency declares.
pub open spec fn spec_jni_url(
    base: Seq<char>,
    group_id: Seq<char>,
    artifact_id: Seq<char>,
    version: Seq<char>,
    platform: Seq<char>,
    is_debug: bool,
    is_jar: bool,
) -> Seq<char> {
    base + spec_group_path(group_id) + "/"@ + artifact_id + "/"@ + version + "/"@ + artifact_id
        + "-"@ + version + "-"@ + platform + (if is_debug {
        "debug"@
    } else {
        Seq::<char>::empty()
    }) + "."@ + (if is_jar {
        "jar"@
    } else {
        "zip"@
    })
}

/// The URL of a C++ dependency's zip bundle: the classifier is the platform
/// tag followed by optional `static` and `debug` suffixes, in that order,
/// yielding the literal classifier endings ``, `static`, `debug` and
/// `staticdebug`.
pub open spec fn spec_cpp_url(
    base: Seq<char>,
    group_id: Seq<char>,
    artifact_id: Seq<char>,
    version: Seq<char>,
    platform: Seq<char>,
    is_static: bool,
    is_debug: bool,
) -> Seq<char> {
    base + spec_group_path(group_id) + "/"@ + artifact_id + "/"@ + version + "/"@ + artifact_id
        + "-"@ + version + "-"@ + platform + (if is_static {
        "static"@
    } else {
        Seq::<char>::empty()
    }) + (if is_debug {
        "debug"@
    } else {
        Seq::<char>::empty()
    }) + ".zip"@
}

/// The coordinate triple rendered as `group:artifact:version`, the form in
/// which an exhausted coordinate is reported.
pub open spec fn spec_coordinate(
    group_id: Seq<char>,
    artifact_id: Seq<char>,
    version: Seq<char>,
) -> Seq<char> {
    group_id + ":"@ + artifact_id + ":"@ + version
}

/// Build `group:artifact:version`.
pub(crate) fn coordinate_string(group_id: &str, artifact_id: &str, version: &str) -> (r: String)
    ensures
        r@ == spec_coordinate(group_id@, artifact_id@, version@),
{
    let mut r = String::from_str(group_id);
    r.append(":");
    r.append(artifact_id);
    r.append(":");
    r.append(version);
    r
}

impl JavaDependency {
    /// Resolve the Maven URL of this dependency's jar under `maven_url`.
    pub fn get_url(&self, maven_url: &str) -> (r: String)
        ensures
            r@ == spec_java_url(maven_url@, self.group_id@, self.artifact_id@, self.version@),
    {
        let mut r = String::from_str(maven_url);
        let group = dot_to_slash(self.group_id.as_str());
        r.append(group.as_str());
        r.append("/");
        r.append(self.artifact_id.as_str());
        r.append("/");
        r.append(self.version.as_str());
        r.append("/");
        let file = self.file_name();
        r.append(file.as_str());
        r
    }

    /// The name of this dependency's jar file.
    pub fn file_name(&self) -> (r: String)
        ensures
            r@ == spec_java_file_name(self.artifact_id@, self.version@),
    {
        let mut r = self.artifact_id.clone();
        r.append("-");
        r.append(self.version.as_str());
        r.append(".jar");
        r
    }
}

impl JniDependency {
    /// Resolve the Maven URL of this dependency's bundle for one platform.
    pub fn get_url(&self, maven_url: &str, platform: &str, is_debug: bool) -> (r: String)
        ensures
            r@ == spec_jni_url(
                maven_url@,
                self.group_id@,
                self.artifact_id@,
                self.version@,
                platform@,
                is_debug,
                self.is_jar,
            ),
    {
        let mut r = String::from_str(maven_url);
        let group = dot_to_slash(self.group_id.as_str());
        r.append(group.as_str());
        r.append("/");
        r.append(self.artifact_id.as_str());
        r.append("/");
        r.append(self.version.as_str());
        r.append("/");
        r.append(self.artifact_id.as_str());
        r.append("-");
        r.append(self.version.as_str());
        r.append("-");
        r.append(platform);
        if is_debug {
            r.append("debug");
        }
        r.append(".");
        if self.is_jar {
            r.append("jar");
        } else {
            r.append("zip");
        }
        r
    }
}

impl CppDependency {
    /// Resolve the Maven URL of this dependency's binary zip for one
    /// platform.
    pub fn get_url(&self, maven_url: &str, platform: &str, is_static: bool, is_debug: bool) -> (r:
        String)
        ensures
            r@ == spec_cpp_url(
                maven_url@,
                self.group_id@,
                self.artifact_id@,
                self.version@,
                platform@,
                is_static,
                is_debug,
            ),
    {
        let mut r = String::from_str(maven_url);
        let group = dot_to_slash(self.group_id.as_str());
        r.append(group.as_str());
        r.append("/");
        r.append(self.artifact_id.as_str());
        r.append("/");
        r.append(self.version.as_str());
        r.append("/");
        r.append(self.artifact_id.as_str());
        r.append("-");
        r.append(self.version.as_str());
        r.append("-");
        r.append(platform);
        if is_static {
            r.append("static");
        }
        if is_debug {
            r.append("debug");
        }
        r.append(".zip");
        r
    }

    /// Resolve the Maven URL of this dependency's headers zip: the same
    /// template with the header classifier in place of the platform tag and
    /// neither `static` nor `debug`.
    pub fn headers_url(&self, maven_url: &str) -> (r: String)
        ensures
            r@ == spec_cpp_url(
                maven_url@,
                self.group_id@,
                self.artifact_id@,
                self.version@,
                self.header_classifier@,
                false,
                false,
            ),
    {
        self.get_url(maven_url, self.header_classifier.clone().as_str(), false, false)
    }
}

} // verus!

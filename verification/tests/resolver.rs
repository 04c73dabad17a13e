use vendordeps::{BinaryPlatform, CppDependency, JavaDependency, JniDependency};

fn wpilibj() -> JavaDependency {
    JavaDependency {
        group_id: "edu.wpi.first.wpilibj".to_string(),
        artifact_id: "wpilibj-java".to_string(),
        version: "2024.2.1".to_string(),
    }
}

fn hal_cpp() -> CppDependency {
    CppDependency {
        group_id: "edu.wpi.first.hal".to_string(),
        artifact_id: "hal-cpp".to_string(),
        version: "2024.2.1".to_string(),
        header_classifier: "headers".to_string(),
        binary_platforms: vec![],
    }
}

fn hal_jni(is_jar: bool) -> JniDependency {
    JniDependency {
        group_id: "edu.wpi.first.hal".to_string(),
        artifact_id: "hal-jni".to_string(),
        version: "2024.2.1".to_string(),
        is_jar,
        skip_invalid_platforms: false,
        valid_platforms: vec![],
        sim_mode: None,
    }
}

const BASE: &str = "https://frcmaven.wpi.edu/artifactory/release/";

#[test]
fn java_url_for_wpilibj() {
    assert_eq!(
        wpilibj().get_url(BASE),
        "https://frcmaven.wpi.edu/artifactory/release/edu/wpi/first/wpilibj/wpilibj-java/2024.2.1/wpilibj-java-2024.2.1.jar"
    );
}

#[test]
fn java_file_name_is_artifact_dash_version_jar() {
    assert_eq!(wpilibj().file_name(), "wpilibj-java-2024.2.1.jar");
}

#[test]
fn cpp_url_static_debug_classifier_order() {
    let url = hal_cpp().get_url(BASE, "linuxx86-64", true, true);
    assert_eq!(
        url,
        "https://frcmaven.wpi.edu/artifactory/release/edu/wpi/first/hal/hal-cpp/2024.2.1/hal-cpp-2024.2.1-linuxx86-64staticdebug.zip"
    );
}

#[test]
fn cpp_url_classifier_suffixes() {
    let dep = hal_cpp();
    assert!(dep.get_url(BASE, "linuxathena", false, false).ends_with("-linuxathena.zip"));
    assert!(dep.get_url(BASE, "linuxathena", true, false).ends_with("-linuxathenastatic.zip"));
    assert!(dep.get_url(BASE, "linuxathena", false, true).ends_with("-linuxathenadebug.zip"));
    assert!(dep.get_url(BASE, "linuxathena", true, true).ends_with("-linuxathenastaticdebug.zip"));
}

#[test]
fn cpp_headers_url_uses_header_classifier() {
    let url = hal_cpp().headers_url(BASE);
    assert_eq!(
        url,
        "https://frcmaven.wpi.edu/artifactory/release/edu/wpi/first/hal/hal-cpp/2024.2.1/hal-cpp-2024.2.1-headers.zip"
    );
}

#[test]
fn jni_url_zip_without_debug_infix() {
    let url = hal_jni(false).get_url(BASE, BinaryPlatform::WindowsX86_64.to_str(), false);
    assert!(url.ends_with("hal-jni-2024.2.1-windowsx86-64.zip"));
    assert!(!url.contains("debug"));
}

#[test]
fn jni_url_jar_with_debug_infix() {
    let url = hal_jni(true).get_url(BASE, "linuxarm32", true);
    assert!(url.ends_with("hal-jni-2024.2.1-linuxarm32debug.jar"));
}

#[test]
fn url_construction_is_deterministic() {
    let a = wpilibj().get_url(BASE);
    let b = wpilibj().get_url(BASE);
    assert_eq!(a, b);
    assert_eq!(wpilibj().file_name(), wpilibj().file_name());
    let c = hal_cpp().get_url(BASE, "osxuniversal", true, false);
    let d = hal_cpp().get_url(BASE, "osxuniversal", true, false);
    assert_eq!(c, d);
}

#[test]
fn group_dots_become_slashes_only_in_path() {
    let dep = JavaDependency {
        group_id: "a.b.c".to_string(),
        artifact_id: "art".to_string(),
        version: "1.0".to_string(),
    };
    assert_eq!(dep.get_url("http://m/"), "http://m/a/b/c/art/1.0/art-1.0.jar");
}

#[test]
fn platform_classifier_strings() {
    assert_eq!(BinaryPlatform::LinuxArm32.to_str(), "linuxarm32");
    assert_eq!(BinaryPlatform::LinuxArm64.to_str(), "linuxarm64");
    assert_eq!(BinaryPlatform::LinuxAthena.to_str(), "linuxathena");
    assert_eq!(BinaryPlatform::LinuxX86_64.to_str(), "linuxx86-64");
    assert_eq!(BinaryPlatform::OsxUniversal.to_str(), "osxuniversal");
    assert_eq!(BinaryPlatform::WindowsArm64.to_str(), "windowsarm64");
    assert_eq!(BinaryPlatform::WindowsX86_64.to_str(), "windowsx86-64");
    assert_eq!(BinaryPlatform::Headers.to_str(), "headers");
}

#[test]
fn platform_parse_round_trip() {
    let all = [
        BinaryPlatform::LinuxArm32,
        BinaryPlatform::LinuxArm64,
        BinaryPlatform::LinuxAthena,
        BinaryPlatform::LinuxX86_64,
        BinaryPlatform::OsxUniversal,
        BinaryPlatform::WindowsArm64,
        BinaryPlatform::WindowsX86_64,
        BinaryPlatform::Headers,
    ];
    for p in all {
        assert_eq!(BinaryPlatform::parse(p.to_str()), Some(p));
    }
    assert_eq!(BinaryPlatform::parse("linuxx86_64"), None);
    assert_eq!(BinaryPlatform::parse(""), None);
    assert_eq!(BinaryPlatform::parse("Headers"), None);
}

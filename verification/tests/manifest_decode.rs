use vendordeps::{Error, VendorDep};

fn sample(frc_year: &str) -> String {
    let mut s = String::new();
    s.push_str("{\n");
    s.push_str("  \"fileName\": \"phoenix.json\",\n");
    s.push_str("  \"name\": \"Phoenix\",\n");
    s.push_str("  \"version\": \"24.1.0\",\n");
    s.push_str("  \"frcYear\": ");
    s.push_str(frc_year);
    s.push_str(",\n");
    s.push_str("  \"uuid\": \"e995de00-2c64-4df5-8831-c1441420ff19\",\n");
    s.push_str("  \"mavenUrls\": [\"https://maven.ctr-electronics.com/release/\"],\n");
    s.push_str("  \"jsonUrl\": \"https://maven.ctr-electronics.com/release/Phoenix6-latest.json\",\n");
    s.push_str("  \"conflictsWith\": [{\"uuid\": \"other\", \"errorMessage\": \"both included\", \"offlineFileName\": \"other.json\"}],\n");
    s.push_str("  \"javaDependencies\": [{\"groupId\": \"com.ctre.phoenix6\", \"artifactId\": \"wpiapi-java\", \"version\": \"24.1.0\"}],\n");
    s.push_str("  \"jniDependencies\": [{\"groupId\": \"com.ctre.phoenix6\", \"artifactId\": \"api-cpp\", \"version\": \"24.1.0\", \"isJar\": false, \"skipInvalidPlatforms\": true, \"validPlatforms\": [\"linuxx86-64\", \"windowsx86-64\"]}],\n");
    s.push_str("  \"cppDependencies\": [{\"groupId\": \"com.ctre.phoenix6\", \"artifactId\": \"wpiapi-cpp\", \"version\": \"24.1.0\", \"headerClassifier\": \"headers\", \"binaryPlatforms\": [\"linuxathena\"]}]\n");
    s.push_str("}\n");
    s
}

#[test]
fn decodes_a_full_manifest() {
    let dep = VendorDep::from_json(&sample("2024")).unwrap();
    assert_eq!(dep.file_name, "phoenix.json");
    assert_eq!(dep.name, "Phoenix");
    assert_eq!(dep.version, "24.1.0");
    assert_eq!(dep.frc_year, 2024);
    assert_eq!(dep.uuid, "e995de00-2c64-4df5-8831-c1441420ff19");
    assert_eq!(dep.maven_urls, vec!["https://maven.ctr-electronics.com/release/".to_string()]);
    assert_eq!(dep.json_url, "https://maven.ctr-electronics.com/release/Phoenix6-latest.json");
    assert_eq!(dep.conflicts_with.len(), 1);
    assert_eq!(dep.conflicts_with[0].uuid, "other");
    assert_eq!(dep.conflicts_with[0].error_message, "both included");
    assert_eq!(dep.conflicts_with[0].offline_file_name, "other.json");
    assert_eq!(dep.java_dependencies.len(), 1);
    assert_eq!(dep.java_dependencies[0].group_id, "com.ctre.phoenix6");
    assert_eq!(dep.java_dependencies[0].artifact_id, "wpiapi-java");
    assert_eq!(dep.jni_dependencies.len(), 1);
    assert!(!dep.jni_dependencies[0].is_jar);
    assert!(dep.jni_dependencies[0].skip_invalid_platforms);
    assert_eq!(
        dep.jni_dependencies[0].valid_platforms,
        vec!["linuxx86-64".to_string(), "windowsx86-64".to_string()]
    );
    assert_eq!(dep.jni_dependencies[0].sim_mode, None);
    assert_eq!(dep.cpp_dependencies.len(), 1);
    assert_eq!(dep.cpp_dependencies[0].header_classifier, "headers");
    assert_eq!(dep.cpp_dependencies[0].binary_platforms, vec!["linuxathena".to_string()]);
}

#[test]
fn frc_year_accepts_number_and_numeric_string_identically() {
    let from_number = VendorDep::from_json(&sample("2024")).unwrap();
    let from_string = VendorDep::from_json(&sample("\"2024\"")).unwrap();
    assert_eq!(from_number.frc_year, 2024);
    assert_eq!(from_string.frc_year, 2024);
    assert_eq!(format!("{:?}", from_number), format!("{:?}", from_string));
}

#[test]
fn frc_year_rejects_non_integer_forms() {
    assert_eq!(VendorDep::from_json(&sample("20.5")), Err(Error::Parse));
    assert_eq!(VendorDep::from_json(&sample("-2024")), Err(Error::Parse));
    assert_eq!(VendorDep::from_json(&sample("\"20x4\"")), Err(Error::Parse));
    assert_eq!(VendorDep::from_json(&sample("\"\"")), Err(Error::Parse));
    assert_eq!(VendorDep::from_json(&sample("\"99999999999\"")), Err(Error::Parse));
    assert_eq!(VendorDep::from_json(&sample("true")), Err(Error::Parse));
}

#[test]
fn missing_required_field_fails() {
    let text = sample("2024").replace("\"uuid\"", "\"uuiD\"");
    assert_eq!(VendorDep::from_json(&text), Err(Error::Parse));
}

#[test]
fn missing_conflicts_with_defaults_to_empty() {
    let text = sample("2024").replace(
        "  \"conflictsWith\": [{\"uuid\": \"other\", \"errorMessage\": \"both included\", \"offlineFileName\": \"other.json\"}],\n",
        "",
    );
    let dep = VendorDep::from_json(&text).unwrap();
    assert!(dep.conflicts_with.is_empty());
}

#[test]
fn missing_binary_platforms_defaults_to_empty() {
    let text = sample("2024").replace(", \"headerClassifier\": \"headers\", \"binaryPlatforms\": [\"linuxathena\"]", ", \"headerClassifier\": \"headers\"");
    let dep = VendorDep::from_json(&text).unwrap();
    assert!(dep.cpp_dependencies[0].binary_platforms.is_empty());
}

#[test]
fn sim_mode_absent_or_null_is_none_and_string_is_kept() {
    let dep = VendorDep::from_json(&sample("2024")).unwrap();
    assert_eq!(dep.jni_dependencies[0].sim_mode, None);
    let with_null = sample("2024").replace(
        "\"validPlatforms\": [\"linuxx86-64\", \"windowsx86-64\"]",
        "\"validPlatforms\": [], \"simMode\": null",
    );
    assert_eq!(VendorDep::from_json(&with_null).unwrap().jni_dependencies[0].sim_mode, None);
    let with_mode = sample("2024").replace(
        "\"validPlatforms\": [\"linuxx86-64\", \"windowsx86-64\"]",
        "\"validPlatforms\": [], \"simMode\": \"hwsim\"",
    );
    assert_eq!(
        VendorDep::from_json(&with_mode).unwrap().jni_dependencies[0].sim_mode,
        Some("hwsim".to_string())
    );
}

#[test]
fn unknown_fields_are_tolerated() {
    let text = sample("2024").replace(
        "  \"name\": \"Phoenix\",\n",
        "  \"name\": \"Phoenix\",\n  \"somethingNew\": {\"nested\": [1, 2.5, false, null, \"x\"]},\n",
    );
    let dep = VendorDep::from_json(&text).unwrap();
    assert_eq!(dep.name, "Phoenix");
}

#[test]
fn malformed_json_fails_with_parse_error() {
    assert_eq!(VendorDep::from_json("not json"), Err(Error::Parse));
    assert_eq!(VendorDep::from_json(""), Err(Error::Parse));
    assert_eq!(VendorDep::from_json("{\"fileName\": }"), Err(Error::Parse));
    let truncated = &sample("2024")[..100];
    assert_eq!(VendorDep::from_json(truncated), Err(Error::Parse));
    let trailing = format!("{} extra", sample("2024"));
    assert_eq!(VendorDep::from_json(&trailing), Err(Error::Parse));
}

#[test]
fn string_escapes_decode() {
    let text = sample("2024").replace(
        "\"name\": \"Phoenix\"",
        "\"name\": \"a\\n\\t\\\"b\\\\c\\u0041\\uD83D\\uDE00\"",
    );
    let dep = VendorDep::from_json(&text).unwrap();
    assert_eq!(dep.name, "a\n\t\"b\\cA\u{1F600}");
}

#[test]
fn lone_surrogate_escape_fails() {
    let text = sample("2024").replace("\"name\": \"Phoenix\"", "\"name\": \"\\uD83D\"");
    assert_eq!(VendorDep::from_json(&text), Err(Error::Parse));
}

#[test]
fn empty_dependency_lists_decode() {
    let text = sample("2024")
        .replace(
            "\"javaDependencies\": [{\"groupId\": \"com.ctre.phoenix6\", \"artifactId\": \"wpiapi-java\", \"version\": \"24.1.0\"}]",
            "\"javaDependencies\": []",
        )
        .replace(
            "\"jniDependencies\": [{\"groupId\": \"com.ctre.phoenix6\", \"artifactId\": \"api-cpp\", \"version\": \"24.1.0\", \"isJar\": false, \"skipInvalidPlatforms\": true, \"validPlatforms\": [\"linuxx86-64\", \"windowsx86-64\"]}]",
            "\"jniDependencies\": []",
        )
        .replace(
            "\"cppDependencies\": [{\"groupId\": \"com.ctre.phoenix6\", \"artifactId\": \"wpiapi-cpp\", \"version\": \"24.1.0\", \"headerClassifier\": \"headers\", \"binaryPlatforms\": [\"linuxathena\"]}]",
            "\"cppDependencies\": []",
        );
    let dep = VendorDep::from_json(&text).unwrap();
    assert!(dep.java_dependencies.is_empty());
    assert!(dep.jni_dependencies.is_empty());
    assert!(dep.cpp_dependencies.is_empty());
}

#[test]
fn frc_year_at_the_u32_boundary() {
    assert_eq!(VendorDep::from_json(&sample("4294967295")).unwrap().frc_year, u32::MAX);
    assert_eq!(VendorDep::from_json(&sample("4294967296")), Err(Error::Parse));
    assert_eq!(VendorDep::from_json(&sample("\"4294967295\"")).unwrap().frc_year, u32::MAX);
    assert_eq!(VendorDep::from_json(&sample("\"4294967296\"")), Err(Error::Parse));
    assert_eq!(VendorDep::from_json(&sample("0")).unwrap().frc_year, 0);
}

#[test]
fn duplicate_keys_take_the_first_occurrence() {
    let text = sample("2024").replace(
        "\"name\": \"Phoenix\"",
        "\"name\": \"Phoenix\", \"name\": \"Shadowed\"",
    );
    let dep = VendorDep::from_json(&text).unwrap();
    assert_eq!(dep.name, "Phoenix");
}

#[test]
fn manifest_ordering_is_preserved() {
    let text = sample("2024").replace(
        "\"javaDependencies\": [{\"groupId\": \"com.ctre.phoenix6\", \"artifactId\": \"wpiapi-java\", \"version\": \"24.1.0\"}]",
        "\"javaDependencies\": [{\"groupId\": \"g\", \"artifactId\": \"b\", \"version\": \"1\"}, {\"groupId\": \"g\", \"artifactId\": \"a\", \"version\": \"1\"}, {\"groupId\": \"g\", \"artifactId\": \"c\", \"version\": \"1\"}]",
    );
    let dep = VendorDep::from_json(&text).unwrap();
    let order: Vec<&str> = dep.java_dependencies.iter().map(|d| d.artifact_id.as_str()).collect();
    assert_eq!(order, vec!["b", "a", "c"]);
}

//! Decoding a parsed JSON document into the manifest model.
//!
//! The wire format uses camelCase field names, mapped one-to-one onto the
//! model. Required fields fail the decode when absent or of the wrong
//! shape; `conflictsWith` and `binaryPlatforms` default to empty when
//! absent; `simMode` may be absent or null; `frcYear` may arrive as a JSON
//! number or as a string of digits, and both decode to the same year.
//! Unknown fields are tolerated.

use vstd::prelude::*;

use crate::error::Error;
use crate::json::{
    parse_json, spec_is_digit, spec_json_view_members, spec_json_view_seq,
    spec_parse_json, JsonVal, JsonValue,
};
use crate::model::{
    CppDependency, CppDependencyView, JavaDependency, JavaDependencyView, JniDependency,
    JniDependencyView, PackageSpec, PackageSpecView, VendorDep, VendorDepView,
};
use crate::text::str_eq;

verus! {

broadcast use vstd::string::group_string_axioms;

/// The value of the first member named `key`, if any.
pub open spec fn spec_lookup(fields: Seq<(Seq<char>, JsonVal)>, key: Seq<char>) -> Option<
    JsonVal,
>
    decreases fields.len(),
{
    if fields.len() == 0 {
        None
    } else if fields[0].0 == key {
        Some(fields[0].1)
    } else {
        spec_lookup(fields.drop_first(), key)
    }
}

/// A required string member.
pub open spec fn spec_str_field(fields: Seq<(Seq<char>, JsonVal)>, key: Seq<char>) -> Option<
    Seq<char>,
> {
    match spec_lookup(fields, key) {
        Some(JsonVal::Str(s)) => Some(s),
        _ => None,
    }
}

/// A required boolean member.
pub open spec fn spec_bool_field(fields: Seq<(Seq<char>, JsonVal)>, key: Seq<char>) -> Option<
    bool,
> {
    match spec_lookup(fields, key) {
        Some(JsonVal::Bool(b)) => Some(b),
        _ => None,
    }
}

/// A required array member.
pub open spec fn spec_array_field(fields: Seq<(Seq<char>, JsonVal)>, key: Seq<char>) -> Option<
    Seq<JsonVal>,
> {
    match spec_lookup(fields, key) {
        Some(JsonVal::Arr(items)) => Some(items),
        _ => None,
    }
}

/// The numeric value of a digit string.
pub open spec fn spec_decimal_value(t: Seq<char>) -> int
    decreases t.len(),
{
    if t.len() == 0 {
        0
    } else {
        spec_decimal_value(t.drop_last()) * 10 + (t.last() as u32 - 48)
    }
}

/// Every character a decimal digit.
pub open spec fn spec_all_digits(t: Seq<char>) -> bool {
    forall|i: int| 0 <= i < t.len() ==> spec_is_digit(#[trigger] t[i])
}

/// The `u32` a decimal string denotes: an optional leading `+`, then one or
/// more digits, whose value fits.
pub open spec fn spec_u32_from_decimal(s: Seq<char>) -> Option<u32> {
    let t = if s.len() > 0 && s[0] == '+' {
        s.drop_first()
    } else {
        s
    };
    if t.len() == 0 || !spec_all_digits(t) {
        None
    } else if spec_decimal_value(t) > u32::MAX {
        None
    } else {
        Some(spec_decimal_value(t) as u32)
    }
}

/// The year a `frcYear` member denotes: a JSON number and a string of the
/// same digits decode identically.
pub open spec fn spec_year_of(v: JsonVal) -> Option<u32> {
    match v {
        JsonVal::Num(s) => spec_u32_from_decimal(s),
        JsonVal::Str(s) => spec_u32_from_decimal(s),
        _ => None,
    }
}

/// The required `frcYear` member.
pub open spec fn spec_year_field(fields: Seq<(Seq<char>, JsonVal)>) -> Option<u32> {
    match spec_lookup(fields, "frcYear"@) {
        Some(v) => spec_year_of(v),
        None => None,
    }
}

/// An array of strings, in order.
pub open spec fn spec_string_items(items: Seq<JsonVal>) -> Option<Seq<Seq<char>>>
    decreases items.len(),
{
    if items.len() == 0 {
        Some(Seq::empty())
    } else {
        match items[0] {
            JsonVal::Str(s) => match spec_string_items(items.drop_first()) {
                Some(rest) => Some(seq![s] + rest),
                None => None,
            },
            _ => None,
        }
    }
}

/// One `conflictsWith` record.
pub open spec fn spec_package_spec_of(v: JsonVal) -> Option<PackageSpecView> {
    match v {
        JsonVal::Obj(fields) => match (
            spec_str_field(fields, "uuid"@),
            spec_str_field(fields, "errorMessage"@),
            spec_str_field(fields, "offlineFileName"@),
        ) {
            (Some(uuid), Some(error_message), Some(offline_file_name)) => Some(
                PackageSpecView { uuid, error_message, offline_file_name },
            ),
            _ => None,
        },
        _ => None,
    }
}

/// The `conflictsWith` records, in order.
pub open spec fn spec_package_specs_of(items: Seq<JsonVal>) -> Option<Seq<PackageSpecView>>
    decreases items.len(),
{
    if items.len() == 0 {
        Some(Seq::empty())
    } else {
        match spec_package_spec_of(items[0]) {
            Some(p) => match spec_package_specs_of(items.drop_first()) {
                Some(rest) => Some(seq![p] + rest),
                None => None,
            },
            None => None,
        }
    }
}

/// One Java dependency record.
pub open spec fn spec_java_dep_of(v: JsonVal) -> Option<JavaDependencyView> {
    match v {
        JsonVal::Obj(fields) => match (
            spec_str_field(fields, "groupId"@),
            spec_str_field(fields, "artifactId"@),
            spec_str_field(fields, "version"@),
        ) {
            (Some(group_id), Some(artifact_id), Some(version)) => Some(
                JavaDependencyView { group_id, artifact_id, version },
            ),
            _ => None,
        },
        _ => None,
    }
}

/// The Java dependency records, in order.
pub open spec fn spec_java_deps_of(items: Seq<JsonVal>) -> Option<Seq<JavaDependencyView>>
    decreases items.len(),
{
    if items.len() == 0 {
        Some(Seq::empty())
    } else {
        match spec_java_dep_of(items[0]) {
            Some(d) => match spec_java_deps_of(items.drop_first()) {
                Some(rest) => Some(seq![d] + rest),
                None => None,
            },
            None => None,
        }
    }
}

/// The optional `simMode` member: absent and null both mean none.
pub open spec fn spec_sim_mode_of(fields: Seq<(Seq<char>, JsonVal)>) -> Option<
    Option<Seq<char>>,
> {
    match spec_lookup(fields, "simMode"@) {
        None => Some(None),
        Some(JsonVal::Null) => Some(None),
        Some(JsonVal::Str(s)) => Some(Some(s)),
        Some(_) => None,
    }
}

/// One JNI dependency record.
pub open spec fn spec_jni_dep_of(v: JsonVal) -> Option<JniDependencyView> {
    match v {
        JsonVal::Obj(fields) => match (
            spec_str_field(fields, "groupId"@),
            spec_str_field(fields, "artifactId"@),
            spec_str_field(fields, "version"@),
            spec_bool_field(fields, "isJar"@),
            spec_bool_field(fields, "skipInvalidPlatforms"@),
        ) {
            (Some(group_id), Some(artifact_id), Some(version), Some(is_jar), Some(
                skip_invalid_platforms,
            )) => match (
                match spec_array_field(fields, "validPlatforms"@) {
                    Some(items) => spec_string_items(items),
                    None => None,
                },
                spec_sim_mode_of(fields),
            ) {
                (Some(valid_platforms), Some(sim_mode)) => Some(
                    JniDependencyView {
                        group_id,
                        artifact_id,
                        version,
                        is_jar,
                        skip_invalid_platforms,
                        valid_platforms,
                        sim_mode,
                    },
                ),
                _ => None,
            },
            _ => None,
        },
        _ => None,
    }
}

/// The JNI dependency records, in order.
pub open spec fn spec_jni_deps_of(items: Seq<JsonVal>) -> Option<Seq<JniDependencyView>>
    decreases items.len(),
{
    if items.len() == 0 {
        Some(Seq::empty())
    } else {
        match spec_jni_dep_of(items[0]) {
            Some(d) => match spec_jni_deps_of(items.drop_first()) {
                Some(rest) => Some(seq![d] + rest),
                None => None,
            },
            None => None,
        }
    }
}

/// The optional `binaryPlatforms` member: absent means empty.
pub open spec fn spec_binary_platforms_of(fields: Seq<(Seq<char>, JsonVal)>) -> Option<
    Seq<Seq<char>>,
> {
    match spec_lookup(fields, "binaryPlatforms"@) {
        None => Some(Seq::empty()),
        Some(JsonVal::Arr(items)) => spec_string_items(items),
        Some(_) => None,
    }
}

/// One C++ dependency record.
pub open spec fn spec_cpp_dep_of(v: JsonVal) -> Option<CppDependencyView> {
    match v {
        JsonVal::Obj(fields) => match (
            spec_str_field(fields, "groupId"@),
            spec_str_field(fields, "artifactId"@),
            spec_str_field(fields, "version"@),
            spec_str_field(fields, "headerClassifier"@),
            spec_binary_platforms_of(fields),
        ) {
            (Some(group_id), Some(artifact_id), Some(version), Some(header_classifier), Some(
                binary_platforms,
            )) => Some(
                CppDependencyView {
                    group_id,
                    artifact_id,
                    version,
                    header_classifier,
                    binary_platforms,
                },
            ),
            _ => None,
        },
        _ => None,
    }
}

/// The C++ dependency records, in order.
pub open spec fn spec_cpp_deps_of(items: Seq<JsonVal>) -> Option<Seq<CppDependencyView>>
    decreases items.len(),
{
    if items.len() == 0 {
        Some(Seq::empty())
    } else {
        match spec_cpp_dep_of(items[0]) {
            Some(d) => match spec_cpp_deps_of(items.drop_first()) {
                Some(rest) => Some(seq![d] + rest),
                None => None,
            },
            None => None,
        }
    }
}

/// The optional `conflictsWith` member: absent means empty.
pub open spec fn spec_conflicts_of(fields: Seq<(Seq<char>, JsonVal)>) -> Option<
    Seq<PackageSpecView>,
> {
    match spec_lookup(fields, "conflictsWith"@) {
        None => Some(Seq::empty()),
        Some(JsonVal::Arr(items)) => spec_package_specs_of(items),
        Some(_) => None,
    }
}

/// The whole manifest a JSON value decodes to, if it decodes.
pub open spec fn spec_vendor_dep_of(v: JsonVal) -> Option<VendorDepView> {
    match v {
        JsonVal::Obj(fields) => match (
            spec_str_field(fields, "fileName"@),
            spec_str_field(fields, "name"@),
            spec_str_field(fields, "version"@),
            spec_year_field(fields),
            spec_str_field(fields, "uuid"@),
            spec_str_field(fields, "jsonUrl"@),
        ) {
            (Some(file_name), Some(name), Some(version), Some(frc_year), Some(uuid), Some(
                json_url,
            )) => match (
                match spec_array_field(fields, "mavenUrls"@) {
                    Some(items) => spec_string_items(items),
                    None => None,
                },
                spec_conflicts_of(fields),
                match spec_array_field(fields, "javaDependencies"@) {
                    Some(items) => spec_java_deps_of(items),
                    None => None,
                },
                match spec_array_field(fields, "jniDependencies"@) {
                    Some(items) => spec_jni_deps_of(items),
                    None => None,
                },
                match spec_array_field(fields, "cppDependencies"@) {
                    Some(items) => spec_cpp_deps_of(items),
                    None => None,
                },
            ) {
                (Some(maven_urls), Some(conflicts_with), Some(java_dependencies), Some(
                    jni_dependencies,
                ), Some(cpp_dependencies)) => Some(
                    VendorDepView {
                        file_name,
                        name,
                        version,
                        frc_year,
                        uuid,
                        maven_urls,
                        json_url,
                        conflicts_with,
                        java_dependencies,
                        jni_dependencies,
                        cpp_dependencies,
                    },
                ),
                _ => None,
            },
            _ => None,
        },
        _ => None,
    }
}

/// The manifest a JSON document decodes to, if it parses and decodes.
pub open spec fn spec_manifest(s: Seq<char>) -> Option<VendorDepView> {
    match spec_parse_json(s) {
        Some(j) => spec_vendor_dep_of(j),
        None => None,
    }
}

/// Replacing a member's value changes no lookup of another key, and
/// changes the lookup of its own key only when it is the first member so
/// named.
proof fn lemma_lookup_update(fields: Seq<(Seq<char>, JsonVal)>, i: int, val: JsonVal, key: Seq<char>)
    requires
        0 <= i < fields.len(),
    ensures
        key != fields[i].0 ==> spec_lookup(fields.update(i, (fields[i].0, val)), key)
            == spec_lookup(fields, key),
        (key == fields[i].0 && (forall|j: int| 0 <= j < i ==> (#[trigger] fields[j]).0 != key))
            ==> spec_lookup(fields.update(i, (fields[i].0, val)), key) == Some(val)
            && spec_lookup(fields, key) == Some(fields[i].1),
        (exists|j: int| 0 <= j < i && (#[trigger] fields[j]).0 == key) ==> spec_lookup(
            fields.update(i, (fields[i].0, val)),
            key,
        ) == spec_lookup(fields, key),
    decreases fields.len(),
{
    let updated = fields.update(i, (fields[i].0, val));
    assert(updated.len() == fields.len());
    assert(updated[0] == (if i == 0 {
        (fields[0].0, val)
    } else {
        fields[0]
    }));
    if i > 0 {
        lemma_lookup_update(fields.drop_first(), i - 1, val, key);
        assert(updated.drop_first() =~= fields.drop_first().update(i - 1, (fields[i].0, val)));
        assert(fields.drop_first()[i - 1] == fields[i]);
        assert(forall|j: int|
            0 <= j < fields.len() - 1 ==> #[trigger] fields.drop_first()[j] == fields[j + 1]);
        if exists|j: int| 0 <= j < i && (#[trigger] fields[j]).0 == key {
            let j = choose|j: int| 0 <= j < i && (#[trigger] fields[j]).0 == key;
            if j > 0 {
                assert(fields.drop_first()[j - 1].0 == key);
            }
        }
    } else {
        assert(updated.drop_first() =~= fields.drop_first());
    }
}

/// JSON lenience: in a manifest object whose member `i` is `frcYear`
/// holding the digits `s` as a JSON number, replacing that value with the
/// string of the same digits decodes to the very same manifest — and the
/// two fail together.
pub proof fn lemma_frc_year_lenience(fields: Seq<(Seq<char>, JsonVal)>, i: int, s: Seq<char>)
    requires
        0 <= i < fields.len(),
        fields[i].0 == "frcYear"@,
        fields[i].1 == JsonVal::Num(s),
    ensures
        spec_vendor_dep_of(JsonVal::Obj(fields)) == spec_vendor_dep_of(
            JsonVal::Obj(fields.update(i, ("frcYear"@, JsonVal::Str(s)))),
        ),
{
    let val = JsonVal::Str(s);
    let updated = fields.update(i, (fields[i].0, val));
    assert(fields.update(i, ("frcYear"@, JsonVal::Str(s))) =~= updated);
    reveal_strlit("frcYear");
    reveal_strlit("fileName");
    reveal_strlit("name");
    reveal_strlit("version");
    reveal_strlit("uuid");
    reveal_strlit("jsonUrl");
    reveal_strlit("mavenUrls");
    reveal_strlit("conflictsWith");
    reveal_strlit("javaDependencies");
    reveal_strlit("jniDependencies");
    reveal_strlit("cppDependencies");
    assert("frcYear"@.len() == 7);
    assert("fileName"@.len() == 8);
    assert("name"@.len() == 4);
    assert("version"@.len() == 7);
    assert("uuid"@.len() == 4);
    assert("jsonUrl"@.len() == 7);
    assert("mavenUrls"@.len() == 9);
    assert("conflictsWith"@.len() == 13);
    assert("javaDependencies"@.len() == 16);
    assert("jniDependencies"@.len() == 15);
    assert("cppDependencies"@.len() == 15);
    assert("fileName"@ != "frcYear"@);
    assert("name"@ != "frcYear"@);
    assert("version"@[0] != "frcYear"@[0]);
    assert("version"@ != "frcYear"@);
    assert("uuid"@ != "frcYear"@);
    assert("jsonUrl"@[0] != "frcYear"@[0]);
    assert("jsonUrl"@ != "frcYear"@);
    assert("mavenUrls"@ != "frcYear"@);
    assert("conflictsWith"@ != "frcYear"@);
    assert("javaDependencies"@ != "frcYear"@);
    assert("jniDependencies"@ != "frcYear"@);
    assert("cppDependencies"@ != "frcYear"@);
    lemma_lookup_update(fields, i, val, "fileName"@);
    lemma_lookup_update(fields, i, val, "name"@);
    lemma_lookup_update(fields, i, val, "version"@);
    lemma_lookup_update(fields, i, val, "uuid"@);
    lemma_lookup_update(fields, i, val, "jsonUrl"@);
    lemma_lookup_update(fields, i, val, "mavenUrls"@);
    lemma_lookup_update(fields, i, val, "conflictsWith"@);
    lemma_lookup_update(fields, i, val, "javaDependencies"@);
    lemma_lookup_update(fields, i, val, "jniDependencies"@);
    lemma_lookup_update(fields, i, val, "cppDependencies"@);
    lemma_lookup_update(fields, i, val, "frcYear"@);
    if forall|j: int| 0 <= j < i ==> (#[trigger] fields[j]).0 != "frcYear"@ {
        assert(spec_lookup(fields, "frcYear"@) == Some(JsonVal::Num(s)));
        assert(spec_lookup(updated, "frcYear"@) == Some(JsonVal::Str(s)));
        assert(spec_year_field(fields) == spec_year_field(updated));
    } else {
        assert(exists|j: int| 0 <= j < i && (#[trigger] fields[j]).0 == "frcYear"@);
        assert(spec_lookup(updated, "frcYear"@) == spec_lookup(fields, "frcYear"@));
    }
}

/// The value of the first member named `key`, if any.
#[verifier::loop_isolation(false)]
fn lookup<'a>(fields: &'a Vec<(String, JsonValue)>, key: &str) -> (r: Option<&'a JsonValue>)
    ensures
        (match r {
            Some(val) => spec_lookup(spec_json_view_members(fields@), key@) == Some(
                val.deep_view(),
            ),
            None => spec_lookup(spec_json_view_members(fields@), key@) is None,
        }),
{
    let ghost vm = spec_json_view_members(fields@);
    proof {
        crate::json::lemma_json_view_members(fields@);
        assert(vm.skip(0) =~= vm);
    }
    let n = fields.len();
    let mut i: usize = 0;
    while i < n
        invariant
            i <= n,
            spec_lookup(vm, key@) == spec_lookup(vm.skip(i as int), key@),
        decreases n - i,
    {
        proof {
            assert(vm.skip(i as int)[0] == vm[i as int]);
            assert(vm.skip(i as int).drop_first() =~= vm.skip(i + 1));
        }
        if str_eq(fields[i].0.as_str(), key) {
            return Some(&fields[i].1);
        }
        i = i + 1;
    }
    proof {
        assert(vm.skip(n as int) =~= Seq::<(Seq<char>, JsonVal)>::empty());
    }
    None
}

/// A required string member.
fn str_field(fields: &Vec<(String, JsonValue)>, key: &str) -> (r: Option<String>)
    ensures
        (match r {
            Some(s) => spec_str_field(spec_json_view_members(fields@), key@) == Some(s@),
            None => spec_str_field(spec_json_view_members(fields@), key@) is None,
        }),
{
    match lookup(fields, key) {
        Some(JsonValue::Str(s)) => Some(s.clone()),
        _ => None,
    }
}

/// A required boolean member.
fn bool_field(fields: &Vec<(String, JsonValue)>, key: &str) -> (r: Option<bool>)
    ensures
        (match r {
            Some(b) => spec_bool_field(spec_json_view_members(fields@), key@) == Some(b),
            None => spec_bool_field(spec_json_view_members(fields@), key@) is None,
        }),
{
    match lookup(fields, key) {
        Some(JsonValue::Bool(b)) => Some(*b),
        _ => None,
    }
}

/// `spec_decimal_value` of a digit string is never negative.
proof fn lemma_decimal_nonneg(t: Seq<char>)
    requires
        spec_all_digits(t),
    ensures
        spec_decimal_value(t) >= 0,
    decreases t.len(),
{
    if t.len() > 0 {
        assert(spec_all_digits(t.drop_last())) by {
            assert(forall|i: int| 0 <= i < t.len() - 1 ==> #[trigger] t.drop_last()[i] == t[i]);
        }
        lemma_decimal_nonneg(t.drop_last());
    }
}

/// Longer digit strings denote no smaller values.
proof fn lemma_decimal_prefix(t: Seq<char>, m: int)
    requires
        spec_all_digits(t),
        0 <= m <= t.len(),
    ensures
        spec_decimal_value(t) >= spec_decimal_value(t.take(m)),
    decreases t.len() - m,
{
    if m == t.len() {
        assert(t.take(m) =~= t);
    } else {
        assert(t.take(m + 1).drop_last() =~= t.take(m));
        assert(spec_all_digits(t.take(m))) by {
            assert(forall|i: int| 0 <= i < m ==> #[trigger] t.take(m)[i] == t[i]);
        }
        lemma_decimal_nonneg(t.take(m));
        assert(spec_decimal_value(t.take(m + 1)) >= spec_decimal_value(t.take(m)));
        lemma_decimal_prefix(t, m + 1);
    }
}

/// Decode a decimal string as `u32`, accepting an optional leading `+`.
#[verifier::loop_isolation(false)]
fn u32_from_decimal(s: &str) -> (r: Option<u32>)
    ensures
        r == spec_u32_from_decimal(s@),
{
    let v = crate::text::chars_of(s);
    let start: usize = if v.len() > 0 && v[0] == '+' {
        1
    } else {
        0
    };
    let ghost t = if s@.len() > 0 && s@[0] == '+' {
        s@.drop_first()
    } else {
        s@
    };
    proof {
        assert(t =~= v@.skip(start as int));
        assert(forall|j: int| 0 <= j < t.len() ==> t[j] == v@[start + j]);
    }
    if v.len() == start {
        return None;
    }
    let n = v.len();
    let mut acc: u32 = 0;
    let mut i = start;
    proof {
        assert(t.take(0) =~= Seq::<char>::empty());
    }
    while i < n
        invariant
            start <= i <= n,
            n == v@.len(),
            spec_all_digits(t.take(i - start)),
            acc as int == spec_decimal_value(t.take(i - start)),
        decreases n - i,
    {
        let u = v[i] as u32;
        if u < 48 || u > 57 {
            proof {
                assert(t[i - start] == v@[i as int]);
                assert(!spec_all_digits(t));
            }
            return None;
        }
        let d = u - 48;
        proof {
            assert(t.take(i - start + 1).drop_last() =~= t.take(i - start));
            assert(t.take(i - start + 1).last() == v@[i as int]);
            assert(spec_all_digits(t.take(i - start + 1))) by {
                assert(forall|j: int|
                    0 <= j < i - start + 1 ==> #[trigger] t.take(i - start + 1)[j] == t[j]);
            }
        }
        if acc > (0xffff_ffffu32 - d) / 10 {
            proof {
                lemma_decimal_nonneg(t.take(i - start));
                assert(spec_decimal_value(t.take(i - start + 1)) > u32::MAX);
                if spec_all_digits(t) {
                    lemma_decimal_prefix(t, i - start + 1);
                }
            }
            return None;
        }
        acc = acc * 10 + d;
        i = i + 1;
    }
    proof {
        assert(t.take(n - start) =~= t);
    }
    Some(acc)
}

/// The year a `frcYear` member denotes.
fn year_of(v: &JsonValue) -> (r: Option<u32>)
    ensures
        r == spec_year_of(v.deep_view()),
{
    match v {
        JsonValue::Num(s) => u32_from_decimal(s.as_str()),
        JsonValue::Str(s) => u32_from_decimal(s.as_str()),
        _ => None,
    }
}

/// An array of strings, in order.
#[verifier::loop_isolation(false)]
fn decode_strings(items: &Vec<JsonValue>) -> (r: Option<Vec<String>>)
    ensures
        (match r {
            Some(out) => spec_string_items(spec_json_view_seq(items@)) == Some(out.deep_view()),
            None => spec_string_items(spec_json_view_seq(items@)) is None,
        }),
{
    let ghost vi = spec_json_view_seq(items@);
    proof {
        crate::json::lemma_json_view_seq(items@);
        assert(vi.skip(0) =~= vi);
    }
    let mut out: Vec<String> = Vec::new();
    let n = items.len();
    let mut i: usize = 0;
    while i < n
        invariant
            i <= n,
            (match spec_string_items(vi.skip(i as int)) {
                Some(tail) => spec_string_items(vi) == Some(out.deep_view() + tail),
                None => spec_string_items(vi) is None,
            }),
        decreases n - i,
    {
        proof {
            assert(vi.skip(i as int)[0] == vi[i as int]);
            assert(vi.skip(i as int).drop_first() =~= vi.skip(i + 1));
        }
        match &items[i] {
            JsonValue::Str(s) => {
                let ghost prev = out.deep_view();
                let item = s.clone();
                let ghost sv = item@;
                out.push(item);
                proof {
                    assert(out.deep_view() =~= prev.push(sv));
                    match spec_string_items(vi.skip(i + 1)) {
                        Some(tail) => {
                            assert(prev + (seq![sv] + tail) =~= prev.push(sv) + tail);
                        },
                        None => {},
                    }
                }
            },
            _ => {
                return None;
            },
        }
        i = i + 1;
    }
    proof {
        assert(vi.skip(n as int) =~= Seq::<JsonVal>::empty());
        assert(out.deep_view() + Seq::<Seq<char>>::empty() =~= out.deep_view());
    }
    Some(out)
}

/// One `conflictsWith` record.
fn decode_package_spec(v: &JsonValue) -> (r: Option<PackageSpec>)
    ensures
        (match r {
            Some(p) => spec_package_spec_of(v.deep_view()) == Some(p.deep_view()),
            None => spec_package_spec_of(v.deep_view()) is None,
        }),
{
    match v {
        JsonValue::Obj(fields) => {
            let uuid = match str_field(fields, "uuid") {
                Some(s) => s,
                None => {
                    return None;
                },
            };
            let error_message = match str_field(fields, "errorMessage") {
                Some(s) => s,
                None => {
                    return None;
                },
            };
            let offline_file_name = match str_field(fields, "offlineFileName") {
                Some(s) => s,
                None => {
                    return None;
                },
            };
            Some(PackageSpec { uuid, error_message, offline_file_name })
        },
        _ => None,
    }
}

/// One Java dependency record.
fn decode_java_dep(v: &JsonValue) -> (r: Option<JavaDependency>)
    ensures
        (match r {
            Some(d) => spec_java_dep_of(v.deep_view()) == Some(d.deep_view()),
            None => spec_java_dep_of(v.deep_view()) is None,
        }),
{
    match v {
        JsonValue::Obj(fields) => {
            let group_id = match str_field(fields, "groupId") {
                Some(s) => s,
                None => {
                    return None;
                },
            };
            let artifact_id = match str_field(fields, "artifactId") {
                Some(s) => s,
                None => {
                    return None;
                },
            };
            let version = match str_field(fields, "version") {
                Some(s) => s,
                None => {
                    return None;
                },
            };
            Some(JavaDependency { group_id, artifact_id, version })
        },
        _ => None,
    }
}

/// One JNI dependency record.
fn decode_jni_dep(v: &JsonValue) -> (r: Option<JniDependency>)
    ensures
        (match r {
            Some(d) => spec_jni_dep_of(v.deep_view()) == Some(d.deep_view()),
            None => spec_jni_dep_of(v.deep_view()) is None,
        }),
{
    match v {
        JsonValue::Obj(fields) => {
            let group_id = match str_field(fields, "groupId") {
                Some(s) => s,
                None => {
                    return None;
                },
            };
            let artifact_id = match str_field(fields, "artifactId") {
                Some(s) => s,
                None => {
                    return None;
                },
            };
            let version = match str_field(fields, "version") {
                Some(s) => s,
                None => {
                    return None;
                },
            };
            let is_jar = match bool_field(fields, "isJar") {
                Some(b) => b,
                None => {
                    return None;
                },
            };
            let skip_invalid_platforms = match bool_field(fields, "skipInvalidPlatforms") {
                Some(b) => b,
                None => {
                    return None;
                },
            };
            let valid_platforms = match lookup(fields, "validPlatforms") {
                Some(JsonValue::Arr(items)) => match decode_strings(items) {
                    Some(out) => out,
                    None => {
                        return None;
                    },
                },
                _ => {
                    return None;
                },
            };
            let sim_mode = match lookup(fields, "simMode") {
                None => None,
                Some(JsonValue::Null) => None,
                Some(JsonValue::Str(s)) => Some(s.clone()),
                Some(_) => {
                    return None;
                },
            };
            Some(
                JniDependency {
                    group_id,
                    artifact_id,
                    version,
                    is_jar,
                    skip_invalid_platforms,
                    valid_platforms,
                    sim_mode,
                },
            )
        },
        _ => None,
    }
}

/// The `conflictsWith` records, in order.
#[verifier::loop_isolation(false)]
fn decode_package_specs(items: &Vec<JsonValue>) -> (r: Option<Vec<PackageSpec>>)
    ensures
        (match r {
            Some(out) => spec_package_specs_of(spec_json_view_seq(items@)) == Some(
                out.deep_view(),
            ),
            None => spec_package_specs_of(spec_json_view_seq(items@)) is None,
        }),
{
    let ghost vi = spec_json_view_seq(items@);
    proof {
        crate::json::lemma_json_view_seq(items@);
        assert(vi.skip(0) =~= vi);
    }
    let mut out: Vec<PackageSpec> = Vec::new();
    let n = items.len();
    let mut i: usize = 0;
    while i < n
        invariant
            i <= n,
            (match spec_package_specs_of(vi.skip(i as int)) {
                Some(tail) => spec_package_specs_of(vi) == Some(out.deep_view() + tail),
                None => spec_package_specs_of(vi) is None,
            }),
        decreases n - i,
    {
        proof {
            assert(vi.skip(i as int)[0] == vi[i as int]);
            assert(vi.skip(i as int).drop_first() =~= vi.skip(i + 1));
        }
        match decode_package_spec(&items[i]) {
            Some(p) => {
                let ghost prev = out.deep_view();
                let ghost pv = p.deep_view();
                out.push(p);
                proof {
                    assert(out.deep_view() =~= prev.push(pv));
                    match spec_package_specs_of(vi.skip(i + 1)) {
                        Some(tail) => {
                            assert(prev + (seq![pv] + tail) =~= prev.push(pv) + tail);
                        },
                        None => {},
                    }
                }
            },
            None => {
                return None;
            },
        }
        i = i + 1;
    }
    proof {
        assert(vi.skip(n as int) =~= Seq::<JsonVal>::empty());
        assert(out.deep_view() + Seq::<PackageSpecView>::empty() =~= out.deep_view());
    }
    Some(out)
}

/// The Java dependency records, in order.
#[verifier::loop_isolation(false)]
fn decode_java_deps(items: &Vec<JsonValue>) -> (r: Option<Vec<JavaDependency>>)
    ensures
        (match r {
            Some(out) => spec_java_deps_of(spec_json_view_seq(items@)) == Some(out.deep_view()),
            None => spec_java_deps_of(spec_json_view_seq(items@)) is None,
        }),
{
    let ghost vi = spec_json_view_seq(items@);
    proof {
        crate::json::lemma_json_view_seq(items@);
        assert(vi.skip(0) =~= vi);
    }
    let mut out: Vec<JavaDependency> = Vec::new();
    let n = items.len();
    let mut i: usize = 0;
    while i < n
        invariant
            i <= n,
            (match spec_java_deps_of(vi.skip(i as int)) {
                Some(tail) => spec_java_deps_of(vi) == Some(out.deep_view() + tail),
                None => spec_java_deps_of(vi) is None,
            }),
        decreases n - i,
    {
        proof {
            assert(vi.skip(i as int)[0] == vi[i as int]);
            assert(vi.skip(i as int).drop_first() =~= vi.skip(i + 1));
        }
        match decode_java_dep(&items[i]) {
            Some(d) => {
                let ghost prev = out.deep_view();
                let ghost dv = d.deep_view();
                out.push(d);
                proof {
                    assert(out.deep_view() =~= prev.push(dv));
                    match spec_java_deps_of(vi.skip(i + 1)) {
                        Some(tail) => {
                            assert(prev + (seq![dv] + tail) =~= prev.push(dv) + tail);
                        },
                        None => {},
                    }
                }
            },
            None => {
                return None;
            },
        }
        i = i + 1;
    }
    proof {
        assert(vi.skip(n as int) =~= Seq::<JsonVal>::empty());
        assert(out.deep_view() + Seq::<JavaDependencyView>::empty() =~= out.deep_view());
    }
    Some(out)
}

/// One C++ dependency record.
fn decode_cpp_dep(v: &JsonValue) -> (r: Option<CppDependency>)
    ensures
        (match r {
            Some(d) => spec_cpp_dep_of(v.deep_view()) == Some(d.deep_view()),
            None => spec_cpp_dep_of(v.deep_view()) is None,
        }),
{
    match v {
        JsonValue::Obj(fields) => {
            let group_id = match str_field(fields, "groupId") {
                Some(s) => s,
                None => {
                    return None;
                },
            };
            let artifact_id = match str_field(fields, "artifactId") {
                Some(s) => s,
                None => {
                    return None;
                },
            };
            let version = match str_field(fields, "version") {
                Some(s) => s,
                None => {
                    return None;
                },
            };
            let header_classifier = match str_field(fields, "headerClassifier") {
                Some(s) => s,
                None => {
                    return None;
                },
            };
            let binary_platforms: Vec<String> = match lookup(fields, "binaryPlatforms") {
                None => {
                    let empty: Vec<String> = Vec::new();
                    proof {
                        assert(empty.deep_view() =~= Seq::<Seq<char>>::empty());
                    }
                    empty
                },
                Some(JsonValue::Arr(items)) => match decode_strings(items) {
                    Some(out) => out,
                    None => {
                        return None;
                    },
                },
                Some(_) => {
                    return None;
                },
            };
            Some(
                CppDependency { group_id, artifact_id, version, header_classifier, binary_platforms },
            )
        },
        _ => None,
    }
}

/// The JNI dependency records, in order.
#[verifier::loop_isolation(false)]
fn decode_jni_deps(items: &Vec<JsonValue>) -> (r: Option<Vec<JniDependency>>)
    ensures
        (match r {
            Some(out) => spec_jni_deps_of(spec_json_view_seq(items@)) == Some(out.deep_view()),
            None => spec_jni_deps_of(spec_json_view_seq(items@)) is None,
        }),
{
    let ghost vi = spec_json_view_seq(items@);
    proof {
        crate::json::lemma_json_view_seq(items@);
        assert(vi.skip(0) =~= vi);
    }
    let mut out: Vec<JniDependency> = Vec::new();
    let n = items.len();
    let mut i: usize = 0;
    while i < n
        invariant
            i <= n,
            (match spec_jni_deps_of(vi.skip(i as int)) {
                Some(tail) => spec_jni_deps_of(vi) == Some(out.deep_view() + tail),
                None => spec_jni_deps_of(vi) is None,
            }),
        decreases n - i,
    {
        proof {
            assert(vi.skip(i as int)[0] == vi[i as int]);
            assert(vi.skip(i as int).drop_first() =~= vi.skip(i + 1));
        }
        match decode_jni_dep(&items[i]) {
            Some(d) => {
                let ghost prev = out.deep_view();
                let ghost dv = d.deep_view();
                out.push(d);
                proof {
                    assert(out.deep_view() =~= prev.push(dv));
                    match spec_jni_deps_of(vi.skip(i + 1)) {
                        Some(tail) => {
                            assert(prev + (seq![dv] + tail) =~= prev.push(dv) + tail);
                        },
                        None => {},
                    }
                }
            },
            None => {
                return None;
            },
        }
        i = i + 1;
    }
    proof {
        assert(vi.skip(n as int) =~= Seq::<JsonVal>::empty());
        assert(out.deep_view() + Seq::<JniDependencyView>::empty() =~= out.deep_view());
    }
    Some(out)
}

/// The C++ dependency records, in order.
#[verifier::loop_isolation(false)]
fn decode_cpp_deps(items: &Vec<JsonValue>) -> (r: Option<Vec<CppDependency>>)
    ensures
        (match r {
            Some(out) => spec_cpp_deps_of(spec_json_view_seq(items@)) == Some(out.deep_view()),
            None => spec_cpp_deps_of(spec_json_view_seq(items@)) is None,
        }),
{
    let ghost vi = spec_json_view_seq(items@);
    proof {
        crate::json::lemma_json_view_seq(items@);
        assert(vi.skip(0) =~= vi);
    }
    let mut out: Vec<CppDependency> = Vec::new();
    let n = items.len();
    let mut i: usize = 0;
    while i < n
        invariant
            i <= n,
            (match spec_cpp_deps_of(vi.skip(i as int)) {
                Some(tail) => spec_cpp_deps_of(vi) == Some(out.deep_view() + tail),
                None => spec_cpp_deps_of(vi) is None,
            }),
        decreases n - i,
    {
        proof {
            assert(vi.skip(i as int)[0] == vi[i as int]);
            assert(vi.skip(i as int).drop_first() =~= vi.skip(i + 1));
        }
        match decode_cpp_dep(&items[i]) {
            Some(d) => {
                let ghost prev = out.deep_view();
                let ghost dv = d.deep_view();
                out.push(d);
                proof {
                    assert(out.deep_view() =~= prev.push(dv));
                    match spec_cpp_deps_of(vi.skip(i + 1)) {
                        Some(tail) => {
                            assert(prev + (seq![dv] + tail) =~= prev.push(dv) + tail);
                        },
                        None => {},
                    }
                }
            },
            None => {
                return None;
            },
        }
        i = i + 1;
    }
    proof {
        assert(vi.skip(n as int) =~= Seq::<JsonVal>::empty());
        assert(out.deep_view() + Seq::<CppDependencyView>::empty() =~= out.deep_view());
    }
    Some(out)
}

impl VendorDep {
    /// Decode a parsed JSON value into a manifest.
    pub fn from_json_value(v: &JsonValue) -> (r: Result<VendorDep, Error>)
        ensures
            (match r {
                Ok(d) => spec_vendor_dep_of(v.deep_view()) == Some(d.deep_view()),
                Err(e) => spec_vendor_dep_of(v.deep_view()) is None && e == Error::Parse,
            }),
    {
        let fields = match v {
            JsonValue::Obj(fields) => fields,
            _ => {
                return Err(Error::Parse);
            },
        };
        let file_name = match str_field(fields, "fileName") {
            Some(s) => s,
            None => {
                return Err(Error::Parse);
            },
        };
        let name = match str_field(fields, "name") {
            Some(s) => s,
            None => {
                return Err(Error::Parse);
            },
        };
        let version = match str_field(fields, "version") {
            Some(s) => s,
            None => {
                return Err(Error::Parse);
            },
        };
        let frc_year = match lookup(fields, "frcYear") {
            Some(y) => match year_of(y) {
                Some(year) => year,
                None => {
                    return Err(Error::Parse);
                },
            },
            None => {
                return Err(Error::Parse);
            },
        };
        let uuid = match str_field(fields, "uuid") {
            Some(s) => s,
            None => {
                return Err(Error::Parse);
            },
        };
        let json_url = match str_field(fields, "jsonUrl") {
            Some(s) => s,
            None => {
                return Err(Error::Parse);
            },
        };
        let maven_urls = match lookup(fields, "mavenUrls") {
            Some(JsonValue::Arr(items)) => match decode_strings(items) {
                Some(out) => out,
                None => {
                    return Err(Error::Parse);
                },
            },
            _ => {
                return Err(Error::Parse);
            },
        };
        let conflicts_with: Vec<PackageSpec> = match lookup(fields, "conflictsWith") {
            None => {
                let empty: Vec<PackageSpec> = Vec::new();
                proof {
                    assert(empty.deep_view() =~= Seq::<PackageSpecView>::empty());
                }
                empty
            },
            Some(JsonValue::Arr(items)) => match decode_package_specs(items) {
                Some(out) => out,
                None => {
                    return Err(Error::Parse);
                },
            },
            Some(_) => {
                return Err(Error::Parse);
            },
        };
        let java_dependencies = match lookup(fields, "javaDependencies") {
            Some(JsonValue::Arr(items)) => match decode_java_deps(items) {
                Some(out) => out,
                None => {
                    return Err(Error::Parse);
                },
            },
            _ => {
                return Err(Error::Parse);
            },
        };
        let jni_dependencies = match lookup(fields, "jniDependencies") {
            Some(JsonValue::Arr(items)) => match decode_jni_deps(items) {
                Some(out) => out,
                None => {
                    return Err(Error::Parse);
                },
            },
            _ => {
                return Err(Error::Parse);
            },
        };
        let cpp_dependencies = match lookup(fields, "cppDependencies") {
            Some(JsonValue::Arr(items)) => match decode_cpp_deps(items) {
                Some(out) => out,
                None => {
                    return Err(Error::Parse);
                },
            },
            _ => {
                return Err(Error::Parse);
            },
        };
        Ok(
            VendorDep {
                file_name,
                name,
                version,
                frc_year,
                uuid,
                maven_urls,
                json_url,
                conflicts_with,
                java_dependencies,
                jni_dependencies,
                cpp_dependencies,
            },
        )
    }

    /// Parse a manifest document: JSON text in, manifest out, with the
    /// parse error on any document that does not parse or decode.
    pub fn from_json(s: &str) -> (r: Result<VendorDep, Error>)
        ensures
            (match r {
                Ok(d) => spec_manifest(s@) == Some(d.deep_view()),
                Err(e) => spec_manifest(s@) is None && e == Error::Parse,
            }),
    {
        match parse_json(s) {
            Ok(val) => VendorDep::from_json_value(&val),
            Err(_) => Err(Error::Parse),
        }
    }
}

} // verus!

//! The layout scanner: classify walked file paths by extension into shared
//! libraries and the directories to search for them.
//!
//! A path ending in `.so` names a library by its stem with the conventional
//! `lib` prefix (three characters) removed; a path ending in `.dll` names a
//! library by its stem verbatim. Anything else is ignored. The parent
//! directory of every classified file is a library search path.

use vstd::prelude::*;

use crate::text::{chars_of, string_from_chars, sub_chars, vec_contains_string};

verus! {

/// The last index at which `c` occurs in `s`, if any.
pub open spec fn spec_rfind(s: Seq<char>, c: char) -> Option<int>
    decreases s.len(),
{
    if s.len() == 0 {
        None
    } else if s.last() == c {
        Some(s.len() - 1)
    } else {
        spec_rfind(s.drop_last(), c)
    }
}

/// What `spec_rfind` returns: the greatest index holding `c`, or nothing
/// when `c` does not occur.
pub proof fn lemma_rfind(s: Seq<char>, c: char)
    ensures
        match spec_rfind(s, c) {
            Some(i) => 0 <= i < s.len() && s[i] == c && forall|j: int|
                i < j < s.len() ==> s[j] != c,
            None => forall|j: int| 0 <= j < s.len() ==> s[j] != c,
        },
    decreases s.len(),
{
    if s.len() > 0 && s.last() != c {
        lemma_rfind(s.drop_last(), c);
        assert(forall|j: int| 0 <= j < s.len() - 1 ==> s.drop_last()[j] == s[j]);
    }
}

/// The component after the last `/`, or the whole path when it has none.
pub open spec fn spec_file_name(p: Seq<char>) -> Seq<char> {
    match spec_rfind(p, '/') {
        Some(i) => p.skip(i + 1),
        None => p,
    }
}

/// The part before the last `/`, or empty when the path has none.
pub open spec fn spec_parent(p: Seq<char>) -> Seq<char> {
    match spec_rfind(p, '/') {
        Some(i) => p.take(i),
        None => Seq::empty(),
    }
}

/// The stem and extension of a file name, split at its last `.`; no
/// extension when there is no `.` past the first character.
pub open spec fn spec_split_ext(name: Seq<char>) -> Option<(Seq<char>, Seq<char>)> {
    match spec_rfind(name, '.') {
        Some(j) => if j >= 1 {
            Some((name.take(j), name.skip(j + 1)))
        } else {
            None
        },
        None => None,
    }
}

/// The library name a walked path contributes, if any: for `.so` files the
/// stem with its first three characters (`lib`) removed, skipping stems too
/// short to carry that prefix; for `.dll` files the stem verbatim.
pub open spec fn spec_lib_of(p: Seq<char>) -> Option<Seq<char>> {
    match spec_split_ext(spec_file_name(p)) {
        Some((stem, ext)) => if ext == "so"@ {
            if stem.len() >= 3 {
                Some(stem.skip(3))
            } else {
                None
            }
        } else if ext == "dll"@ {
            Some(stem)
        } else {
            None
        },
        None => None,
    }
}

/// The library names contributed by a walk, in walk order, duplicates kept.
pub open spec fn spec_scan_libs(files: Seq<Seq<char>>) -> Seq<Seq<char>>
    decreases files.len(),
{
    if files.len() == 0 {
        Seq::empty()
    } else {
        spec_scan_libs(files.drop_last()) + (match spec_lib_of(files.last()) {
            Some(l) => seq![l],
            None => Seq::<Seq<char>>::empty(),
        })
    }
}

/// The parent directories of the classified files of a walk, in order of
/// first occurrence, each kept once.
pub open spec fn spec_scan_paths(files: Seq<Seq<char>>) -> Seq<Seq<char>>
    decreases files.len(),
{
    if files.len() == 0 {
        Seq::empty()
    } else {
        let rest = spec_scan_paths(files.drop_last());
        match spec_lib_of(files.last()) {
            Some(l) => if rest.contains(spec_parent(files.last())) {
                rest
            } else {
                rest.push(spec_parent(files.last()))
            },
            None => rest,
        }
    }
}

/// The last index at which `c` occurs in `v`.
fn rfind(v: &Vec<char>, c: char) -> (r: Option<usize>)
    ensures
        match r {
            Some(i) => Some(i as int) == spec_rfind(v@, c),
            None => spec_rfind(v@, c) is None,
        },
{
    let mut i = v.len();
    while i > 0
        invariant
            i <= v@.len(),
            forall|j: int| i <= j < v@.len() ==> v@[j] != c,
        decreases i,
    {
        i = i - 1;
        if v[i] == c {
            proof {
                lemma_rfind(v@, c);
            }
            return Some(i);
        }
    }
    proof {
        lemma_rfind(v@, c);
    }
    None
}

/// Classify one walked path: the parent directory and library name it
/// contributes, or nothing when its extension is neither `so` nor `dll`.
pub(crate) fn classify_file(p: &str) -> (r: Option<(String, String)>)
    ensures
        match r {
            Some(pair) => spec_lib_of(p@) == Some(pair.1@) && pair.0@ == spec_parent(p@),
            None => spec_lib_of(p@) is None,
        },
{
    let v = chars_of(p);
    proof {
        lemma_rfind(v@, '/');
    }
    let (parent, name) = match rfind(&v, '/') {
        Some(i) => (sub_chars(&v, 0, i), sub_chars(&v, i + 1, v.len())),
        None => (Vec::new(), sub_chars(&v, 0, v.len())),
    };
    proof {
        assert(v@.subrange(0, v@.len() as int) =~= v@);
        assert(name@ == spec_file_name(p@));
        assert(parent@ == spec_parent(p@));
        lemma_rfind(name@, '.');
    }
    let j = match rfind(&name, '.') {
        Some(j) => j,
        None => {
            return None;
        },
    };
    if j < 1 {
        return None;
    }
    let stem = sub_chars(&name, 0, j);
    let ext = sub_chars(&name, j + 1, name.len());
    proof {
        assert(name@.skip(j + 1) =~= name@.subrange(j + 1, name@.len() as int));
    }
    if crate::text::char_vec_eq(&ext, &chars_of("so")) {
        if stem.len() >= 3 {
            let lib = sub_chars(&stem, 3, stem.len());
            proof {
                assert(stem@.skip(3) =~= stem@.subrange(3, stem@.len() as int));
            }
            Some((string_from_chars(&parent), string_from_chars(&lib)))
        } else {
            None
        }
    } else if crate::text::char_vec_eq(&ext, &chars_of("dll")) {
        Some((string_from_chars(&parent), string_from_chars(&stem)))
    } else {
        None
    }
}

/// Scan one walk: the de-duplicated search paths and the library names it
/// yields, in walk order.
pub(crate) fn scan_entries(entries: &Vec<String>) -> (r: (Vec<String>, Vec<String>))
    ensures
        r.0.deep_view() == spec_scan_paths(entries.deep_view()),
        r.1.deep_view() == spec_scan_libs(entries.deep_view()),
{
    let mut paths: Vec<String> = Vec::new();
    let mut libs: Vec<String> = Vec::new();
    let n = entries.len();
    let mut i: usize = 0;
    while i < n
        invariant
            i <= n,
            n == entries@.len(),
            paths.deep_view() == spec_scan_paths(entries.deep_view().subrange(0, i as int)),
            libs.deep_view() == spec_scan_libs(entries.deep_view().subrange(0, i as int)),
        decreases n - i,
    {
        proof {
            assert(entries.deep_view().subrange(0, i + 1).drop_last() =~= entries.deep_view()
                .subrange(0, i as int));
            assert(entries.deep_view().subrange(0, i + 1).last() == entries.deep_view()[i as int]);
        }
        match classify_file(entries[i].as_str()) {
            Some(pair) => {
                let (parent, lib) = pair;
                libs.push(lib);
                if !vec_contains_string(&paths, &parent) {
                    paths.push(parent);
                }
            },
            None => {},
        }
        proof {
            assert(libs.deep_view() =~= spec_scan_libs(entries.deep_view().subrange(0, i + 1)));
            assert(paths.deep_view() =~= spec_scan_paths(entries.deep_view().subrange(0, i + 1)));
        }
        i = i + 1;
    }
    proof {
        assert(entries.deep_view().subrange(0, n as int) =~= entries.deep_view());
    }
    (paths, libs)
}

} // verus!

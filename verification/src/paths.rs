//! Safety of archive member paths: a member may be materialized only when
//! its path, resolved against the extraction root, stays inside that root.
//!
//! A member name is judged with `/` as the separator, the way archives
//! record paths: it must not contain a NUL, must not be absolute, and its
//! `..` components must never climb above the root. `.` and empty
//! components are ignored, as the operating system ignores them.

use vstd::prelude::*;

use crate::text::{chars_of, sub_chars};

verus! {

/// The first index at which `c` occurs in `s`, if any.
pub open spec fn spec_find(s: Seq<char>, c: char) -> Option<int>
    decreases s.len(),
{
    if s.len() == 0 {
        None
    } else if s[0] == c {
        Some(0)
    } else {
        match spec_find(s.drop_first(), c) {
            Some(i) => Some(i + 1),
            None => None,
        }
    }
}

/// What `spec_find` returns: the least index holding `c`, or nothing when
/// `c` does not occur.
pub proof fn lemma_find(s: Seq<char>, c: char)
    ensures
        match spec_find(s, c) {
            Some(i) => 0 <= i < s.len() && s[i] == c && forall|j: int| 0 <= j < i ==> s[j] != c,
            None => forall|j: int| 0 <= j < s.len() ==> s[j] != c,
        },
    decreases s.len(),
{
    if s.len() > 0 && s[0] != c {
        lemma_find(s.drop_first(), c);
        match spec_find(s.drop_first(), c) {
            Some(i) => {
                assert(s.drop_first()[i] == s[i + 1]);
                assert forall|j: int| 0 <= j < i + 1 implies s[j] != c by {
                    if j > 0 {
                        assert(s.drop_first()[j - 1] == s[j]);
                    }
                }
            },
            None => {
                assert forall|j: int| 0 <= j < s.len() implies s[j] != c by {
                    if j > 0 {
                        assert(s.drop_first()[j - 1] == s[j]);
                    }
                }
            },
        }
    }
}

/// `s` split at every occurrence of `sep`: always one more component than
/// there are separators, so adjacent separators yield empty components.
pub open spec fn spec_split(s: Seq<char>, sep: char) -> Seq<Seq<char>>
    decreases s.len(),
{
    match spec_find(s, sep) {
        None => seq![s],
        Some(i) => {
            proof {
                lemma_find(s, sep);
            }
            seq![s.take(i)] + spec_split(s.skip(i + 1), sep)
        },
    }
}

/// How many directory levels below the root a walk of `parts` ends at:
/// empty and `.` components stay in place, `..` climbs one level, and
/// anything else descends one; nothing when some `..` climbs above the
/// root.
pub open spec fn spec_depth_after(parts: Seq<Seq<char>>) -> Option<int>
    decreases parts.len(),
{
    if parts.len() == 0 {
        Some(0)
    } else {
        match spec_depth_after(parts.drop_last()) {
            None => None,
            Some(d) => {
                let p = parts.last();
                if p == Seq::<char>::empty() || p == "."@ {
                    Some(d)
                } else if p == ".."@ {
                    if d > 0 {
                        Some(d - 1)
                    } else {
                        None
                    }
                } else {
                    Some(d + 1)
                }
            },
        }
    }
}

/// A member name whose file may be created under the extraction root: no
/// NUL, not absolute, and never traversing above the root.
pub open spec fn spec_safe_member(name: Seq<char>) -> bool {
    &&& !name.contains('\0')
    &&& (name.len() == 0 || name[0] != '/')
    &&& spec_depth_after(spec_split(name, '/')) is Some
}

/// The first index at or after `start` holding `c`, if any, located as
/// `spec_find` sees the suffix beginning at `start`.
fn find_from(v: &Vec<char>, start: usize, c: char) -> (r: Option<usize>)
    requires
        start <= v@.len(),
    ensures
        match r {
            Some(i) => start <= i < v@.len() && Some(i - start as int) == spec_find(
                v@.skip(start as int),
                c,
            ),
            None => spec_find(v@.skip(start as int), c) is None,
        },
    decreases v@.len() - start,
{
    let ghost suffix = v@.skip(start as int);
    if start >= v.len() {
        proof {
            assert(suffix =~= Seq::<char>::empty());
        }
        return None;
    }
    proof {
        assert(suffix[0] == v@[start as int]);
    }
    if v[start] == c {
        return Some(start);
    }
    let r = find_from(v, start + 1, c);
    proof {
        assert(v@.skip(start as int + 1) =~= suffix.drop_first());
    }
    r
}

/// Split `v` at every occurrence of `sep`.
fn split_chars(v: &Vec<char>, sep: char) -> (r: Vec<Vec<char>>)
    ensures
        r.deep_view() == spec_split(v@, sep),
{
    let mut r: Vec<Vec<char>> = Vec::new();
    let n = v.len();
    let mut start: usize = 0;
    proof {
        assert(v@.skip(0) =~= v@);
        assert(r.deep_view() =~= Seq::<Seq<char>>::empty());
        assert(Seq::<Seq<char>>::empty() + spec_split(v@, sep) =~= spec_split(v@, sep));
    }
    loop
        invariant
            start <= n,
            n == v@.len(),
            spec_split(v@, sep) == r.deep_view() + spec_split(v@.skip(start as int), sep),
        decreases n - start,
    {
        let ghost suffix = v@.skip(start as int);
        match find_from(v, start, sep) {
            Some(i) => {
                let part = sub_chars(v, start, i);
                let ghost prev = r.deep_view();
                let ghost pv = part@;
                proof {
                    assert(suffix.take(i - start as int) =~= pv);
                    assert(suffix.skip(i - start as int + 1) =~= v@.skip(i + 1));
                    assert(spec_split(suffix, sep) == seq![pv] + spec_split(v@.skip(i + 1), sep));
                }
                proof {
                    assert(part.deep_view() =~= pv);
                }
                r.push(part);
                proof {
                    assert(r.deep_view() =~= prev.push(pv));
                    assert(prev + (seq![pv] + spec_split(v@.skip(i + 1), sep)) =~= prev.push(pv)
                        + spec_split(v@.skip(i + 1), sep));
                }
                start = i + 1;
            },
            None => {
                let part = sub_chars(v, start, n);
                let ghost prev = r.deep_view();
                let ghost pv = part@;
                proof {
                    assert(pv =~= suffix);
                    assert(spec_split(suffix, sep) == seq![suffix]);
                }
                proof {
                    assert(part.deep_view() =~= pv);
                }
                r.push(part);
                proof {
                    assert(r.deep_view() =~= prev.push(pv));
                    assert(prev + seq![suffix] =~= prev.push(pv));
                }
                return r;
            },
        }
    }
}

/// Whether `v` holds `c` anywhere.
fn contains_char(v: &Vec<char>, c: char) -> (r: bool)
    ensures
        r == v@.contains(c),
{
    proof {
        assert(v@.skip(0) =~= v@);
        lemma_find(v@, c);
    }
    match find_from(v, 0, c) {
        Some(i) => {
            assert(v@.contains(c)) by {
                assert(v@[i as int] == c);
            }
            true
        },
        None => {
            proof {
                if v@.contains(c) {
                    let j = choose|j: int| 0 <= j < v@.len() && v@[j] == c;
                    assert(false);
                }
            }
            false
        },
    }
}

/// Decide `spec_safe_member` for one archive member name.
pub fn check_member_path(name: &str) -> (r: bool)
    ensures
        r == spec_safe_member(name@),
{
    let v = chars_of(name);
    if contains_char(&v, '\0') {
        return false;
    }
    if v.len() > 0 && v[0] == '/' {
        return false;
    }
    let parts = split_chars(&v, '/');
    let n = parts.len();
    // `depth` mirrors `spec_depth_after` over the components seen so far;
    // `escaped` records that some `..` climbed above the root.
    let mut depth: usize = 0;
    let mut i: usize = 0;
    proof {
        assert(parts.deep_view().subrange(0, 0) =~= Seq::<Seq<char>>::empty());
    }
    while i < n
        invariant
            i <= n,
            n == parts@.len(),
            v@ == name@,
            parts.deep_view() == spec_split(name@, '/'),
            !name@.contains('\0'),
            name@.len() == 0 || name@[0] != '/',
            spec_depth_after(parts.deep_view().subrange(0, i as int)) == Some(depth as int),
            depth <= i,
        decreases n - i,
    {
        proof {
            assert(parts.deep_view().subrange(0, i + 1).drop_last() =~= parts.deep_view().subrange(
                0,
                i as int,
            ));
            assert(parts.deep_view().subrange(0, i + 1).last() == parts.deep_view()[i as int]);
        }
        let part = &parts[i];
        let empty_chars: Vec<char> = Vec::new();
        let dot = chars_of(".");
        let dotdot = chars_of("..");
        proof {
            assert(empty_chars@ =~= Seq::<char>::empty());
            assert(parts.deep_view()[i as int] == parts@[i as int]@);
        }
        let ghost p = parts.deep_view()[i as int];
        if crate::text::char_vec_eq(part, &empty_chars) || crate::text::char_vec_eq(part, &dot) {
            proof {
                assert(spec_depth_after(parts.deep_view().subrange(0, i + 1)) == Some(
                    depth as int,
                ));
            }
        } else if crate::text::char_vec_eq(part, &dotdot) {
            if depth == 0 {
                proof {
                    assert(spec_depth_after(parts.deep_view().subrange(0, i + 1)) is None);
                    lemma_depth_none_persists(parts.deep_view(), i + 1);
                }
                return false;
            }
            depth = depth - 1;
            proof {
                assert(spec_depth_after(parts.deep_view().subrange(0, i + 1)) == Some(
                    depth as int,
                ));
            }
        } else {
            depth = depth + 1;
            proof {
                assert(p != Seq::<char>::empty() && p != "."@ && p != ".."@);
                assert(spec_depth_after(parts.deep_view().subrange(0, i + 1)) == Some(
                    depth as int,
                ));
            }
        }
        i = i + 1;
    }
    proof {
        assert(parts.deep_view().subrange(0, n as int) =~= parts.deep_view());
    }
    true
}

/// Once a walk has climbed above the root, no further components mend it.
proof fn lemma_depth_none_persists(parts: Seq<Seq<char>>, j: int)
    requires
        0 <= j <= parts.len(),
        spec_depth_after(parts.subrange(0, j)) is None,
    ensures
        spec_depth_after(parts) is None,
    decreases parts.len() - j,
{
    if j == parts.len() {
        assert(parts.subrange(0, j) =~= parts);
    } else {
        assert(parts.subrange(0, j + 1).drop_last() =~= parts.subrange(0, j));
        lemma_depth_none_persists(parts, j + 1);
    }
}

} // verus!

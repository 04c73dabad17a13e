//! A JSON reader for manifest documents: character sequences in, a tree of
//! JSON values out.
//!
//! The grammar is standard JSON: `null`, `true`, `false`, numbers, strings
//! with the usual escapes including `\uXXXX` and surrogate pairs, arrays
//! and objects. Numbers are kept as their verbatim lexemes, so that
//! integer-valued fields can be decoded exactly and anything else carried
//! without loss. Object members are kept in document order, duplicates
//! included.

use vstd::prelude::*;

use crate::error::Error;
use crate::text::{chars_of, string_from_chars, sub_chars};

verus! {

broadcast use vstd::string::group_string_axioms, vstd::std_specs::vec::axiom_vec_index_decreases;

/// One JSON value: a number holds its verbatim lexeme, an object its
/// members in document order.
#[derive(Debug)]
pub enum JsonValue {
    Null,
    Bool(bool),
    Num(String),
    Str(String),
    Arr(Vec<JsonValue>),
    Obj(Vec<(String, JsonValue)>),
}

/// The mathematical value of a [`JsonValue`].
pub enum JsonVal {
    Null,
    Bool(bool),
    Num(Seq<char>),
    Str(Seq<char>),
    Arr(Seq<JsonVal>),
    Obj(Seq<(Seq<char>, JsonVal)>),
}

/// The mathematical value of a [`JsonValue`], member by member.
pub open spec fn spec_json_view(v: JsonValue) -> JsonVal
    decreases v, 1int,
{
    match v {
        JsonValue::Null => JsonVal::Null,
        JsonValue::Bool(b) => JsonVal::Bool(b),
        JsonValue::Num(s) => JsonVal::Num(s@),
        JsonValue::Str(s) => JsonVal::Str(s@),
        JsonValue::Arr(xs) => {
            proof {
                assert(decreases_to!(v, 1int => xs, 2int));
                assert(decreases_to!(xs => xs@));
            }
            JsonVal::Arr(spec_json_view_seq(xs@))
        },
        JsonValue::Obj(ms) => {
            proof {
                assert(decreases_to!(v, 1int => ms, 2int));
                assert(decreases_to!(ms => ms@));
            }
            JsonVal::Obj(spec_json_view_members(ms@))
        },
    }
}

/// The mathematical values of a sequence of JSON values, in order.
pub open spec fn spec_json_view_seq(xs: Seq<JsonValue>) -> Seq<JsonVal>
    decreases xs, 0int,
{
    if xs.len() == 0 {
        Seq::empty()
    } else {
        proof {
            assert(decreases_to!(xs => xs.drop_last()));
            assert(decreases_to!(xs => xs[xs.len() - 1]));
        }
        spec_json_view_seq(xs.drop_last()).push(spec_json_view(xs.last()))
    }
}

/// The mathematical values of a sequence of object members, in order.
pub open spec fn spec_json_view_members(ms: Seq<(String, JsonValue)>) -> Seq<(Seq<char>, JsonVal)>
    decreases ms, 0int,
{
    if ms.len() == 0 {
        Seq::empty()
    } else {
        proof {
            assert(decreases_to!(ms => ms.drop_last()));
            assert(decreases_to!(ms => ms[ms.len() - 1]));
            assert(decreases_to!(ms[ms.len() - 1] => ms[ms.len() - 1].1));
        }
        spec_json_view_members(ms.drop_last()).push(
            (ms.last().0@, spec_json_view(ms.last().1)),
        )
    }
}

/// `spec_json_view_seq`, element by element.
pub proof fn lemma_json_view_seq(xs: Seq<JsonValue>)
    ensures
        spec_json_view_seq(xs).len() == xs.len(),
        forall|i: int|
            0 <= i < xs.len() ==> #[trigger] spec_json_view_seq(xs)[i] == spec_json_view(xs[i]),
    decreases xs.len(),
{
    if xs.len() > 0 {
        lemma_json_view_seq(xs.drop_last());
    }
}

/// `spec_json_view_members`, member by member.
pub proof fn lemma_json_view_members(ms: Seq<(String, JsonValue)>)
    ensures
        spec_json_view_members(ms).len() == ms.len(),
        forall|i: int|
            0 <= i < ms.len() ==> #[trigger] spec_json_view_members(ms)[i] == (
                ms[i].0@,
                spec_json_view(ms[i].1),
            ),
    decreases ms.len(),
{
    if ms.len() > 0 {
        lemma_json_view_members(ms.drop_last());
    }
}

impl DeepView for JsonValue {
    type V = JsonVal;

    open spec fn deep_view(&self) -> JsonVal {
        spec_json_view(*self)
    }
}

/// JSON whitespace.
pub open spec fn spec_is_ws(c: char) -> bool {
    c == ' ' || c == '\t' || c == '\n' || c == '\r'
}

/// A decimal digit.
pub open spec fn spec_is_digit(c: char) -> bool {
    48 <= c as u32 <= 57
}

/// The first index at or past `i` holding something other than JSON
/// whitespace.
pub open spec fn spec_skip_ws(s: Seq<char>, i: int) -> int
    decreases s.len() - i
        when 0 <= i <= s.len()
{
    if i < s.len() && spec_is_ws(s[i]) {
        spec_skip_ws(s, i + 1)
    } else {
        i
    }
}

/// `spec_skip_ws` stays within the input.
pub proof fn lemma_skip_ws_bounds(s: Seq<char>, i: int)
    requires
        0 <= i <= s.len(),
    ensures
        i <= spec_skip_ws(s, i) <= s.len(),
    decreases s.len() - i,
{
    if i < s.len() && spec_is_ws(s[i]) {
        lemma_skip_ws_bounds(s, i + 1);
    }
}

/// The first index at or past `i` holding a non-digit.
pub open spec fn spec_scan_digits(s: Seq<char>, i: int) -> int
    decreases s.len() - i
        when 0 <= i <= s.len()
{
    if i < s.len() && spec_is_digit(s[i]) {
        spec_scan_digits(s, i + 1)
    } else {
        i
    }
}

/// Whether `lit` occurs in `s` starting at `i`.
pub open spec fn spec_match_lit(s: Seq<char>, i: int, lit: Seq<char>) -> bool {
    0 <= i && i + lit.len() <= s.len() && s.subrange(i, i + lit.len()) == lit
}

/// The value of a hexadecimal digit.
pub open spec fn spec_hex_digit(c: char) -> Option<int> {
    if 48 <= c as u32 <= 57 {
        Some(c as u32 - 48)
    } else if 97 <= c as u32 <= 102 {
        Some(c as u32 - 87)
    } else if 65 <= c as u32 <= 70 {
        Some(c as u32 - 55)
    } else {
        None
    }
}

/// The value of the four hexadecimal digits at `i`, when they are there.
pub open spec fn spec_hex4(s: Seq<char>, i: int) -> Option<int> {
    if 0 <= i && i + 4 <= s.len() {
        match (spec_hex_digit(s[i]), spec_hex_digit(s[i + 1]), spec_hex_digit(s[i + 2]), spec_hex_digit(
            s[i + 3],
        )) {
            (Some(a), Some(b), Some(c), Some(d)) => Some(a * 4096 + b * 256 + c * 16 + d),
            _ => None,
        }
    } else {
        None
    }
}

/// Whether a low-surrogate escape `\uXXXX` stands at `i`.
pub open spec fn spec_low_surrogate_at(s: Seq<char>, i: int) -> bool {
    &&& 0 <= i
    &&& i + 6 <= s.len()
    &&& s[i] == '\\'
    &&& s[i + 1] == 'u'
    &&& match spec_hex4(s, i + 2) {
        Some(lo) => 0xDC00 <= lo <= 0xDFFF,
        None => false,
    }
}

/// The scalar value a surrogate pair encodes.
pub open spec fn spec_surrogate_scalar(hi: int, lo: int) -> int {
    0x10000 + (hi - 0xD800) * 0x400 + (lo - 0xDC00)
}

/// The decoded content of a JSON string from `i` (just past the opening
/// quote) to its closing quote, and the index just past that quote.
/// Unescaped control characters, malformed escapes and lone surrogates are
/// refused.
pub open spec fn spec_parse_string_body(s: Seq<char>, i: int) -> Option<(Seq<char>, int)>
    decreases s.len() - i
        when 0 <= i <= s.len()
{
    if i >= s.len() {
        None
    } else {
        let c = s[i];
        if c == '"' {
            Some((Seq::empty(), i + 1))
        } else if c == '\\' {
            if i + 2 > s.len() {
                None
            } else {
                let e = s[i + 1];
                if e == '"' || e == '\\' || e == '/' {
                    spec_cons_string_char(e, spec_parse_string_body(s, i + 2), i)
                } else if e == 'b' {
                    spec_cons_string_char('\u{8}', spec_parse_string_body(s, i + 2), i)
                } else if e == 'f' {
                    spec_cons_string_char('\u{c}', spec_parse_string_body(s, i + 2), i)
                } else if e == 'n' {
                    spec_cons_string_char('\n', spec_parse_string_body(s, i + 2), i)
                } else if e == 'r' {
                    spec_cons_string_char('\r', spec_parse_string_body(s, i + 2), i)
                } else if e == 't' {
                    spec_cons_string_char('\t', spec_parse_string_body(s, i + 2), i)
                } else if e == 'u' {
                    match spec_hex4(s, i + 2) {
                        None => None,
                        Some(u) => if 0xD800 <= u <= 0xDBFF {
                            if spec_low_surrogate_at(s, i + 6) {
                                let lo = spec_hex4(s, i + 8)->Some_0;
                                spec_cons_string_char(
                                    spec_surrogate_scalar(u, lo) as char,
                                    spec_parse_string_body(s, i + 12),
                                    i,
                                )
                            } else {
                                None
                            }
                        } else if 0xDC00 <= u <= 0xDFFF {
                            None
                        } else {
                            spec_cons_string_char(
                                u as char,
                                spec_parse_string_body(s, i + 6),
                                i,
                            )
                        },
                    }
                } else {
                    None
                }
            }
        } else if (c as u32) < 0x20 {
            None
        } else {
            spec_cons_string_char(c, spec_parse_string_body(s, i + 1), i)
        }
    }
}

/// Prepend one decoded character to the rest of a string body's parse.
pub open spec fn spec_cons_string_char(
    c: char,
    rest: Option<(Seq<char>, int)>,
    i: int,
) -> Option<(Seq<char>, int)> {
    match rest {
        None => None,
        Some(p) => Some((seq![c] + p.0, p.1)),
    }
}

/// The index just past the number lexeme starting at `i`: an optional
/// minus sign, digits, an optional fraction, an optional exponent. Nothing
/// when no number starts there.
pub open spec fn spec_number_end(s: Seq<char>, i: int) -> Option<int> {
    if 0 <= i <= s.len() {
        let i1 = if i < s.len() && s[i] == '-' {
            i + 1
        } else {
            i
        };
        let i2 = spec_scan_digits(s, i1);
        if i2 == i1 {
            None
        } else {
            let i3 = if i2 < s.len() && s[i2] == '.' {
                let f = spec_scan_digits(s, i2 + 1);
                if f == i2 + 1 {
                    None
                } else {
                    Some(f)
                }
            } else {
                Some(i2)
            };
            match i3 {
                None => None,
                Some(j) => if j < s.len() && (s[j] == 'e' || s[j] == 'E') {
                    let j1 = if j + 1 < s.len() && (s[j + 1] == '+' || s[j + 1] == '-') {
                        j + 2
                    } else {
                        j + 1
                    };
                    let j2 = spec_scan_digits(s, j1);
                    if j2 == j1 || j1 > s.len() {
                        None
                    } else {
                        Some(j2)
                    }
                } else {
                    Some(j)
                },
            }
        }
    } else {
        None
    }
}

/// The JSON value starting at `i` and the index just past it.
pub open spec fn spec_parse_value(s: Seq<char>, i: int) -> Option<(JsonVal, int)>
    decreases s.len() - i, 1int
        when 0 <= i <= s.len()
{
    if i >= s.len() {
        None
    } else {
        let c = s[i];
        if c == 'n' {
            if spec_match_lit(s, i, "null"@) {
                Some((JsonVal::Null, i + 4))
            } else {
                None
            }
        } else if c == 't' {
            if spec_match_lit(s, i, "true"@) {
                Some((JsonVal::Bool(true), i + 4))
            } else {
                None
            }
        } else if c == 'f' {
            if spec_match_lit(s, i, "false"@) {
                Some((JsonVal::Bool(false), i + 5))
            } else {
                None
            }
        } else if c == '"' {
            match spec_parse_string_body(s, i + 1) {
                None => None,
                Some(p) => Some((JsonVal::Str(p.0), p.1)),
            }
        } else if c == '[' {
            let j = {
                proof {
                    lemma_skip_ws_bounds(s, i + 1);
                }
                spec_skip_ws(s, i + 1)
            };
            if j < s.len() && s[j] == ']' {
                Some((JsonVal::Arr(Seq::empty()), j + 1))
            } else {
                match spec_parse_elements(s, j) {
                    None => None,
                    Some(p) => Some((JsonVal::Arr(p.0), p.1)),
                }
            }
        } else if c == '{' {
            let j = {
                proof {
                    lemma_skip_ws_bounds(s, i + 1);
                }
                spec_skip_ws(s, i + 1)
            };
            if j < s.len() && s[j] == '}' {
                Some((JsonVal::Obj(Seq::empty()), j + 1))
            } else {
                match spec_parse_members(s, j) {
                    None => None,
                    Some(p) => Some((JsonVal::Obj(p.0), p.1)),
                }
            }
        } else {
            match spec_number_end(s, i) {
                None => None,
                Some(end) => Some((JsonVal::Num(s.subrange(i, end)), end)),
            }
        }
    }
}

/// The array elements starting at `i` (at the first element) up to the
/// closing bracket, and the index just past that bracket. The bound checks
/// on intermediate positions are never hit; they bound the recursion.
pub open spec fn spec_parse_elements(s: Seq<char>, i: int) -> Option<(Seq<JsonVal>, int)>
    decreases s.len() - i, 2int
        when 0 <= i <= s.len()
{
    match spec_parse_value(s, i) {
        None => None,
        Some(p) => {
            let (v, end) = p;
            if end <= i || end > s.len() {
                None
            } else {
                let j = {
                    proof {
                        lemma_skip_ws_bounds(s, end);
                    }
                    spec_skip_ws(s, end)
                };
                if j < s.len() && s[j] == ',' {
                    let k = {
                        proof {
                            lemma_skip_ws_bounds(s, j + 1);
                        }
                        spec_skip_ws(s, j + 1)
                    };
                    match spec_parse_elements(s, k) {
                        None => None,
                        Some(q) => Some((seq![v] + q.0, q.1)),
                    }
                } else if j < s.len() && s[j] == ']' {
                    Some((seq![v], j + 1))
                } else {
                    None
                }
            }
        },
    }
}

/// The object members starting at `i` (at the first key's quote) up to the
/// closing brace, and the index just past that brace. The bound checks on
/// intermediate positions are never hit; they bound the recursion.
pub open spec fn spec_parse_members(s: Seq<char>, i: int) -> Option<
    (Seq<(Seq<char>, JsonVal)>, int),
>
    decreases s.len() - i, 2int
        when 0 <= i <= s.len()
{
    if i < s.len() && s[i] == '"' {
        match spec_parse_string_body(s, i + 1) {
            None => None,
            Some(kp) => {
                let (key, e1) = kp;
                if e1 <= i || e1 > s.len() {
                    None
                } else {
                    let j = {
                        proof {
                            lemma_skip_ws_bounds(s, e1);
                        }
                        spec_skip_ws(s, e1)
                    };
                    if j < s.len() && s[j] == ':' {
                        let k = {
                            proof {
                                lemma_skip_ws_bounds(s, j + 1);
                            }
                            spec_skip_ws(s, j + 1)
                        };
                        match spec_parse_value(s, k) {
                            None => None,
                            Some(vp) => {
                                let (v, e2) = vp;
                                if e2 <= k || e2 > s.len() {
                                    None
                                } else {
                                    let m = {
                                        proof {
                                            lemma_skip_ws_bounds(s, e2);
                                        }
                                        spec_skip_ws(s, e2)
                                    };
                                    if m < s.len() && s[m] == ',' {
                                        let nxt = {
                                            proof {
                                                lemma_skip_ws_bounds(s, m + 1);
                                            }
                                            spec_skip_ws(s, m + 1)
                                        };
                                        match spec_parse_members(s, nxt) {
                                            None => None,
                                            Some(q) => Some((seq![(key, v)] + q.0, q.1)),
                                        }
                                    } else if m < s.len() && s[m] == '}' {
                                        Some((seq![(key, v)], m + 1))
                                    } else {
                                        None
                                    }
                                }
                            },
                        }
                    } else {
                        None
                    }
                }
            },
        }
    } else {
        None
    }
}

/// The JSON value of a whole document: one value surrounded by whitespace
/// and nothing else.
pub open spec fn spec_parse_json(s: Seq<char>) -> Option<JsonVal> {
    let i = spec_skip_ws(s, 0);
    match spec_parse_value(s, i) {
        None => None,
        Some(p) => {
            let (v, end) = p;
            if 0 <= end <= s.len() && spec_skip_ws(s, end) == s.len() {
                Some(v)
            } else {
                None
            }
        },
    }
}

/// Advance past JSON whitespace.
#[verifier::loop_isolation(false)]
fn skip_ws(v: &Vec<char>, start: usize) -> (r: usize)
    requires
        start <= v@.len(),
    ensures
        r as int == spec_skip_ws(v@, start as int),
        start <= r <= v@.len(),
{
    let mut i = start;
    while i < v.len() && (v[i] == ' ' || v[i] == '\t' || v[i] == '\n' || v[i] == '\r')
        invariant
            start <= i <= v@.len(),
            spec_skip_ws(v@, start as int) == spec_skip_ws(v@, i as int),
        decreases v@.len() - i,
    {
        i = i + 1;
    }
    i
}

/// Advance past decimal digits.
#[verifier::loop_isolation(false)]
fn scan_digits(v: &Vec<char>, start: usize) -> (r: usize)
    requires
        start <= v@.len(),
    ensures
        r as int == spec_scan_digits(v@, start as int),
        start <= r <= v@.len(),
{
    let mut i = start;
    while i < v.len() && (v[i] as u32) >= 48 && (v[i] as u32) <= 57
        invariant
            start <= i <= v@.len(),
            spec_scan_digits(v@, start as int) == spec_scan_digits(v@, i as int),
        decreases v@.len() - i,
    {
        i = i + 1;
    }
    i
}

/// Whether the characters of `lit` stand in `v` at `i`.
#[verifier::loop_isolation(false)]
fn match_lit(v: &Vec<char>, i: usize, lit: &str) -> (r: bool)
    requires
        i <= v@.len(),
    ensures
        r == spec_match_lit(v@, i as int, lit@),
{
    let l = chars_of(lit);
    let n = l.len();
    if n > v.len() - i {
        return false;
    }
    let mut k: usize = 0;
    while k < n
        invariant
            k <= n,
            forall|j: int| 0 <= j < k ==> v@[i + j] == l@[j],
        decreases n - k,
    {
        if v[i + k] != l[k] {
            proof {
                assert(v@.subrange(i as int, i + n) != lit@) by {
                    assert(v@.subrange(i as int, i + n)[k as int] == v@[i + k]);
                }
            }
            return false;
        }
        k = k + 1;
    }
    proof {
        assert(v@.subrange(i as int, i + n) =~= lit@);
    }
    true
}

/// The value of one hexadecimal digit.
fn hex_digit(c: char) -> (r: Option<u32>)
    ensures
        match r {
            Some(u) => spec_hex_digit(c) == Some(u as int) && u < 16,
            None => spec_hex_digit(c) is None,
        },
{
    let u = c as u32;
    if 48 <= u && u <= 57 {
        Some(u - 48)
    } else if 97 <= u && u <= 102 {
        Some(u - 87)
    } else if 65 <= u && u <= 70 {
        Some(u - 55)
    } else {
        None
    }
}

/// The value of the four hexadecimal digits at `i`, when they are there.
fn hex4(v: &Vec<char>, i: usize) -> (r: Option<u32>)
    ensures
        match r {
            Some(u) => spec_hex4(v@, i as int) == Some(u as int) && u < 0x10000 && i + 4
                <= v@.len(),
            None => spec_hex4(v@, i as int) is None,
        },
{
    if i >= v.len() || v.len() - i < 4 {
        return None;
    }
    let a = match hex_digit(v[i]) {
        Some(x) => x,
        None => {
            return None;
        },
    };
    let b = match hex_digit(v[i + 1]) {
        Some(x) => x,
        None => {
            return None;
        },
    };
    let c = match hex_digit(v[i + 2]) {
        Some(x) => x,
        None => {
            return None;
        },
    };
    let d = match hex_digit(v[i + 3]) {
        Some(x) => x,
        None => {
            return None;
        },
    };
    Some(a * 4096 + b * 256 + c * 16 + d)
}

/// Relies on `char::from_u32`: it is defined exactly for the Unicode
/// scalar values — code points outside the surrogate range — and returns
/// the character with that scalar value.
#[verifier::external_body]
fn char_from_u32(u: u32) -> (r: Option<char>)
    ensures
        r is Some <==> vstd::utf8::is_scalar(u),
        r matches Some(c) ==> c as u32 == u,
{
    char::from_u32(u)
}

/// One step of a string body's decoding extends the accumulated content.
proof fn lemma_string_body_extend(
    s: Seq<char>,
    start: int,
    i: int,
    np: int,
    ch: char,
    prev: Seq<char>,
    acc: Seq<char>,
)
    requires
        spec_parse_string_body(s, i) == spec_cons_string_char(
            ch,
            spec_parse_string_body(s, np),
            i,
        ),
        acc == prev.push(ch),
        (match spec_parse_string_body(s, i) {
            Some(p) => spec_parse_string_body(s, start) == Some((prev + p.0, p.1)),
            None => spec_parse_string_body(s, start) is None,
        }),
    ensures
        (match spec_parse_string_body(s, np) {
            Some(p) => spec_parse_string_body(s, start) == Some((acc + p.0, p.1)),
            None => spec_parse_string_body(s, start) is None,
        }),
{
    match spec_parse_string_body(s, np) {
        Some(p) => {
            assert(prev + (seq![ch] + p.0) =~= prev.push(ch) + p.0);
        },
        None => {},
    }
}

/// Decode a JSON string's content from `start` (just past the opening
/// quote) through its closing quote.
#[verifier::loop_isolation(false)]
fn parse_string_body(v: &Vec<char>, start: usize) -> (r: Option<(Vec<char>, usize)>)
    requires
        start <= v@.len(),
    ensures
        (match r {
            Some(p) => spec_parse_string_body(v@, start as int) == Some((p.0@, p.1 as int))
                && start < p.1 <= v@.len(),
            None => spec_parse_string_body(v@, start as int) is None,
        }),
{
    let mut acc: Vec<char> = Vec::new();
    let mut i = start;
    proof {
        assert(acc@ =~= Seq::<char>::empty());
    }
    loop
        invariant
            start <= i <= v@.len(),
            (match spec_parse_string_body(v@, i as int) {
                Some(p) => spec_parse_string_body(v@, start as int) == Some((acc@ + p.0, p.1)),
                None => spec_parse_string_body(v@, start as int) is None,
            }),
        decreases v@.len() - i,
    {
        if i >= v.len() {
            return None;
        }
        let c = v[i];
        if c == '"' {
            proof {
                assert(acc@ + Seq::<char>::empty() =~= acc@);
            }
            return Some((acc, i + 1));
        }
        let ch: char;
        let np: usize;
        if c == '\\' {
            if v.len() - i < 2 {
                return None;
            }
            let e = v[i + 1];
            if e == '"' || e == '\\' || e == '/' {
                ch = e;
                np = i + 2;
            } else if e == 'b' {
                ch = '\u{8}';
                np = i + 2;
            } else if e == 'f' {
                ch = '\u{c}';
                np = i + 2;
            } else if e == 'n' {
                ch = '\n';
                np = i + 2;
            } else if e == 'r' {
                ch = '\r';
                np = i + 2;
            } else if e == 't' {
                ch = '\t';
                np = i + 2;
            } else if e == 'u' {
                let u = match hex4(v, i + 2) {
                    Some(u) => u,
                    None => {
                        return None;
                    },
                };
                if 0xD800 <= u && u <= 0xDBFF {
                    let pair_ok = v.len() - i >= 12 && v[i + 6] == '\\' && v[i + 7] == 'u';
                    if !pair_ok {
                        proof {
                            assert(!spec_low_surrogate_at(v@, i + 6));
                        }
                        return None;
                    }
                    let lo = match hex4(v, i + 8) {
                        Some(lo) => lo,
                        None => {
                            proof {
                                assert(!spec_low_surrogate_at(v@, i + 6));
                            }
                            return None;
                        },
                    };
                    if !(0xDC00 <= lo && lo <= 0xDFFF) {
                        proof {
                            assert(!spec_low_surrogate_at(v@, i + 6));
                        }
                        return None;
                    }
                    proof {
                        assert(spec_low_surrogate_at(v@, i + 6));
                    }
                    let sc: u32 = 0x10000 + (u - 0xD800) * 0x400 + (lo - 0xDC00);
                    let decoded = match char_from_u32(sc) {
                        Some(d) => d,
                        None => {
                            proof {
                                assert(vstd::utf8::is_scalar(sc));
                                assert(false);
                            }
                            return None;
                        },
                    };
                    proof {
                        vstd::utf8::char_u32_cast(decoded, sc);
                        assert(spec_surrogate_scalar(u as int, lo as int) == sc as int);
                        assert(spec_surrogate_scalar(u as int, lo as int) as char == decoded);
                    }
                    ch = decoded;
                    np = i + 12;
                } else if 0xDC00 <= u && u <= 0xDFFF {
                    return None;
                } else {
                    let decoded = match char_from_u32(u) {
                        Some(d) => d,
                        None => {
                            proof {
                                assert(vstd::utf8::is_scalar(u));
                                assert(false);
                            }
                            return None;
                        },
                    };
                    proof {
                        vstd::utf8::char_u32_cast(decoded, u);
                        assert((u as int) as char == decoded);
                    }
                    ch = decoded;
                    np = i + 6;
                }
            } else {
                return None;
            }
        } else if (c as u32) < 0x20 {
            return None;
        } else {
            ch = c;
            np = i + 1;
        }
        let ghost prev = acc@;
        acc.push(ch);
        proof {
            lemma_string_body_extend(v@, start as int, i as int, np as int, ch, prev, acc@);
        }
        i = np;
    }
}

/// The index just past the number lexeme at `i`, when one starts there.
fn number_end(v: &Vec<char>, i: usize) -> (r: Option<usize>)
    requires
        i <= v@.len(),
    ensures
        match r {
            Some(e) => spec_number_end(v@, i as int) == Some(e as int) && i < e <= v@.len(),
            None => spec_number_end(v@, i as int) is None,
        },
{
    let i1 = if i < v.len() && v[i] == '-' {
        i + 1
    } else {
        i
    };
    let i2 = scan_digits(v, i1);
    if i2 == i1 {
        return None;
    }
    let j = if i2 < v.len() && v[i2] == '.' {
        let f = scan_digits(v, i2 + 1);
        if f == i2 + 1 {
            return None;
        }
        f
    } else {
        i2
    };
    if j < v.len() && (v[j] == 'e' || v[j] == 'E') {
        let j1 = if j + 1 < v.len() && (v[j + 1] == '+' || v[j + 1] == '-') {
            j + 2
        } else {
            j + 1
        };
        let j2 = scan_digits(v, j1);
        if j2 == j1 {
            return None;
        }
        Some(j2)
    } else {
        Some(j)
    }
}

/// The JSON value at `i` and the index just past it.
#[verifier::loop_isolation(false)]
fn parse_value(v: &Vec<char>, i: usize) -> (r: Option<(JsonValue, usize)>)
    requires
        i <= v@.len(),
    ensures
        (match r {
            Some(p) => spec_parse_value(v@, i as int) == Some((p.0.deep_view(), p.1 as int)) && i
                < p.1 <= v@.len(),
            None => spec_parse_value(v@, i as int) is None,
        }),
    decreases v@.len() - i, 1int,
{
    if i >= v.len() {
        return None;
    }
    let c = v[i];
    if c == 'n' {
        if match_lit(v, i, "null") {
            proof {
                reveal_strlit("null");
            }
            Some((JsonValue::Null, i + 4))
        } else {
            None
        }
    } else if c == 't' {
        if match_lit(v, i, "true") {
            proof {
                reveal_strlit("true");
            }
            Some((JsonValue::Bool(true), i + 4))
        } else {
            None
        }
    } else if c == 'f' {
        if match_lit(v, i, "false") {
            proof {
                reveal_strlit("false");
            }
            Some((JsonValue::Bool(false), i + 5))
        } else {
            None
        }
    } else if c == '"' {
        match parse_string_body(v, i + 1) {
            None => None,
            Some(p) => {
                let (chars, end) = p;
                Some((JsonValue::Str(string_from_chars(&chars)), end))
            },
        }
    } else if c == '[' {
        let j = skip_ws(v, i + 1);
        if j < v.len() && v[j] == ']' {
            let items: Vec<JsonValue> = Vec::new();
            proof {
                assert(items@ =~= Seq::<JsonValue>::empty());
                assert(spec_json_view_seq(items@) =~= Seq::<JsonVal>::empty());
            }
            Some((JsonValue::Arr(items), j + 1))
        } else {
            match parse_elements(v, j) {
                None => None,
                Some(p) => {
                    let (items, end) = p;
                    Some((JsonValue::Arr(items), end))
                },
            }
        }
    } else if c == '{' {
        let j = skip_ws(v, i + 1);
        if j < v.len() && v[j] == '}' {
            let members: Vec<(String, JsonValue)> = Vec::new();
            proof {
                assert(members@ =~= Seq::<(String, JsonValue)>::empty());
                assert(spec_json_view_members(members@) =~= Seq::<(Seq<char>, JsonVal)>::empty());
            }
            Some((JsonValue::Obj(members), j + 1))
        } else {
            match parse_members(v, j) {
                None => None,
                Some(p) => {
                    let (members, end) = p;
                    Some((JsonValue::Obj(members), end))
                },
            }
        }
    } else {
        match number_end(v, i) {
            None => None,
            Some(end) => {
                let lexeme = sub_chars(v, i, end);
                Some((JsonValue::Num(string_from_chars(&lexeme)), end))
            },
        }
    }
}

/// The array elements at `i` (at the first element) through the closing
/// bracket.
#[verifier::loop_isolation(false)]
fn parse_elements(v: &Vec<char>, i: usize) -> (r: Option<(Vec<JsonValue>, usize)>)
    requires
        i <= v@.len(),
    ensures
        (match r {
            Some(p) => spec_parse_elements(v@, i as int) == Some(
                (spec_json_view_seq(p.0@), p.1 as int),
            ) && i < p.1 <= v@.len(),
            None => spec_parse_elements(v@, i as int) is None,
        }),
    decreases v@.len() - i, 2int,
{
    let first = match parse_value(v, i) {
        None => {
            return None;
        },
        Some(p) => p,
    };
    let (val, end) = first;
    let j = skip_ws(v, end);
    if j < v.len() && v[j] == ',' {
        let k = skip_ws(v, j + 1);
        match parse_elements(v, k) {
            None => None,
            Some(p) => {
                let (mut items, e) = p;
                let ghost rest = items@;
                items.insert(0, val);
                proof {
                    assert(items@ =~= seq![val] + rest);
                    lemma_json_view_seq(items@);
                    lemma_json_view_seq(rest);
                    assert(spec_json_view_seq(items@) =~= seq![spec_json_view(val)]
                        + spec_json_view_seq(rest));
                }
                Some((items, e))
            },
        }
    } else if j < v.len() && v[j] == ']' {
        let mut items: Vec<JsonValue> = Vec::new();
        items.push(val);
        proof {
            assert(items@ =~= seq![val]);
            lemma_json_view_seq(items@);
            assert(spec_json_view_seq(items@) =~= seq![spec_json_view(val)]);
        }
        Some((items, j + 1))
    } else {
        None
    }
}

/// The object members at `i` (at the first key's quote) through the
/// closing brace.
#[verifier::loop_isolation(false)]
fn parse_members(v: &Vec<char>, i: usize) -> (r: Option<(Vec<(String, JsonValue)>, usize)>)
    requires
        i <= v@.len(),
    ensures
        (match r {
            Some(p) => spec_parse_members(v@, i as int) == Some(
                (spec_json_view_members(p.0@), p.1 as int),
            ) && i < p.1 <= v@.len(),
            None => spec_parse_members(v@, i as int) is None,
        }),
    decreases v@.len() - i, 2int,
{
    if !(i < v.len() && v[i] == '"') {
        return None;
    }
    let kp = match parse_string_body(v, i + 1) {
        None => {
            return None;
        },
        Some(p) => p,
    };
    let (key_chars, e1) = kp;
    let key = string_from_chars(&key_chars);
    let j = skip_ws(v, e1);
    if !(j < v.len() && v[j] == ':') {
        return None;
    }
    let k = skip_ws(v, j + 1);
    let vp = match parse_value(v, k) {
        None => {
            return None;
        },
        Some(p) => p,
    };
    let (val, e2) = vp;
    let m = skip_ws(v, e2);
    if m < v.len() && v[m] == ',' {
        let nxt = skip_ws(v, m + 1);
        match parse_members(v, nxt) {
            None => None,
            Some(p) => {
                let (mut members, e) = p;
                let ghost rest = members@;
                let ghost kv = (key, val);
                members.insert(0, (key, val));
                proof {
                    assert(members@ =~= seq![kv] + rest);
                    lemma_json_view_members(members@);
                    lemma_json_view_members(rest);
                    assert(spec_json_view_members(members@) =~= seq![
                        (kv.0@, spec_json_view(kv.1)),
                    ] + spec_json_view_members(rest));
                }
                Some((members, e))
            },
        }
    } else if m < v.len() && v[m] == '}' {
        let ghost kv = (key, val);
        let mut members: Vec<(String, JsonValue)> = Vec::new();
        members.push((key, val));
        proof {
            assert(members@ =~= seq![kv]);
            lemma_json_view_members(members@);
            assert(spec_json_view_members(members@) =~= seq![(kv.0@, spec_json_view(kv.1))]);
        }
        Some((members, m + 1))
    } else {
        None
    }
}

/// Parse a whole JSON document: one value surrounded by whitespace and
/// nothing else.
pub fn parse_json(s: &str) -> (r: Result<JsonValue, Error>)
    ensures
        (match r {
            Ok(val) => spec_parse_json(s@) == Some(val.deep_view()),
            Err(e) => spec_parse_json(s@) is None && e == Error::Parse,
        }),
{
    let v = chars_of(s);
    let i = skip_ws(&v, 0);
    match parse_value(&v, i) {
        None => Err(Error::Parse),
        Some(p) => {
            let (val, end) = p;
            if skip_ws(&v, end) == v.len() {
                Ok(val)
            } else {
                Err(Error::Parse)
            }
        },
    }
}

} // verus!

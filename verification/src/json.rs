//! A small JSON value model and parser.
//!
//! Carrier responses and the cache file are JSON documents; this module
//! parses them into a transparent value type that the carrier field
//! mappings are verified against. The parser is specified functionally:
//! `spec_parse_doc` says which view a document denotes, `parse` returns
//! exactly that view's value, and `lemma_matches_get` carries field
//! lookups between the two. Numbers are kept as their lexemes: no carrier
//! field the library reads is numeric.

use vstd::prelude::*;
use vstd::string::StrSliceExecFns;
use vstd::utf8::{decode_utf8, encode_utf8, valid_utf8};

use crate::strutil::eq_str;

verus! {

/// A JSON document value.
#[derive(Debug)]
pub enum JsonValue {
    Null,
    Bool(bool),
    /// A number, kept as its unparsed lexeme.
    Num(String),
    Str(String),
    Arr(Vec<JsonValue>),
    Obj(Vec<(String, JsonValue)>),
}

/// The mathematical image of a JSON document value, used to state what the
/// parser yields.
pub enum JsonView {
    NullV,
    BoolV(bool),
    NumV(Seq<char>),
    StrV(Seq<char>),
    ArrV(Seq<JsonView>),
    ObjV(Seq<(Seq<char>, JsonView)>),
}

/// The parsed value `v` is the image of the view `w`, with container
/// nesting below `d`.
pub open spec fn matches_view(v: JsonValue, w: JsonView, d: int) -> bool
    decreases d,
{
    d > 0 && match (v, w) {
        (JsonValue::Null, JsonView::NullV) => true,
        (JsonValue::Bool(a), JsonView::BoolV(b)) => a == b,
        (JsonValue::Num(a), JsonView::NumV(b)) => a@ == b,
        (JsonValue::Str(a), JsonView::StrV(b)) => a@ == b,
        (JsonValue::Arr(items), JsonView::ArrV(ws)) => items@.len() == ws.len() && forall|k: int|
            0 <= k < ws.len() ==> matches_view(#[trigger] items@[k], ws[k], d - 1),
        (JsonValue::Obj(ps), JsonView::ObjV(qs)) => ps@.len() == qs.len() && forall|k: int|
            0 <= k < qs.len() ==> (#[trigger] ps@[k]).0@ == qs[k].0 && matches_view(
                ps@[k].1,
                qs[k].1,
                d - 1,
            ),
        _ => false,
    }
}

/// The value under `key` in an object's pair list: the last binding of a
/// duplicated key wins.
pub open spec fn spec_obj_get(ps: Seq<(String, JsonValue)>, key: Seq<char>) -> Option<JsonValue>
    decreases ps.len(),
{
    if ps.len() == 0 {
        None
    } else if ps.last().0@ == key {
        Some(ps.last().1)
    } else {
        spec_obj_get(ps.drop_last(), key)
    }
}

proof fn lemma_obj_get_suffix(ps: Seq<(String, JsonValue)>, key: Seq<char>, i: int)
    requires
        0 <= i <= ps.len(),
        forall|j: int| i <= j < ps.len() ==> ps[j].0@ != key,
    ensures
        spec_obj_get(ps, key) == spec_obj_get(ps.subrange(0, i), key),
    decreases ps.len() - i,
{
    if i < ps.len() {
        lemma_obj_get_suffix(ps.drop_last(), key, i);
        assert(ps.drop_last().subrange(0, i) =~= ps.subrange(0, i));
    } else {
        assert(ps.subrange(0, i) =~= ps);
    }
}

impl JsonValue {
    /// The field `key` of this value, when it is an object that has it.
    pub open spec fn spec_get(self, key: Seq<char>) -> Option<JsonValue> {
        match self {
            JsonValue::Obj(ps) => spec_obj_get(ps@, key),
            _ => None,
        }
    }

    /// Look up a field of an object value.
    pub fn get<'a>(&'a self, key: &str) -> (r: Option<&'a JsonValue>)
        ensures
            match r {
                Some(v) => self.spec_get(key@) == Some(*v),
                None => self.spec_get(key@) is None,
            },
    {
        let ps = match self {
            JsonValue::Obj(ps) => ps,
            _ => {
                return None;
            },
        };
        proof {
            assert(self.spec_get(key@) == spec_obj_get(ps@, key@));
        }
        let mut i: usize = ps.len();
        while i > 0
            invariant
                i <= ps@.len(),
                self.spec_get(key@) == spec_obj_get(ps@, key@),
                forall|j: int| i <= j < ps@.len() ==> ps@[j].0@ != key@,
            decreases i,
        {
            i -= 1;
            if eq_str(ps[i].0.as_str(), key) {
                proof {
                    lemma_obj_get_suffix(ps@, key@, i + 1);
                    assert(ps@.subrange(0, i + 1).last() == ps@[i as int]);
                    assert(spec_obj_get(ps@.subrange(0, i + 1), key@) == Some(ps@[i as int].1));
                }
                return Some(&ps[i].1);
            }
        }
        proof {
            lemma_obj_get_suffix(ps@, key@, 0);
            assert(ps@.subrange(0, 0).len() == 0);
        }
        None
    }
}

impl JsonValue {
    /// The string field `key` of an object value, if present and a string.
    pub fn str_field(&self, key: &str) -> (r: Option<String>)
        ensures
            match r {
                Some(s) => self.spec_get(key@) matches Some(JsonValue::Str(t)) && s@ == t@,
                None => !(self.spec_get(key@) matches Some(JsonValue::Str(t))),
            },
    {
        match self.get(key) {
            Some(JsonValue::Str(s)) => {
                let r = s.clone();
                proof {
                    assert(self.spec_get(key@) == Some(JsonValue::Str(*s)));
                }
                Some(r)
            },
            _ => None,
        }
    }

    /// The boolean field `key` of an object value, if present and boolean.
    pub fn bool_field(&self, key: &str) -> (r: Option<bool>)
        ensures
            match r {
                Some(b) => self.spec_get(key@) == Some(JsonValue::Bool(b)),
                None => !(self.spec_get(key@) matches Some(JsonValue::Bool(b))),
            },
    {
        match self.get(key) {
            Some(JsonValue::Bool(b)) => Some(*b),
            _ => None,
        }
    }
}

/// Relies on `String::from_utf8`: yields the string whose UTF-8 encoding
/// is the given byte vector, or nothing when the bytes are not valid
/// UTF-8.
#[verifier::external_body]
fn bytes_to_string(v: Vec<u8>) -> (r: Option<String>)
    ensures
        r matches Some(s) ==> valid_utf8(v@) && s@ == decode_utf8(v@),
        r is None ==> !valid_utf8(v@),
{
    String::from_utf8(v).ok()
}

/// A JSON whitespace byte.
pub open spec fn is_ws(b: u8) -> bool {
    b == 32 || b == 9 || b == 10 || b == 13
}

/// First position at or after `i` holding a non-whitespace byte.
pub open spec fn spec_skip_ws(bs: Seq<u8>, i: int) -> int
    decreases bs.len() - i,
{
    if 0 <= i < bs.len() && is_ws(bs[i]) {
        spec_skip_ws(bs, i + 1)
    } else {
        i
    }
}

/// First position at or after `i` holding a non-whitespace byte.
fn skip_ws(bs: &[u8], i: usize) -> (j: usize)
    requires
        i <= bs@.len(),
    ensures
        i <= j <= bs@.len(),
        j as int == spec_skip_ws(bs@, i as int),
{
    let mut j = i;
    while j < bs.len() && (bs[j] == 32 || bs[j] == 9 || bs[j] == 10 || bs[j] == 13)
        invariant
            i <= j <= bs@.len(),
            spec_skip_ws(bs@, i as int) == spec_skip_ws(bs@, j as int),
        decreases bs@.len() - j,
    {
        j += 1;
    }
    j
}

/// The UTF-8 encoding of the code point `cp`.
pub open spec fn spec_utf8_of(cp: u32) -> Seq<u8> {
    if cp < 0x80 {
        seq![cp as u8]
    } else if cp < 0x800 {
        seq![(0xC0 | (cp / 0x40)) as u8, (0x80 | (cp % 0x40)) as u8]
    } else if cp < 0x1_0000 {
        seq![
            (0xE0 | (cp / 0x1000)) as u8,
            (0x80 | ((cp / 0x40) % 0x40)) as u8,
            (0x80 | (cp % 0x40)) as u8,
        ]
    } else {
        seq![
            (0xF0 | (cp / 0x4_0000)) as u8,
            (0x80 | ((cp / 0x1000) % 0x40)) as u8,
            (0x80 | ((cp / 0x40) % 0x40)) as u8,
            (0x80 | (cp % 0x40)) as u8,
        ]
    }
}

/// Append the UTF-8 encoding of the code point `cp` to `out`.
fn push_code_point(out: &mut Vec<u8>, cp: u32)
    requires
        cp < 0x11_0000,
    ensures
        final(out)@ == old(out)@ + spec_utf8_of(cp),
{
    if cp < 0x80 {
        out.push(cp as u8);
    } else if cp < 0x800 {
        out.push((0xC0 | (cp / 0x40)) as u8);
        out.push((0x80 | (cp % 0x40)) as u8);
    } else if cp < 0x1_0000 {
        out.push((0xE0 | (cp / 0x1000)) as u8);
        out.push((0x80 | ((cp / 0x40) % 0x40)) as u8);
        out.push((0x80 | (cp % 0x40)) as u8);
    } else {
        out.push((0xF0 | (cp / 0x4_0000)) as u8);
        out.push((0x80 | ((cp / 0x1000) % 0x40)) as u8);
        out.push((0x80 | ((cp / 0x40) % 0x40)) as u8);
        out.push((0x80 | (cp % 0x40)) as u8);
    }
}

/// The value of a hexadecimal digit byte, if it is one.
pub open spec fn spec_hex_val(b: u8) -> Option<u32> {
    if 48 <= b <= 57 {
        Some((b - 48) as u32)
    } else if 97 <= b <= 102 {
        Some((b - 97 + 10) as u32)
    } else if 65 <= b <= 70 {
        Some((b - 65 + 10) as u32)
    } else {
        None
    }
}

/// The value of the four hex digits at `i`, when all four are there.
pub open spec fn spec_hex4(bs: Seq<u8>, i: int) -> Option<u32> {
    if 0 <= i && i + 4 <= bs.len() {
        match (spec_hex_val(bs[i]), spec_hex_val(bs[i + 1]), spec_hex_val(bs[i + 2]), spec_hex_val(
            bs[i + 3],
        )) {
            (Some(a), Some(b), Some(c), Some(d)) => Some(
                (a * 0x1000 + b * 0x100 + c * 0x10 + d) as u32,
            ),
            _ => None,
        }
    } else {
        None
    }
}

/// The value of a hexadecimal digit byte, if it is one.
fn hex_val(b: u8) -> (r: Option<u32>)
    ensures
        r == spec_hex_val(b),
        r matches Some(v) ==> v < 16,
{
    if 48 <= b && b <= 57 {
        Some((b - 48) as u32)
    } else if 97 <= b && b <= 102 {
        Some((b - 97 + 10) as u32)
    } else if 65 <= b && b <= 70 {
        Some((b - 65 + 10) as u32)
    } else {
        None
    }
}

/// Read the four hex digits of a `\u` escape at `i`.
fn parse_hex4(bs: &[u8], i: usize) -> (r: Option<u32>)
    requires
        i <= bs@.len(),
    ensures
        r == spec_hex4(bs@, i as int),
        r matches Some(v) ==> v < 0x1_0000 && i + 4 <= bs@.len(),
{
    if bs.len() - i < 4 {
        return None;
    }
    let a = match hex_val(bs[i]) {
        Some(v) => v,
        None => {
            return None;
        },
    };
    let b = match hex_val(bs[i + 1]) {
        Some(v) => v,
        None => {
            return None;
        },
    };
    let c = match hex_val(bs[i + 2]) {
        Some(v) => v,
        None => {
            return None;
        },
    };
    let d = match hex_val(bs[i + 3]) {
        Some(v) => v,
        None => {
            return None;
        },
    };
    Some(a * 0x1000 + b * 0x100 + c * 0x10 + d)
}

/// Scan a string body from `j`, accumulating decoded raw bytes in `acc`,
/// until the closing quote; the escapes are resolved as they are read.
pub open spec fn spec_scan_string(bs: Seq<u8>, j: int, acc: Seq<u8>) -> Option<(Seq<u8>, int)>
    decreases bs.len() - j,
{
    if !(0 <= j < bs.len()) {
        None
    } else {
        let b = bs[j];
        if b == 34 {
            Some((acc, j + 1))
        } else if b == 92 {
            if j + 1 >= bs.len() {
                None
            } else {
                let e = bs[j + 1];
                if e == 34 || e == 92 || e == 47 {
                    spec_scan_string(bs, j + 2, acc.push(e))
                } else if e == 98 {
                    spec_scan_string(bs, j + 2, acc.push(8))
                } else if e == 102 {
                    spec_scan_string(bs, j + 2, acc.push(12))
                } else if e == 110 {
                    spec_scan_string(bs, j + 2, acc.push(10))
                } else if e == 114 {
                    spec_scan_string(bs, j + 2, acc.push(13))
                } else if e == 116 {
                    spec_scan_string(bs, j + 2, acc.push(9))
                } else if e == 117 {
                    match spec_hex4(bs, j + 2) {
                        Some(cp) => if 0xD800 <= cp < 0xDC00 {
                            if bs.len() - j < 12 {
                                None
                            } else if bs[j + 6] != 92 || bs[j + 7] != 117 {
                                None
                            } else {
                                match spec_hex4(bs, j + 8) {
                                    Some(lo) => if 0xDC00 <= lo < 0xE000 {
                                        spec_scan_string(
                                            bs,
                                            j + 12,
                                            acc + spec_utf8_of(
                                                (0x1_0000 + (cp - 0xD800) * 0x400 + (lo - 0xDC00)) as u32,
                                            ),
                                        )
                                    } else {
                                        None
                                    },
                                    None => None,
                                }
                            }
                        } else if 0xDC00 <= cp < 0xE000 {
                            None
                        } else {
                            spec_scan_string(bs, j + 6, acc + spec_utf8_of(cp))
                        },
                        None => None,
                    }
                } else {
                    None
                }
            }
        } else {
            spec_scan_string(bs, j + 1, acc.push(b))
        }
    }
}

/// The string whose opening quote stands at `i`: its decoded characters
/// and the position after the closing quote. Bodies whose decoded bytes
/// are not valid UTF-8 are rejected.
pub open spec fn spec_parse_string(bs: Seq<u8>, i: int) -> Option<(Seq<char>, int)> {
    if 0 <= i < bs.len() && bs[i] == 34 {
        match spec_scan_string(bs, i + 1, Seq::empty()) {
            Some((raw, j)) => if valid_utf8(raw) {
                Some((decode_utf8(raw), j))
            } else {
                None
            },
            None => None,
        }
    } else {
        None
    }
}

/// Parse the string whose opening quote stands at `i`; yields the decoded
/// string and the position after the closing quote.
fn parse_string(bs: &[u8], i: usize) -> (r: Option<(String, usize)>)
    requires
        i < bs@.len(),
    ensures
        match r {
            Some(p) => i < p.1 <= bs@.len() && spec_parse_string(bs@, i as int) == Some(
                (p.0@, p.1 as int),
            ),
            None => spec_parse_string(bs@, i as int) is None,
        },
{
    if bs[i] != 34 {
        return None;
    }
    let mut out: Vec<u8> = Vec::new();
    let mut j = i + 1;
    while j < bs.len()
        invariant
            i < j <= bs@.len(),
            bs@[i as int] == 34,
            spec_scan_string(bs@, i + 1, Seq::empty()) == spec_scan_string(bs@, j as int, out@),
        decreases bs@.len() - j,
    {
        let b = bs[j];
        if b == 34 {
            let s = match bytes_to_string(out) {
                Some(s) => s,
                None => {
                    return None;
                },
            };
            return Some((s, j + 1));
        } else if b == 92 {
            if j + 1 >= bs.len() {
                return None;
            }
            let e = bs[j + 1];
            if e == 34 || e == 92 || e == 47 {
                out.push(e);
                j += 2;
            } else if e == 98 {
                out.push(8);
                j += 2;
            } else if e == 102 {
                out.push(12);
                j += 2;
            } else if e == 110 {
                out.push(10);
                j += 2;
            } else if e == 114 {
                out.push(13);
                j += 2;
            } else if e == 116 {
                out.push(9);
                j += 2;
            } else if e == 117 {
                let cp = match parse_hex4(bs, j + 2) {
                    Some(v) => v,
                    None => {
                        return None;
                    },
                };
                if 0xD800 <= cp && cp < 0xDC00 {
                    // high surrogate: a low surrogate escape must follow
                    if bs.len() - j < 12 {
                        return None;
                    }
                    if bs[j + 6] != 92 || bs[j + 7] != 117 {
                        return None;
                    }
                    let lo = match parse_hex4(bs, j + 8) {
                        Some(v) => v,
                        None => {
                            return None;
                        },
                    };
                    if !(0xDC00 <= lo && lo < 0xE000) {
                        return None;
                    }
                    let combined = 0x1_0000 + (cp - 0xD800) * 0x400 + (lo - 0xDC00);
                    push_code_point(&mut out, combined);
                    j += 12;
                } else if 0xDC00 <= cp && cp < 0xE000 {
                    return None;
                } else {
                    push_code_point(&mut out, cp);
                    j += 6;
                }
            } else {
                return None;
            }
        } else {
            out.push(b);
            j += 1;
        }
    }
    None
}

/// Is `b` a byte that may continue a number lexeme after its first digit?
fn is_digit_byte(b: u8) -> (r: bool)
    ensures
        r == (48 <= b <= 57),
{
    48 <= b && b <= 57
}

/// The end of the run of decimal digit bytes beginning at `j`.
pub open spec fn spec_digit_end(bs: Seq<u8>, j: int) -> int
    decreases bs.len() - j,
{
    if 0 <= j < bs.len() && 48 <= bs[j] <= 57 {
        spec_digit_end(bs, j + 1)
    } else {
        j
    }
}

proof fn lemma_digit_end(bs: Seq<u8>, a: int, b: int)
    requires
        0 <= a <= b <= bs.len(),
        forall|q: int| a <= q < b ==> 48 <= #[trigger] bs[q] <= 57,
        b == bs.len() || !(48 <= bs[b] <= 57),
    ensures
        spec_digit_end(bs, a) == b,
    decreases b - a,
{
    if a < b {
        lemma_digit_end(bs, a + 1, b);
    }
}

/// The position after the number lexeme beginning at `i`: an optional
/// minus sign, digits, an optional fraction and an optional exponent.
pub open spec fn spec_number_end(bs: Seq<u8>, i: int) -> Option<int> {
    let j0 = if 0 <= i < bs.len() && bs[i] == 45 {
        i + 1
    } else {
        i
    };
    if !(0 <= j0 < bs.len() && 48 <= bs[j0] <= 57) {
        None
    } else {
        let j1 = spec_digit_end(bs, j0);
        let j2 = if j1 < bs.len() && bs[j1] == 46 && j1 + 1 < bs.len() && 48 <= bs[j1 + 1] <= 57 {
            spec_digit_end(bs, j1 + 2)
        } else {
            j1
        };
        if j2 < bs.len() && (bs[j2] == 101 || bs[j2] == 69) {
            let k = if j2 + 1 < bs.len() && (bs[j2 + 1] == 43 || bs[j2 + 1] == 45) {
                j2 + 2
            } else {
                j2 + 1
            };
            if k < bs.len() && 48 <= bs[k] <= 57 {
                Some(spec_digit_end(bs, k))
            } else {
                Some(j2)
            }
        } else {
            Some(j2)
        }
    }
}

/// The number lexeme beginning at `i` and the position after it.
pub open spec fn spec_parse_number(bs: Seq<u8>, i: int) -> Option<(Seq<char>, int)> {
    match spec_number_end(bs, i) {
        Some(j) => if valid_utf8(bs.subrange(i, j)) {
            Some((decode_utf8(bs.subrange(i, j)), j))
        } else {
            None
        },
        None => None,
    }
}

/// Parse the number lexeme beginning at `i`: an optional minus sign,
/// digits, an optional fraction and an optional exponent.
fn parse_number(bs: &[u8], i: usize) -> (r: Option<(String, usize)>)
    requires
        i < bs@.len(),
    ensures
        match r {
            Some(p) => i < p.1 <= bs@.len() && spec_parse_number(bs@, i as int) == Some(
                (p.0@, p.1 as int),
            ),
            None => spec_parse_number(bs@, i as int) is None,
        },
{
    let mut j = i;
    if bs[j] == 45 {
        j += 1;
    }
    let ghost j0 = j as int;
    if j >= bs.len() || !is_digit_byte(bs[j]) {
        return None;
    }
    j += 1;
    while j < bs.len() && is_digit_byte(bs[j])
        invariant
            i < j <= bs@.len(),
            j0 < j as int,
            forall|q: int| j0 <= q < j as int ==> 48 <= #[trigger] bs@[q] <= 57,
        decreases bs@.len() - j,
    {
        j += 1;
    }
    proof {
        lemma_digit_end(bs@, j0, j as int);
    }
    let ghost j1 = j as int;
    if j < bs.len() && bs[j] == 46 && j + 1 < bs.len() && is_digit_byte(bs[j + 1]) {
        j += 2;
        while j < bs.len() && is_digit_byte(bs[j])
            invariant
                i < j <= bs@.len(),
                j1 + 2 <= j as int,
                forall|q: int| j1 + 2 <= q < j as int ==> 48 <= #[trigger] bs@[q] <= 57,
            decreases bs@.len() - j,
        {
            j += 1;
        }
        proof {
            lemma_digit_end(bs@, j1 + 2, j as int);
        }
    }
    let ghost j2 = j as int;
    if j < bs.len() && (bs[j] == 101 || bs[j] == 69) {
        let mut k = j + 1;
        if k < bs.len() && (bs[k] == 43 || bs[k] == 45) {
            k += 1;
        }
        let ghost k0 = k as int;
        if k < bs.len() && is_digit_byte(bs[k]) {
            j = k;
            while j < bs.len() && is_digit_byte(bs[j])
                invariant
                    i < j <= bs@.len(),
                    k0 <= j as int,
                    forall|q: int| k0 <= q < j as int ==> 48 <= #[trigger] bs@[q] <= 57,
                decreases bs@.len() - j,
            {
                j += 1;
            }
            proof {
                lemma_digit_end(bs@, k0, j as int);
            }
        }
    }
    proof {
        assert(spec_number_end(bs@, i as int) == Some(j as int));
    }
    let mut lex: Vec<u8> = Vec::new();
    let mut k = i;
    proof {
        assert(lex@ =~= bs@.subrange(i as int, i as int));
    }
    while k < j
        invariant
            i <= k <= j <= bs@.len(),
            i < j,
            lex@ == bs@.subrange(i as int, k as int),
        decreases j - k,
    {
        lex.push(bs[k]);
        proof {
            assert(lex@ =~= bs@.subrange(i as int, k + 1));
        }
        k += 1;
    }
    match bytes_to_string(lex) {
        Some(s) => Some((s, j)),
        None => None,
    }
}

/// The value beginning at `i` with nesting budget `depth`, and the
/// position after it.
pub open spec fn spec_parse_value(bs: Seq<u8>, i: int, depth: int) -> Option<(JsonView, int)>
    decreases depth, bs.len() - i, 1int,
{
    if !(0 <= i < bs.len()) || depth <= 0 {
        None
    } else {
        let b = bs[i];
        if b == 34 {
            match spec_parse_string(bs, i) {
                Some((cs, j)) => Some((JsonView::StrV(cs), j)),
                None => None,
            }
        } else if b == 123 {
            spec_parse_object(bs, i, depth)
        } else if b == 91 {
            spec_parse_array(bs, i, depth)
        } else if b == 116 {
            if i + 4 <= bs.len() && bs[i + 1] == 114 && bs[i + 2] == 117 && bs[i + 3] == 101 {
                Some((JsonView::BoolV(true), i + 4))
            } else {
                None
            }
        } else if b == 102 {
            if i + 5 <= bs.len() && bs[i + 1] == 97 && bs[i + 2] == 108 && bs[i + 3] == 115 && bs[i
                + 4] == 101 {
                Some((JsonView::BoolV(false), i + 5))
            } else {
                None
            }
        } else if b == 110 {
            if i + 4 <= bs.len() && bs[i + 1] == 117 && bs[i + 2] == 108 && bs[i + 3] == 108 {
                Some((JsonView::NullV, i + 4))
            } else {
                None
            }
        } else if b == 45 || (48 <= b && b <= 57) {
            match spec_parse_number(bs, i) {
                Some((cs, j)) => Some((JsonView::NumV(cs), j)),
                None => None,
            }
        } else {
            None
        }
    }
}

/// The array whose `[` stands at `i`, with nesting budget `depth`.
pub open spec fn spec_parse_array(bs: Seq<u8>, i: int, depth: int) -> Option<(JsonView, int)>
    decreases depth, bs.len() - i, 0int,
{
    let j = spec_skip_ws(bs, i + 1);
    if 0 <= i < bs.len() && j < bs.len() && bs[j] == 93 {
        Some((JsonView::ArrV(Seq::empty()), j + 1))
    } else if 0 <= i < j <= bs.len() {
        spec_arr_items(bs, j, depth, Seq::empty())
    } else {
        None
    }
}

/// The remaining items of an array, the next beginning at `j`, with the
/// items already read in `acc`.
pub open spec fn spec_arr_items(
    bs: Seq<u8>,
    j: int,
    depth: int,
    acc: Seq<JsonView>,
) -> Option<(JsonView, int)>
    decreases depth, bs.len() - j, 2int,
{
    if !(0 <= j < bs.len()) || depth <= 0 {
        None
    } else {
        match spec_parse_value(bs, j, depth - 1) {
            Some((w, j2)) => {
                let j3 = spec_skip_ws(bs, j2);
                if j3 < bs.len() && bs[j3] == 44 {
                    let j4 = spec_skip_ws(bs, j3 + 1);
                    if j4 <= j || j4 > bs.len() {
                        None
                    } else {
                        spec_arr_items(bs, j4, depth, acc.push(w))
                    }
                } else if j3 < bs.len() && bs[j3] == 93 {
                    Some((JsonView::ArrV(acc.push(w)), j3 + 1))
                } else {
                    None
                }
            },
            None => None,
        }
    }
}

/// The object whose `{` stands at `i`, with nesting budget `depth`.
pub open spec fn spec_parse_object(bs: Seq<u8>, i: int, depth: int) -> Option<(JsonView, int)>
    decreases depth, bs.len() - i, 0int,
{
    let j = spec_skip_ws(bs, i + 1);
    if 0 <= i < bs.len() && j < bs.len() && bs[j] == 125 {
        Some((JsonView::ObjV(Seq::empty()), j + 1))
    } else if 0 <= i < j <= bs.len() {
        spec_obj_items(bs, j, depth, Seq::empty())
    } else {
        None
    }
}

/// The remaining members of an object, the next key beginning at `j`,
/// with the members already read in `acc`.
pub open spec fn spec_obj_items(
    bs: Seq<u8>,
    j: int,
    depth: int,
    acc: Seq<(Seq<char>, JsonView)>,
) -> Option<(JsonView, int)>
    decreases depth, bs.len() - j, 2int,
{
    if !(0 <= j < bs.len()) || depth <= 0 {
        None
    } else {
        match spec_parse_string(bs, j) {
            Some((key, j2)) => {
                let j3 = spec_skip_ws(bs, j2);
                if !(j3 < bs.len() && bs[j3] == 58) {
                    None
                } else {
                    let j4 = spec_skip_ws(bs, j3 + 1);
                    if j4 >= bs.len() {
                        None
                    } else {
                        match spec_parse_value(bs, j4, depth - 1) {
                            Some((w, j5)) => {
                                let j6 = spec_skip_ws(bs, j5);
                                if j6 < bs.len() && bs[j6] == 44 {
                                    let j7 = spec_skip_ws(bs, j6 + 1);
                                    if j7 <= j || j7 > bs.len() {
                                        None
                                    } else {
                                        spec_obj_items(bs, j7, depth, acc.push((key, w)))
                                    }
                                } else if j6 < bs.len() && bs[j6] == 125 {
                                    Some((JsonView::ObjV(acc.push((key, w))), j6 + 1))
                                } else {
                                    None
                                }
                            },
                            None => None,
                        }
                    }
                }
            },
            None => None,
        }
    }
}

/// Parse the value beginning at `i`; yields the value and the position
/// after it. `depth` bounds the container nesting still allowed; a
/// document nested deeper is rejected rather than recursed into.
#[verifier::rlimit(100)]
fn parse_value(bs: &[u8], i: usize, depth: usize) -> (r: Option<(JsonValue, usize)>)
    requires
        i <= bs@.len(),
    ensures
        match r {
            Some(p) => i < p.1 <= bs@.len() && (spec_parse_value(bs@, i as int, depth as int)
                matches Some(q) && q.1 == p.1 as int && matches_view(p.0, q.0, depth as int)),
            None => spec_parse_value(bs@, i as int, depth as int) is None,
        },
    decreases bs@.len() - i, 1int,
{
    if i >= bs.len() || depth == 0 {
        return None;
    }
    let b = bs[i];
    if b == 34 {
        match parse_string(bs, i) {
            Some((s, j)) => Some((JsonValue::Str(s), j)),
            None => None,
        }
    } else if b == 123 {
        parse_object(bs, i, depth)
    } else if b == 91 {
        parse_array(bs, i, depth)
    } else if b == 116 {
        if bs.len() - i >= 4 && bs[i + 1] == 114 && bs[i + 2] == 117 && bs[i + 3] == 101 {
            Some((JsonValue::Bool(true), i + 4))
        } else {
            None
        }
    } else if b == 102 {
        if bs.len() - i >= 5 && bs[i + 1] == 97 && bs[i + 2] == 108 && bs[i + 3] == 115 && bs[i + 4]
            == 101 {
            Some((JsonValue::Bool(false), i + 5))
        } else {
            None
        }
    } else if b == 110 {
        if bs.len() - i >= 4 && bs[i + 1] == 117 && bs[i + 2] == 108 && bs[i + 3] == 108 {
            Some((JsonValue::Null, i + 4))
        } else {
            None
        }
    } else if b == 45 || (48 <= b && b <= 57) {
        match parse_number(bs, i) {
            Some((s, j)) => Some((JsonValue::Num(s), j)),
            None => None,
        }
    } else {
        None
    }
}

/// Parse the array whose `[` stands at `i`.
fn parse_array(bs: &[u8], i: usize, depth: usize) -> (r: Option<(JsonValue, usize)>)
    requires
        i < bs@.len(),
        bs@[i as int] == 91,
        depth >= 1,
    ensures
        match r {
            Some(p) => i < p.1 <= bs@.len() && (spec_parse_array(bs@, i as int, depth as int)
                matches Some(q) && q.1 == p.1 as int && matches_view(p.0, q.0, depth as int)),
            None => spec_parse_array(bs@, i as int, depth as int) is None,
        },
    decreases bs@.len() - i, 0int,
{
    let n = bs.len();
    let mut items: Vec<JsonValue> = Vec::new();
    let ghost mut ws: Seq<JsonView> = Seq::empty();
    let mut j = skip_ws(bs, i + 1);
    if j < bs.len() && bs[j] == 93 {
        proof {
            assert(matches_view(
                JsonValue::Arr(items),
                JsonView::ArrV(Seq::empty()),
                depth as int,
            ));
        }
        return Some((JsonValue::Arr(items), j + 1));
    }
    let ghost jstart = j as int;
    while j < bs.len()
        invariant
            i < j <= bs@.len(),
            depth >= 1,
            items@.len() == ws.len(),
            forall|k: int|
                0 <= k < ws.len() ==> matches_view(#[trigger] items@[k], ws[k], depth - 1),
            spec_arr_items(bs@, jstart, depth as int, Seq::empty()) == spec_arr_items(
                bs@,
                j as int,
                depth as int,
                ws,
            ),
            spec_parse_array(bs@, i as int, depth as int) == spec_arr_items(
                bs@,
                jstart,
                depth as int,
                Seq::empty(),
            ),
        decreases bs@.len() - j,
    {
        let (v, j2) = match parse_value(bs, j, depth - 1) {
            Some(p) => p,
            None => {
                return None;
            },
        };
        let ghost w = choose|w: JsonView|
            spec_parse_value(bs@, j as int, depth - 1) == Some((w, j2 as int)) && matches_view(
                v,
                w,
                depth - 1,
            );
        items.push(v);
        proof {
            ws = ws.push(w);
        }
        let j3 = skip_ws(bs, j2);
        if j3 < bs.len() && bs[j3] == 44 {
            let j4 = skip_ws(bs, j3 + 1);
            if j4 <= j {
                return None;
            }
            j = j4;
        } else if j3 < bs.len() && bs[j3] == 93 {
            proof {
                assert(matches_view(JsonValue::Arr(items), JsonView::ArrV(ws), depth as int));
            }
            return Some((JsonValue::Arr(items), j3 + 1));
        } else {
            return None;
        }
    }
    None
}

/// Parse the object whose `{` stands at `i`.
fn parse_object(bs: &[u8], i: usize, depth: usize) -> (r: Option<(JsonValue, usize)>)
    requires
        i < bs@.len(),
        bs@[i as int] == 123,
        depth >= 1,
    ensures
        match r {
            Some(p) => i < p.1 <= bs@.len() && (spec_parse_object(bs@, i as int, depth as int)
                matches Some(q) && q.1 == p.1 as int && matches_view(p.0, q.0, depth as int)),
            None => spec_parse_object(bs@, i as int, depth as int) is None,
        },
    decreases bs@.len() - i, 0int,
{
    let n = bs.len();
    let mut pairs: Vec<(String, JsonValue)> = Vec::new();
    let ghost mut qs: Seq<(Seq<char>, JsonView)> = Seq::empty();
    let mut j = skip_ws(bs, i + 1);
    if j < bs.len() && bs[j] == 125 {
        proof {
            assert(matches_view(
                JsonValue::Obj(pairs),
                JsonView::ObjV(Seq::empty()),
                depth as int,
            ));
        }
        return Some((JsonValue::Obj(pairs), j + 1));
    }
    let ghost jstart = j as int;
    while j < bs.len()
        invariant
            i < j <= bs@.len(),
            depth >= 1,
            pairs@.len() == qs.len(),
            forall|t: int|
                0 <= t < qs.len() ==> (#[trigger] pairs@[t]).0@ == qs[t].0 && matches_view(
                    pairs@[t].1,
                    qs[t].1,
                    depth - 1,
                ),
            spec_obj_items(bs@, jstart, depth as int, Seq::empty()) == spec_obj_items(
                bs@,
                j as int,
                depth as int,
                qs,
            ),
            spec_parse_object(bs@, i as int, depth as int) == spec_obj_items(
                bs@,
                jstart,
                depth as int,
                Seq::empty(),
            ),
        decreases bs@.len() - j,
    {
        let (k, j2) = match parse_string(bs, j) {
            Some(p) => p,
            None => {
                return None;
            },
        };
        let j3 = skip_ws(bs, j2);
        if !(j3 < bs.len() && bs[j3] == 58) {
            return None;
        }
        let j4 = skip_ws(bs, j3 + 1);
        if j4 >= bs.len() {
            return None;
        }
        let (v, j5) = match parse_value(bs, j4, depth - 1) {
            Some(p) => p,
            None => {
                return None;
            },
        };
        let ghost w = choose|w: JsonView|
            spec_parse_value(bs@, j4 as int, depth - 1) == Some((w, j5 as int)) && matches_view(
                v,
                w,
                depth - 1,
            );
        proof {
            qs = qs.push((k@, w));
        }
        pairs.push((k, v));
        let j6 = skip_ws(bs, j5);
        if j6 < bs.len() && bs[j6] == 44 {
            let j7 = skip_ws(bs, j6 + 1);
            if j7 <= j {
                return None;
            }
            j = j7;
        } else if j6 < bs.len() && bs[j6] == 125 {
            proof {
                assert(matches_view(JsonValue::Obj(pairs), JsonView::ObjV(qs), depth as int));
            }
            return Some((JsonValue::Obj(pairs), j6 + 1));
        } else {
            return None;
        }
    }
    None
}

/// The view a whole JSON document denotes: one value, with surrounding
/// whitespace, nested at most 128 containers deep.
pub open spec fn spec_parse_doc(bs: Seq<u8>) -> Option<JsonView> {
    let i = spec_skip_ws(bs, 0);
    match spec_parse_value(bs, i, 128) {
        Some((w, j)) => if spec_skip_ws(bs, j) == bs.len() {
            Some(w)
        } else {
            None
        },
        None => None,
    }
}

/// The field `key` of an object view; the last binding of a duplicated
/// key wins, as in the value-level lookup.
pub open spec fn view_obj_get(qs: Seq<(Seq<char>, JsonView)>, key: Seq<char>) -> Option<JsonView>
    decreases qs.len(),
{
    if qs.len() == 0 {
        None
    } else if qs.last().0 == key {
        Some(qs.last().1)
    } else {
        view_obj_get(qs.drop_last(), key)
    }
}

/// The field `key` of a view, when it is an object that has it.
pub open spec fn view_get(w: JsonView, key: Seq<char>) -> Option<JsonView> {
    match w {
        JsonView::ObjV(qs) => view_obj_get(qs, key),
        _ => None,
    }
}

proof fn lemma_matches_obj_get(
    ps: Seq<(String, JsonValue)>,
    qs: Seq<(Seq<char>, JsonView)>,
    d: int,
    key: Seq<char>,
)
    requires
        ps.len() == qs.len(),
        forall|t: int|
            0 <= t < qs.len() ==> (#[trigger] ps[t]).0@ == qs[t].0 && matches_view(
                ps[t].1,
                qs[t].1,
                d - 1,
            ),
    ensures
        match spec_obj_get(ps, key) {
            Some(x) => view_obj_get(qs, key) matches Some(y) && matches_view(x, y, d - 1),
            None => view_obj_get(qs, key) is None,
        },
    decreases ps.len(),
{
    if ps.len() > 0 {
        if ps.last().0@ != key {
            lemma_matches_obj_get(ps.drop_last(), qs.drop_last(), d, key);
        }
    }
}

/// Corresponding values look their fields up correspondingly: a field of
/// the parsed value is exactly the same field of its view.
pub proof fn lemma_matches_get(v: JsonValue, w: JsonView, d: int, key: Seq<char>)
    requires
        matches_view(v, w, d),
    ensures
        match v.spec_get(key) {
            Some(x) => view_get(w, key) matches Some(y) && matches_view(x, y, d - 1),
            None => view_get(w, key) is None,
        },
{
    match (v, w) {
        (JsonValue::Obj(ps), JsonView::ObjV(qs)) => {
            lemma_matches_obj_get(ps@, qs, d, key);
        },
        _ => {
        },
    }
}

/// Parse a whole JSON document: one value, with surrounding whitespace,
/// nested at most 128 containers deep. The result is exactly the view the
/// document denotes (`spec_parse_doc`), field for field.
pub fn parse(text: &str) -> (r: Option<JsonValue>)
    ensures
        match r {
            Some(v) => spec_parse_doc(encode_utf8(text@)) matches Some(w) && matches_view(
                v,
                w,
                128,
            ),
            None => spec_parse_doc(encode_utf8(text@)) is None,
        },
{
    let bs = text.as_bytes();
    let i = skip_ws(bs, 0);
    let (v, j) = match parse_value(bs, i, 128) {
        Some(p) => p,
        None => {
            return None;
        },
    };
    let j2 = skip_ws(bs, j);
    if j2 == bs.len() {
        Some(v)
    } else {
        None
    }
}

} // verus!

//! Byte-level substring predicates and searches.
//!
//! URL recognition, URL-fragment filtering and barcode extraction all work on
//! the UTF-8 bytes of their input strings; the contracts below are stated over
//! those byte sequences.

use vstd::prelude::*;
use vstd::string::StringSliceAdditionalSpecFns;
use vstd::utf8::{decode_utf8, encode_utf8, encode_utf8_decode_utf8};

verus! {

/// The needle `n` occurs in the haystack `h` starting at position `i`.
pub open spec fn is_match_at(h: Seq<u8>, n: Seq<u8>, i: int) -> bool {
    0 <= i && i + n.len() <= h.len() && h.subrange(i, i + n.len()) == n
}

/// The needle `n` occurs somewhere in the haystack `h`.
pub open spec fn spec_contains(h: Seq<u8>, n: Seq<u8>) -> bool {
    exists|i: int| is_match_at(h, n, i)
}

/// Does `n` occur in `h` at position `i`?
pub fn match_at(h: &[u8], n: &[u8], i: usize) -> (r: bool)
    requires
        i + n@.len() <= h@.len(),
    ensures
        r == is_match_at(h@, n@, i as int),
{
    let hl = h.len();
    let mut j: usize = 0;
    while j < n.len()
        invariant
            j <= n@.len(),
            i + n@.len() <= h@.len(),
            h@.len() == hl,
            forall|k: int| 0 <= k < j ==> h@[i + k] == n@[k],
        decreases n@.len() - j,
    {
        if h[i + j] != n[j] {
            assert(h@.subrange(i as int, i + n@.len())[j as int] != n@[j as int]);
            return false;
        }
        j += 1;
    }
    assert(h@.subrange(i as int, i + n@.len()) =~= n@);
    true
}

/// Position of the first occurrence of `n` in `h`, if any.
pub fn find_sub(h: &[u8], n: &[u8]) -> (r: Option<usize>)
    ensures
        match r {
            Some(i) => is_match_at(h@, n@, i as int) && forall|j: int|
                0 <= j < i ==> !is_match_at(h@, n@, j),
            None => !spec_contains(h@, n@),
        },
{
    if n.len() > h.len() {
        assert(forall|i: int| !is_match_at(h@, n@, i));
        return None;
    }
    if n.len() == 0 {
        assert(h@.subrange(0, 0) =~= n@);
        return Some(0);
    }
    let mut i: usize = 0;
    while i <= h.len() - n.len()
        invariant
            0 < n@.len() <= h@.len(),
            i <= h@.len() - n@.len() + 1,
            forall|j: int| 0 <= j < i ==> !is_match_at(h@, n@, j),
        decreases h@.len() - i,
    {
        if match_at(h, n, i) {
            return Some(i);
        }
        i += 1;
    }
    assert(forall|j: int| i <= j ==> !is_match_at(h@, n@, j));
    None
}

/// Position of the last occurrence of `n` in `h`, if any.
pub fn rfind_sub(h: &[u8], n: &[u8]) -> (r: Option<usize>)
    ensures
        match r {
            Some(i) => is_match_at(h@, n@, i as int) && forall|j: int|
                i < j ==> !is_match_at(h@, n@, j),
            None => !spec_contains(h@, n@),
        },
{
    if n.len() > h.len() {
        assert(forall|i: int| !is_match_at(h@, n@, i));
        return None;
    }
    if n.len() == 0 {
        assert(h@.subrange(h@.len() as int, h@.len() as int) =~= n@);
        return Some(h.len());
    }
    let mut i: usize = h.len() - n.len() + 1;
    while i > 0
        invariant
            0 < n@.len() <= h@.len(),
            i <= h@.len() - n@.len() + 1,
            forall|j: int| i <= j ==> !is_match_at(h@, n@, j),
        decreases i,
    {
        i -= 1;
        if match_at(h, n, i) {
            return Some(i);
        }
    }
    None
}

/// Does `n` occur anywhere in `h`?
pub fn contains_sub(h: &[u8], n: &[u8]) -> (r: bool)
    ensures
        r == spec_contains(h@, n@),
{
    find_sub(h, n).is_some()
}

/// Are two byte slices equal?
pub fn eq_bytes(a: &[u8], b: &[u8]) -> (r: bool)
    ensures
        r == (a@ == b@),
{
    if a.len() != b.len() {
        return false;
    }
    let mut i: usize = 0;
    while i < a.len()
        invariant
            a@.len() == b@.len(),
            i <= a@.len(),
            forall|k: int| 0 <= k < i ==> a@[k] == b@[k],
        decreases a@.len() - i,
    {
        if a[i] != b[i] {
            return false;
        }
        i += 1;
    }
    assert(a@ =~= b@);
    true
}

/// Are two strings equal (same characters)?
pub fn eq_str(a: &str, b: &str) -> (r: bool)
    ensures
        r == (a@ == b@),
{
    let r = eq_bytes(a.as_bytes(), b.as_bytes());
    proof {
        encode_utf8_decode_utf8(a@);
        encode_utf8_decode_utf8(b@);
        if a.spec_bytes() == b.spec_bytes() {
            assert(a@ == decode_utf8(encode_utf8(a@)));
            assert(b@ == decode_utf8(encode_utf8(b@)));
        }
    }
    r
}

/// An ASCII decimal digit.
pub open spec fn is_digit(b: u8) -> bool {
    48 <= b <= 57
}

/// A non-empty, all-digit byte sequence.
pub open spec fn all_digits(s: Seq<u8>) -> bool {
    s.len() > 0 && forall|i: int| 0 <= i < s.len() ==> is_digit(#[trigger] s[i])
}

/// The number denoted by a digit sequence, most significant digit first.
pub open spec fn digits_val(s: Seq<u8>) -> int
    decreases s.len(),
{
    if s.len() == 0 {
        0
    } else {
        digits_val(s.drop_last()) * 10 + (s.last() - 48)
    }
}

proof fn lemma_digits_val_nonneg(s: Seq<u8>)
    requires
        forall|i: int| 0 <= i < s.len() ==> is_digit(#[trigger] s[i]),
    ensures
        digits_val(s) >= 0,
    decreases s.len(),
{
    if s.len() > 0 {
        lemma_digits_val_nonneg(s.drop_last());
    }
}

/// The value of a proper prefix of a digit string never exceeds the value
/// of the whole string.
proof fn lemma_digits_prefix(s: Seq<u8>, k: int)
    requires
        forall|i: int| 0 <= i < s.len() ==> is_digit(#[trigger] s[i]),
        0 <= k <= s.len(),
    ensures
        digits_val(s.subrange(0, k)) <= digits_val(s),
    decreases s.len() - k,
{
    if k == s.len() {
        assert(s.subrange(0, k) =~= s);
    } else {
        lemma_digits_prefix(s, k + 1);
        let p = s.subrange(0, k + 1);
        assert(p.drop_last() =~= s.subrange(0, k));
        lemma_digits_val_nonneg(s.subrange(0, k));
        assert(digits_val(p) == digits_val(s.subrange(0, k)) * 10 + (p.last() - 48));
    }
}

/// Parse a non-empty decimal digit string into a `u64`; `None` when the
/// input is empty, holds a non-digit, or denotes a value over `u64::MAX`.
pub fn parse_u64(s: &str) -> (r: Option<u64>)
    ensures
        ({
            let bs = s.spec_bytes();
            match r {
                Some(n) => all_digits(bs) && n == digits_val(bs),
                None => !(all_digits(bs) && digits_val(bs) <= u64::MAX),
            }
        }),
{
    let bs = s.as_bytes();
    if bs.len() == 0 {
        return None;
    }
    let mut acc: u64 = 0;
    let mut i: usize = 0;
    while i < bs.len()
        invariant
            i <= bs@.len(),
            0 < bs@.len(),
            bs@ == s.spec_bytes(),
            acc == digits_val(bs@.subrange(0, i as int)),
            forall|k: int| 0 <= k < i ==> is_digit(#[trigger] bs@[k]),
        decreases bs@.len() - i,
    {
        let b = bs[i];
        if b < 48 || b > 57 {
            proof {
                assert(!is_digit(bs@[i as int]));
                assert(!all_digits(bs@));
                assert(bs@ == s.spec_bytes());
            }
            return None;
        }
        let d = (b - 48) as u64;
        if acc > (u64::MAX - d) / 10 {
            proof {
                assert(bs@.subrange(0, i as int + 1).drop_last() =~= bs@.subrange(0, i as int));
                assert(bs@.subrange(0, i as int + 1).last() == b);
                assert(acc * 10 + d > u64::MAX) by (nonlinear_arith)
                    requires acc > (u64::MAX - d) / 10 && 0 <= d <= 9 && acc >= 0;
                assert(digits_val(bs@.subrange(0, i as int + 1)) > u64::MAX);
                if all_digits(bs@) {
                    lemma_digits_prefix(bs@, i as int + 1);
                }
                assert(!(all_digits(bs@) && digits_val(bs@) <= u64::MAX));
                assert(bs@ == s.spec_bytes());
            }
            return None;
        }
        acc = acc * 10 + d;
        proof {
            assert(bs@.subrange(0, i as int + 1).drop_last() =~= bs@.subrange(0, i as int));
        }
        i += 1;
    }
    proof {
        assert(bs@.subrange(0, bs@.len() as int) =~= bs@);
    }
    Some(acc)
}

/// Parse a non-empty decimal digit string into a `usize`.
pub fn parse_usize(s: &str) -> (r: Option<usize>)
    ensures
        ({
            let bs = s.spec_bytes();
            match r {
                Some(n) => all_digits(bs) && n == digits_val(bs),
                None => !(all_digits(bs) && digits_val(bs) <= usize::MAX),
            }
        }),
{
    match parse_u64(s) {
        Some(n) => {
            if n <= usize::MAX as u64 {
                Some(n as usize)
            } else {
                None
            }
        },
        None => None,
    }
}

/// The needle `n` occurs in the haystack `h` at character position `i`.
pub open spec fn is_char_match_at(h: Seq<char>, n: Seq<char>, i: int) -> bool {
    0 <= i && i + n.len() <= h.len() && h.subrange(i, i + n.len()) == n
}

/// The needle `n` occurs somewhere in `h` (character-level).
pub open spec fn char_contains(h: Seq<char>, n: Seq<char>) -> bool {
    exists|i: int| is_char_match_at(h, n, i)
}

/// Does `n` occur in `h` at character position `i`?
pub fn char_match_at(h: &str, n: &str, i: usize) -> (r: bool)
    requires
        i + n@.len() <= h@.len(),
    ensures
        r == is_char_match_at(h@, n@, i as int),
{
    let hl = h.unicode_len();
    let nl = n.unicode_len();
    let mut j: usize = 0;
    while j < nl
        invariant
            j <= n@.len(),
            nl == n@.len(),
            hl == h@.len(),
            i + n@.len() <= h@.len(),
            forall|k: int| 0 <= k < j ==> h@[i + k] == n@[k],
        decreases n@.len() - j,
    {
        if h.get_char(i + j) != n.get_char(j) {
            assert(h@.subrange(i as int, i + n@.len())[j as int] != n@[j as int]);
            return false;
        }
        j += 1;
    }
    assert(h@.subrange(i as int, i + n@.len()) =~= n@);
    true
}

/// Character position of the first occurrence of `n` in `h`, if any.
pub fn find_str(h: &str, n: &str) -> (r: Option<usize>)
    ensures
        match r {
            Some(i) => is_char_match_at(h@, n@, i as int) && forall|j: int|
                0 <= j < i ==> !is_char_match_at(h@, n@, j),
            None => !char_contains(h@, n@),
        },
{
    let hl = h.unicode_len();
    let nl = n.unicode_len();
    if nl > hl {
        assert(forall|i: int| !is_char_match_at(h@, n@, i));
        return None;
    }
    if nl == 0 {
        assert(h@.subrange(0, 0) =~= n@);
        return Some(0);
    }
    let mut i: usize = 0;
    while i <= hl - nl
        invariant
            hl == h@.len(),
            nl == n@.len(),
            0 < n@.len() <= h@.len(),
            i <= h@.len() - n@.len() + 1,
            forall|j: int| 0 <= j < i ==> !is_char_match_at(h@, n@, j),
        decreases h@.len() - i,
    {
        if char_match_at(h, n, i) {
            return Some(i);
        }
        i += 1;
    }
    assert(forall|j: int| i <= j ==> !is_char_match_at(h@, n@, j));
    None
}

/// Does `n` occur anywhere in `h` (character-level)?
pub fn contains_str(h: &str, n: &str) -> (r: bool)
    ensures
        r == char_contains(h@, n@),
{
    find_str(h, n).is_some()
}

/// An ASCII uppercase letter or digit, the barcode alphabet.
pub open spec fn upper_digit(c: char) -> bool {
    (65 <= c as u32 <= 90) || (48 <= c as u32 <= 57)
}

/// An ASCII uppercase letter, digit or dash.
pub open spec fn upper_digit_dash(c: char) -> bool {
    upper_digit(c) || c == '-'
}

/// An ASCII decimal digit character.
pub open spec fn digit_char(c: char) -> bool {
    48 <= c as u32 <= 57
}

/// An ASCII uppercase letter.
pub open spec fn upper_char(c: char) -> bool {
    65 <= c as u32 <= 90
}

/// Is `c` an uppercase letter or digit?
pub fn is_upper_digit(c: char) -> (r: bool)
    ensures
        r == upper_digit(c),
{
    let u = c as u32;
    (65 <= u && u <= 90) || (48 <= u && u <= 57)
}

/// Is `c` an uppercase letter, digit or dash?
pub fn is_upper_digit_dash(c: char) -> (r: bool)
    ensures
        r == upper_digit_dash(c),
{
    is_upper_digit(c) || c == '-'
}

/// Is `c` a decimal digit?
pub fn is_digit_char(c: char) -> (r: bool)
    ensures
        r == digit_char(c),
{
    let u = c as u32;
    48 <= u && u <= 57
}

/// Is `c` an uppercase letter?
pub fn is_upper_char(c: char) -> (r: bool)
    ensures
        r == upper_char(c),
{
    let u = c as u32;
    65 <= u && u <= 90
}

/// A maximal run of uppercase letters and digits spans `[s, e)` of `u`.
pub open spec fn ud_run(u: Seq<char>, s: int, e: int) -> bool {
    s <= e <= u.len() && (forall|k: int| s <= k < e ==> upper_digit(#[trigger] u[k])) && (e
        == u.len() || !upper_digit(u[e]))
}

/// A maximal run of uppercase letters, digits and dashes spans `[s, e)`.
pub open spec fn udd_run(u: Seq<char>, s: int, e: int) -> bool {
    s <= e <= u.len() && (forall|k: int| s <= k < e ==> upper_digit_dash(#[trigger] u[k])) && (e
        == u.len() || !upper_digit_dash(u[e]))
}

/// End of the maximal uppercase-or-digit run starting at `from`.
pub fn scan_upper_digit(h: &str, from: usize) -> (e: usize)
    requires
        from <= h@.len(),
    ensures
        from <= e,
        ud_run(h@, from as int, e as int),
{
    let hl = h.unicode_len();
    let mut e: usize = from;
    while e < hl
        invariant
            from <= e <= hl,
            hl == h@.len(),
            forall|k: int| from <= k < e ==> upper_digit(#[trigger] h@[k]),
        decreases hl - e,
    {
        if !is_upper_digit(h.get_char(e)) {
            return e;
        }
        e += 1;
    }
    e
}

/// End of the maximal uppercase-digit-dash run starting at `from`.
pub fn scan_upper_digit_dash(h: &str, from: usize) -> (e: usize)
    requires
        from <= h@.len(),
    ensures
        from <= e,
        udd_run(h@, from as int, e as int),
{
    let hl = h.unicode_len();
    let mut e: usize = from;
    while e < hl
        invariant
            from <= e <= hl,
            hl == h@.len(),
            forall|k: int| from <= k < e ==> upper_digit_dash(#[trigger] h@[k]),
        decreases hl - e,
    {
        if !is_upper_digit_dash(h.get_char(e)) {
            return e;
        }
        e += 1;
    }
    e
}

/// The literal matches at `p` (with `p` at or after `lo`) and is followed
/// by at least one character of the barcode alphabet (with dash when
/// `dash` is set).
pub open spec fn lit_run_start(u: Seq<char>, lit: Seq<char>, p: int, dash: bool, lo: int) -> bool {
    &&& lo <= p
    &&& is_char_match_at(u, lit, p)
    &&& p + lit.len() < u.len()
    &&& if dash {
        upper_digit_dash(u[p + lit.len()])
    } else {
        upper_digit(u[p + lit.len()])
    }
}

/// The last position at or after `lo` where `lit` matches and a barcode
/// character follows.
pub fn rfind_lit_run(h: &str, lit: &str, dash: bool, lo: usize) -> (r: Option<usize>)
    ensures
        match r {
            Some(p) => lit_run_start(h@, lit@, p as int, dash, lo as int) && forall|q: int|
                q > p ==> !lit_run_start(h@, lit@, q, dash, lo as int),
            None => forall|q: int| !lit_run_start(h@, lit@, q, dash, lo as int),
        },
{
    let hl = h.unicode_len();
    let ll = lit.unicode_len();
    let mut i: usize = hl;
    while i > lo
        invariant
            hl == h@.len(),
            ll == lit@.len(),
            i <= hl,
            forall|q: int| i <= q ==> !lit_run_start(h@, lit@, q, dash, lo as int),
        decreases i,
    {
        i -= 1;
        if ll < hl - i && char_match_at(h, lit, i) {
            let c = h.get_char(i + ll);
            let in_class = if dash {
                is_upper_digit_dash(c)
            } else {
                is_upper_digit(c)
            };
            if in_class {
                return Some(i);
            }
        }
    }
    None
}

/// What `str::to_lowercase` returns for a string: a function of the
/// characters alone.
pub uninterp spec fn lower_of(s: Seq<char>) -> Seq<char>;

/// Relies on `str::to_lowercase`: the lowercased string, a function of the
/// input characters alone.
#[verifier::external_body]
fn lowercase(s: &str) -> (r: String)
    ensures
        r@ == lower_of(s@),
{
    s.to_lowercase()
}

/// The lowercase folding of `h` holds the lowercase folding of `q` as a
/// substring.
pub open spec fn ci_matches(h: Seq<char>, q: Seq<char>) -> bool {
    spec_contains(encode_utf8(lower_of(h)), encode_utf8(lower_of(q)))
}

/// Case-insensitive containment: does `h`, lowercased, contain `q`,
/// lowercased?
pub fn matches_ci(h: &str, q: &str) -> (r: bool)
    ensures
        r == ci_matches(h@, q@),
{
    let hl = lowercase(h);
    let ql = lowercase(q);
    contains_sub(hl.as_str().as_bytes(), ql.as_str().as_bytes())
}

/// A string with its characters separated by single spaces.
pub open spec fn spec_spaced(s: Seq<char>) -> Seq<char>
    decreases s.len(),
{
    if s.len() <= 1 {
        s
    } else {
        spec_spaced(s.drop_last()) + seq![' '] + seq![s.last()]
    }
}

/// Separate the characters of a string by single spaces.
pub fn spaced(s: String) -> (r: String)
    ensures
        r@ == spec_spaced(s@),
{
    let sr = s.as_str();
    let hl = sr.unicode_len();
    let mut out = String::new();
    if hl == 0 {
        return out;
    }
    out.append(sr.substring_char(0, 1));
    proof {
        assert(out@ =~= spec_spaced(s@.subrange(0, 1)));
    }
    let mut i: usize = 1;
    while i < hl
        invariant
            1 <= i <= hl,
            hl == s@.len(),
            sr@ == s@,
            out@ == spec_spaced(s@.subrange(0, i as int)),
        decreases hl - i,
    {
        out.append(" ");
        out.append(sr.substring_char(i, i + 1));
        proof {
            reveal_strlit(" ");
            assert(s@.subrange(0, i + 1).drop_last() =~= s@.subrange(0, i as int));
            assert(s@.subrange(i as int, i + 1) =~= seq![s@[i as int]]);
            assert(s@.subrange(0, i + 1).last() == s@[i as int]);
            assert(out@ =~= spec_spaced(s@.subrange(0, i + 1)));
        }
        i += 1;
    }
    proof {
        assert(s@.subrange(0, s@.len() as int) =~= s@);
    }
    out
}

} // verus!

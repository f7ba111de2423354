//! The cache file codec.
//!
//! The store is persisted as one JSON document mapping each URL to an
//! array of `{"text": ..., "created": ...}` entries, the creation time an
//! ISO 8601 UTC timestamp. The encoder is specified character by
//! character (`spec_encode`); the decoder accepts any document of that
//! shape, timestamp variants and layout included, and always yields a
//! well-formed, unmodified store.

use vstd::prelude::*;
use vstd::string::{StrSliceExecFns, StringExecFns};

use vstd::utf8::encode_utf8;

use crate::cache::{CacheBucket, CacheEntry, EntryView, JsonCache};
use crate::json::{self, JsonValue, JsonView};
use crate::time::{
    days_in_month, days_in_year, parse_timestamp, spec_iso_millis, spec_valid_iso,
};

verus! {

/// The largest encodable timestamp: the last millisecond of year 9999.
pub const MAX_ENCODABLE_MILLIS: i64 = 253402300799999;

/// The decimal digit character for `v`.
pub open spec fn dec_digit(v: int) -> char {
    if v == 0 {
        '0'
    } else if v == 1 {
        '1'
    } else if v == 2 {
        '2'
    } else if v == 3 {
        '3'
    } else if v == 4 {
        '4'
    } else if v == 5 {
        '5'
    } else if v == 6 {
        '6'
    } else if v == 7 {
        '7'
    } else if v == 8 {
        '8'
    } else {
        '9'
    }
}

/// The lowercase hexadecimal digit character for `v`.
pub open spec fn hex_digit(v: int) -> char {
    if v < 10 {
        dec_digit(v)
    } else if v == 10 {
        'a'
    } else if v == 11 {
        'b'
    } else if v == 12 {
        'c'
    } else if v == 13 {
        'd'
    } else if v == 14 {
        'e'
    } else {
        'f'
    }
}

/// A number as `n` zero-padded decimal digit characters.
pub open spec fn spec_digits(v: int, n: int) -> Seq<char>
    decreases n,
{
    if n <= 0 {
        Seq::empty()
    } else {
        spec_digits(v / 10, n - 1).push(dec_digit(v % 10))
    }
}

/// The JSON escaping of one character: quotes and backslashes get a
/// backslash, control characters a `\u00..` escape, everything else
/// stands for itself.
pub open spec fn esc_char(c: char) -> Seq<char> {
    if c == '"' {
        seq!['\\', '"']
    } else if c == '\\' {
        seq!['\\', '\\']
    } else if (c as u32) < 32 {
        seq!['\\', 'u', '0', '0', hex_digit(c as u32 as int / 16), hex_digit(c as u32 as int % 16)]
    } else {
        seq![c]
    }
}

/// The JSON escaping of a string.
pub open spec fn spec_escape(s: Seq<char>) -> Seq<char>
    decreases s.len(),
{
    if s.len() == 0 {
        Seq::empty()
    } else {
        spec_escape(s.drop_last()) + esc_char(s.last())
    }
}

/// The year, month and day reached by walking `days` days into year `y`.
pub open spec fn split_year(y: int, days: int) -> (int, int)
    decreases days,
{
    if days < days_in_year(y) || days <= 0 {
        (y, days)
    } else {
        split_year(y + 1, days - days_in_year(y))
    }
}

/// The month and day-of-month reached by walking `days` days into month
/// `m` of year `y`.
pub open spec fn split_month(y: int, m: int, days: int) -> (int, int)
    decreases 13 - m,
{
    if m >= 12 || days < days_in_month(y, m) {
        (m, days)
    } else {
        split_month(y, m + 1, days - days_in_month(y, m))
    }
}

/// The encoded form of a timestamp: an ISO 8601 UTC date-time with
/// milliseconds.
pub open spec fn spec_format_ts(t: int) -> Seq<char> {
    let days = t / 86400000;
    let rem = t % 86400000;
    let (y, yd) = split_year(1970, days);
    let (m, md) = split_month(y, 1, yd);
    spec_digits(y, 4) + seq!['-'] + spec_digits(m, 2) + seq!['-'] + spec_digits(md + 1, 2) + seq![
        'T',
    ] + spec_digits(rem / 3600000, 2) + seq![':'] + spec_digits((rem / 60000) % 60, 2) + seq![':']
        + spec_digits((rem / 1000) % 60, 2) + seq!['.'] + spec_digits(rem % 1000, 3) + seq!['Z']
}

/// The encoded form of one cache entry.
pub open spec fn spec_enc_entry(ev: EntryView) -> Seq<char> {
    "{\"text\":\""@ + spec_escape(ev.0) + "\",\"created\":\""@ + spec_format_ts(ev.1) + "\"}"@
}

/// The encoded form of a key's entries, comma-separated.
pub open spec fn spec_enc_entries(es: Seq<EntryView>) -> Seq<char>
    decreases es.len(),
{
    if es.len() == 0 {
        Seq::empty()
    } else if es.len() == 1 {
        spec_enc_entry(es[0])
    } else {
        spec_enc_entries(es.drop_last()) + seq![','] + spec_enc_entry(es.last())
    }
}

/// The encoded form of one bucket: the escaped URL and its entry array.
pub open spec fn spec_enc_bucket(url: Seq<char>, es: Seq<EntryView>) -> Seq<char> {
    seq!['"'] + spec_escape(url) + "\":["@ + spec_enc_entries(es) + seq![']']
}

/// The encoded forms of a store's buckets, comma-separated.
pub open spec fn spec_enc_buckets(bs: Seq<CacheBucket>) -> Seq<char>
    decreases bs.len(),
{
    if bs.len() == 0 {
        Seq::empty()
    } else if bs.len() == 1 {
        spec_enc_bucket(bs[0].url@, crate::cache::entry_views(bs[0].entries@))
    } else {
        spec_enc_buckets(bs.drop_last()) + seq![','] + spec_enc_bucket(
            bs.last().url@,
            crate::cache::entry_views(bs.last().entries@),
        )
    }
}

/// The encoded form of a whole store.
pub open spec fn spec_encode(bs: Seq<CacheBucket>) -> Seq<char> {
    seq!['{'] + spec_enc_buckets(bs) + seq!['}']
}

/// The decimal digit string for `v`, `n` digits, zero padded.
fn push_digits(out: &mut String, v: u64, n: usize)
    requires
        n <= 4,
    ensures
        final(out)@ == old(out)@ + spec_digits(v as int, n as int),
{
    if n == 0 {
        proof {
            assert(old(out)@ + spec_digits(v as int, 0) =~= old(out)@);
        }
        return ;
    }
    if n >= 4 {
        out.append(digit_str((v / 1000) % 10));
    }
    if n >= 3 {
        out.append(digit_str((v / 100) % 10));
    }
    if n >= 2 {
        out.append(digit_str((v / 10) % 10));
    }
    out.append(digit_str(v % 10));
    proof {
        reveal_with_fuel(spec_digits, 6);
        if n == 1 {
            assert(out@ =~= old(out)@ + spec_digits(v as int, 1));
        } else if n == 2 {
            assert(out@ =~= old(out)@ + spec_digits(v as int, 2));
        } else if n == 3 {
            assert((v as int / 10) / 10 == v as int / 100) by (nonlinear_arith);
            assert(out@ =~= old(out)@ + spec_digits(v as int, 3));
        } else {
            assert((v as int / 10) / 10 == v as int / 100) by (nonlinear_arith);
            assert((v as int / 10) / 100 == v as int / 1000) by (nonlinear_arith);
            assert(out@ =~= old(out)@ + spec_digits(v as int, 4));
        }
    }
}

/// The one-character string for a decimal digit value.
fn digit_str(v: u64) -> (r: &'static str)
    requires
        v < 10,
    ensures
        r@ == seq![dec_digit(v as int)],
{
    proof {
        reveal_strlit("0");
        reveal_strlit("1");
        reveal_strlit("2");
        reveal_strlit("3");
        reveal_strlit("4");
        reveal_strlit("5");
        reveal_strlit("6");
        reveal_strlit("7");
        reveal_strlit("8");
        reveal_strlit("9");
    }
    let r = if v == 0 {
        "0"
    } else if v == 1 {
        "1"
    } else if v == 2 {
        "2"
    } else if v == 3 {
        "3"
    } else if v == 4 {
        "4"
    } else if v == 5 {
        "5"
    } else if v == 6 {
        "6"
    } else if v == 7 {
        "7"
    } else if v == 8 {
        "8"
    } else {
        "9"
    };
    proof {
        assert(r@ =~= seq![dec_digit(v as int)]);
    }
    r
}

/// The one-character string for a hexadecimal digit value.
fn hex_str(v: u32) -> (r: &'static str)
    requires
        v < 16,
    ensures
        r@ == seq![hex_digit(v as int)],
{
    if v < 10 {
        digit_str(v as u64)
    } else {
        proof {
            reveal_strlit("a");
            reveal_strlit("b");
            reveal_strlit("c");
            reveal_strlit("d");
            reveal_strlit("e");
            reveal_strlit("f");
        }
        let r = if v == 10 {
            "a"
        } else if v == 11 {
            "b"
        } else if v == 12 {
            "c"
        } else if v == 13 {
            "d"
        } else if v == 14 {
            "e"
        } else {
            "f"
        };
        proof {
            assert(r@ =~= seq![hex_digit(v as int)]);
        }
        r
    }
}

/// Append the JSON escaping of `s`.
fn push_escaped(out: &mut String, s: &str)
    ensures
        final(out)@ == old(out)@ + spec_escape(s@),
{
    let sl = s.unicode_len();
    let mut i: usize = 0;
    proof {
        assert(old(out)@ + spec_escape(s@.subrange(0, 0)) =~= old(out)@);
    }
    while i < sl
        invariant
            i <= sl,
            sl == s@.len(),
            out@ == old(out)@ + spec_escape(s@.subrange(0, i as int)),
        decreases sl - i,
    {
        let c = s.get_char(i);
        let u = c as u32;
        if c == '"' {
            out.append("\\\"");
            proof {
                reveal_strlit("\\\"");
            }
        } else if c == '\\' {
            out.append("\\\\");
            proof {
                reveal_strlit("\\\\");
            }
        } else if u < 32 {
            out.append("\\u00");
            out.append(hex_str(u / 16));
            out.append(hex_str(u % 16));
            proof {
                reveal_strlit("\\u00");
            }
        } else {
            out.append(s.substring_char(i, i + 1));
        }
        proof {
            assert(s@.subrange(0, i + 1).drop_last() =~= s@.subrange(0, i as int));
            assert(s@.subrange(0, i + 1).last() == s@[i as int]);
            assert(s@.subrange(i as int, i + 1) =~= seq![s@[i as int]]);
            assert(out@ =~= old(out)@ + spec_escape(s@.subrange(0, i + 1)));
        }
        i += 1;
    }
    proof {
        assert(s@.subrange(0, s@.len() as int) =~= s@);
    }
}

/// Append the encoded timestamp.
fn push_ts(out: &mut String, t: i64)
    requires
        0 <= t <= MAX_ENCODABLE_MILLIS,
    ensures
        final(out)@ == old(out)@ + spec_format_ts(t as int),
{
    let days: u64 = (t as u64) / 86400000;
    let rem: u64 = (t as u64) % 86400000;
    let mut y: u64 = 1970;
    let mut yd: u64 = days;
    let mut diy: u64 = days_in_year_exec(y);
    while yd >= diy
        invariant
            1970 <= y,
            days <= 2933000,
            y - 1970 <= days - yd,
            diy == days_in_year(y as int),
            split_year(1970, days as int) == split_year(y as int, yd as int),
            yd <= days,
        decreases yd,
    {
        yd = yd - diy;
        y = y + 1;
        diy = days_in_year_exec(y);
    }
    let mut m: u64 = 1;
    let mut md: u64 = yd;
    while m < 12 && md >= days_in_month_exec(y, m)
        invariant
            1 <= m <= 12,
            1970 <= y,
            split_month(y as int, 1, yd as int) == split_month(y as int, m as int, md as int),
            md <= yd,
        decreases 12 - m,
    {
        md = md - days_in_month_exec(y, m);
        m = m + 1;
    }
    push_digits(out, y, 4);
    out.append("-");
    push_digits(out, m, 2);
    out.append("-");
    push_digits(out, md + 1, 2);
    out.append("T");
    push_digits(out, rem / 3600000, 2);
    out.append(":");
    push_digits(out, (rem / 60000) % 60, 2);
    out.append(":");
    push_digits(out, (rem / 1000) % 60, 2);
    out.append(".");
    push_digits(out, rem % 1000, 3);
    out.append("Z");
    proof {
        reveal_strlit("-");
        reveal_strlit("T");
        reveal_strlit(":");
        reveal_strlit(".");
        reveal_strlit("Z");
        assert(final(out)@ =~= old(out)@ + spec_format_ts(t as int));
    }
}

/// The length of a year, executable form.
fn days_in_year_exec(y: u64) -> (r: u64)
    ensures
        r == days_in_year(y as int),
{
    if y % 4 == 0 && (y % 100 != 0 || y % 400 == 0) {
        366
    } else {
        365
    }
}

/// The length of a month, executable form.
fn days_in_month_exec(y: u64, m: u64) -> (r: u64)
    ensures
        r == days_in_month(y as int, m as int),
{
    if m == 2 {
        if y % 4 == 0 && (y % 100 != 0 || y % 400 == 0) {
            29
        } else {
            28
        }
    } else if m == 4 || m == 6 || m == 9 || m == 11 {
        30
    } else {
        31
    }
}

/// Encode the whole store as one JSON document. Timestamps outside the
/// encodable range are clamped to it.
#[verifier::rlimit(100)]
pub fn encode_store(cache: &JsonCache) -> (r: String)
    ensures
        (forall|i: int, j: int|
            0 <= i < cache.store@.len() && 0 <= j < cache.store@[i].entries@.len() ==> 0 <= (
            #[trigger] cache.store@[i].entries@[j]).created <= MAX_ENCODABLE_MILLIS) ==> r@
            == spec_encode(cache.store@),
{
    let mut out = String::new();
    out.append("{");
    let mut i: usize = 0;
    let ghost in_range = |bs: Seq<CacheBucket>|
        forall|a: int, b: int|
            0 <= a < bs.len() && 0 <= b < bs[a].entries@.len() ==> 0 <= (
            #[trigger] bs[a].entries@[b]).created <= MAX_ENCODABLE_MILLIS;
    proof {
        reveal_strlit("{");
        assert(out@ =~= seq!['{'] + spec_enc_buckets(cache.store@.subrange(0, 0)));
    }
    while i < cache.store.len()
        invariant
            i <= cache.store@.len(),
            in_range == (|bs: Seq<CacheBucket>|
                forall|a: int, b: int|
                    0 <= a < bs.len() && 0 <= b < bs[a].entries@.len() ==> 0 <= (
                    #[trigger] bs[a].entries@[b]).created <= MAX_ENCODABLE_MILLIS),
            in_range(cache.store@.subrange(0, i as int)) ==> out@ == seq!['{']
                + spec_enc_buckets(cache.store@.subrange(0, i as int)),
        decreases cache.store@.len() - i,
    {
        if i > 0 {
            out.append(",");
            proof {
                reveal_strlit(",");
            }
        }
        let bucket = &cache.store[i];
        out.append("\"");
        push_escaped(&mut out, bucket.url.as_str());
        out.append("\":[");
        let mut j: usize = 0;
        let ghost entries_in_range = |es: Seq<CacheEntry>|
            forall|b: int|
                0 <= b < es.len() ==> 0 <= (#[trigger] es[b]).created <= MAX_ENCODABLE_MILLIS;
        let ghost base = out@;
        proof {
            reveal_strlit("\"");
            reveal_strlit("\":[");
        }
        while j < bucket.entries.len()
            invariant
                j <= bucket.entries@.len(),
                entries_in_range == (|es: Seq<CacheEntry>|
                    forall|b: int|
                        0 <= b < es.len() ==> 0 <= (#[trigger] es[b]).created
                            <= MAX_ENCODABLE_MILLIS),
                entries_in_range(bucket.entries@.subrange(0, j as int)) ==> out@ == base
                    + spec_enc_entries(
                    crate::cache::entry_views(bucket.entries@.subrange(0, j as int)),
                ),
            decreases bucket.entries@.len() - j,
        {
            if j > 0 {
                out.append(",");
                proof {
                    reveal_strlit(",");
                }
            }
            let entry = &bucket.entries[j];
            out.append("{\"text\":\"");
            push_escaped(&mut out, entry.text.as_str());
            out.append("\",\"created\":\"");
            let t = if entry.created < 0 {
                0
            } else if entry.created > MAX_ENCODABLE_MILLIS {
                MAX_ENCODABLE_MILLIS
            } else {
                entry.created
            };
            push_ts(&mut out, t);
            out.append("\"}");
            proof {
                let evs = crate::cache::entry_views(bucket.entries@.subrange(0, j + 1));
                assert(bucket.entries@.subrange(0, j + 1).drop_last() =~= bucket.entries@.subrange(
                    0,
                    j as int,
                ));
                if entries_in_range(bucket.entries@.subrange(0, j + 1)) {
                    assert(entries_in_range(bucket.entries@.subrange(0, j as int)));
                    assert(crate::cache::entry_views(
                        bucket.entries@.subrange(0, j + 1),
                    ).drop_last() =~= crate::cache::entry_views(
                        bucket.entries@.subrange(0, j as int),
                    ));
                    assert(out@ =~= base + spec_enc_entries(evs));
                }
            }
            j += 1;
        }
        out.append("]");
        proof {
            reveal_strlit("]");
            assert(bucket.entries@.subrange(0, bucket.entries@.len() as int) =~= bucket.entries@);
            let pre = cache.store@.subrange(0, i + 1);
            assert(pre.drop_last() =~= cache.store@.subrange(0, i as int));
            assert(pre.last() == cache.store@[i as int]);
            if in_range(cache.store@.subrange(0, i + 1)) {
                assert(in_range(cache.store@.subrange(0, i as int)));
                assert(entries_in_range(bucket.entries@));
                assert(out@ =~= seq!['{'] + spec_enc_buckets(cache.store@.subrange(0, i + 1)));
            }
        }
        i += 1;
    }
    out.append("}");
    proof {
        reveal_strlit("}");
        assert(cache.store@.subrange(0, cache.store@.len() as int) =~= cache.store@);
        if in_range(cache.store@) {
            assert(out@ =~= spec_encode(cache.store@));
        }
    }
    out
}

/// The payload to persist: nothing when no insert has happened since the
/// store was constructed, the full encoded store otherwise. Saving an
/// unmodified cache therefore writes nothing.
pub fn save_payload(cache: &JsonCache) -> (r: Option<String>)
    ensures
        r is Some <==> cache.modified,
        r matches Some(s) ==> ((forall|i: int, j: int|
            0 <= i < cache.store@.len() && 0 <= j < cache.store@[i].entries@.len() ==> 0 <= (
            #[trigger] cache.store@[i].entries@[j]).created <= MAX_ENCODABLE_MILLIS) ==> s@
            == spec_encode(cache.store@)),
{
    if cache.modified {
        Some(encode_store(cache))
    } else {
        None
    }
}

/// One loaded entry corresponds to one `{"text", "created"}` member of
/// the document: the same text, and the instant its `created` field
/// denotes.
pub open spec fn entry_matches(e: CacheEntry, item: JsonView) -> bool {
    &&& json::view_get(item, "text"@) == Some(JsonView::StrV(e.text@))
    &&& json::view_get(item, "created"@) matches Some(JsonView::StrV(cs))
    &&& match json::view_get(item, "created"@) {
        Some(JsonView::StrV(cs)) => spec_valid_iso(cs) && e.created as int == spec_iso_millis(cs),
        _ => false,
    }
}

/// The loaded store corresponds member for member, in order, to the
/// document's object view.
pub open spec fn store_matches(store: Seq<CacheBucket>, qs: Seq<(Seq<char>, JsonView)>) -> bool {
    &&& store.len() == qs.len()
    &&& forall|k: int|
        0 <= k < qs.len() ==> ((#[trigger] store[k]).url@ == qs[k].0 && (qs[k].1
            matches JsonView::ArrV(items) && store[k].entries@.len() == items.len() && (forall|
            t: int,
        | 0 <= t < items.len() ==> entry_matches(store[k].entries@[t], items[t]))))
}

/// Decode a persisted store: a JSON object mapping each URL to an array of
/// `{"text", "created"}` entries, the creation time any ISO 8601 UTC form
/// (fractional seconds and offsets included, as other writers of the
/// format produce them). A loaded store is well-formed, unmodified,
/// carries the given bound, holds only encodable creation times, and is
/// exactly what the document says, member for member; a document of any
/// other shape, or with a duplicate URL, is corrupt.
pub fn decode_store(text: &str, max_entries: Option<usize>) -> (r: Option<JsonCache>)
    ensures
        r matches Some(c) ==> c.wf() && !c.modified && c.max_entries == max_entries && (forall|
            i: int,
            j: int,
        |
            0 <= i < c.store@.len() && 0 <= j < c.store@[i].entries@.len() ==> 0 <= (
            #[trigger] c.store@[i].entries@[j]).created <= MAX_ENCODABLE_MILLIS) && (
        json::spec_parse_doc(encode_utf8(text@)) matches Some(w) && w matches JsonView::ObjV(qs)
            && store_matches(c.store@, qs)),
{
    let parsed = match json::parse(text) {
        Some(v) => v,
        None => {
            return None;
        },
    };
    let ghost doc = choose|w: JsonView|
        json::spec_parse_doc(encode_utf8(text@)) == Some(w) && json::matches_view(
            parsed,
            w,
            128,
        );
    let pairs = match parsed {
        JsonValue::Obj(pairs) => pairs,
        _ => {
            return None;
        },
    };
    let ghost qs = doc->ObjV_0;
    let mut cache = match max_entries {
        Some(m) => JsonCache::with_max_entries(m),
        None => JsonCache::new(),
    };
    let mut i: usize = 0;
    while i < pairs.len()
        invariant
            cache.wf(),
            !cache.modified,
            cache.max_entries == max_entries,
            json::spec_parse_doc(encode_utf8(text@)) == Some(JsonView::ObjV(qs)),
            pairs@.len() == qs.len(),
            forall|k: int|
                0 <= k < qs.len() ==> (#[trigger] pairs@[k]).0@ == qs[k].0 && json::matches_view(
                    pairs@[k].1,
                    qs[k].1,
                    127,
                ),
            i <= pairs@.len(),
            store_matches(cache.store@, qs.subrange(0, i as int)),
            forall|a: int, b: int|
                0 <= a < cache.store@.len() && 0 <= b < cache.store@[a].entries@.len() ==> 0 <= (
                #[trigger] cache.store@[a].entries@[b]).created <= MAX_ENCODABLE_MILLIS,
        decreases pairs@.len() - i,
    {
        let url = pairs[i].0.clone();
        let items = match &pairs[i].1 {
            JsonValue::Arr(items) => items,
            _ => {
                return None;
            },
        };
        let ghost ws = qs[i as int].1->ArrV_0;
        let mut entries: Vec<CacheEntry> = Vec::new();
        let mut j: usize = 0;
        while j < items.len()
            invariant
                j <= items@.len(),
                items@.len() == ws.len(),
                forall|t: int|
                    0 <= t < items@.len() ==> json::matches_view(
                        #[trigger] items@[t],
                        ws[t],
                        126,
                    ),
                entries@.len() == j,
                forall|t: int| 0 <= t < j ==> entry_matches(#[trigger] entries@[t], ws[t]),
                forall|b: int|
                    0 <= b < entries@.len() ==> 0 <= (#[trigger] entries@[b]).created
                        <= MAX_ENCODABLE_MILLIS,
            decreases items@.len() - j,
        {
            let item = &items[j];
            proof {
                json::lemma_matches_get(items@[j as int], ws[j as int], 126, "text"@);
                json::lemma_matches_get(items@[j as int], ws[j as int], 126, "created"@);
            }
            let text_field = match item.str_field("text") {
                Some(t) => t,
                None => {
                    return None;
                },
            };
            let created_field = match item.str_field("created") {
                Some(c) => c,
                None => {
                    return None;
                },
            };
            let created = match parse_timestamp(created_field.as_str()) {
                Some(t) => t,
                None => {
                    return None;
                },
            };
            if created < 0 || created > MAX_ENCODABLE_MILLIS {
                return None;
            }
            entries.push(CacheEntry { text: text_field, created });
            j += 1;
        }
        // a duplicate key would make the store ill-formed
        if cache.has_key(url.as_str()) {
            return None;
        }
        cache.push_bucket(CacheBucket { url, entries });
        proof {
            assert(qs.subrange(0, i + 1).drop_last() =~= qs.subrange(0, i as int));
            assert(store_matches(cache.store@, qs.subrange(0, i + 1)));
        }
        i += 1;
    }
    proof {
        assert(qs.subrange(0, qs.len() as int) =~= qs);
    }
    Some(cache)
}

} // verus!

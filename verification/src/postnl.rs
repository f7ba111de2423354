//! PostNL carrier handler: URL recognition, identifier extraction and
//! request-URL construction.

use vstd::prelude::*;
use vstd::string::{StrSliceExecFns, StringExecFns};

use crate::errors::Error;
use crate::json::{self, JsonValue, JsonView};
use vstd::utf8::encode_utf8;
use crate::models::{Event, Package, TimeWindow};
use crate::time::parse_timestamp;
use crate::strutil::{
    char_contains, char_match_at, contains_str, digit_char, find_str, is_char_match_at, is_digit_char,
    is_upper_char, is_upper_digit, scan_upper_digit, ud_run, upper_char, upper_digit,
};

verus! {

/// Handler for PostNL tracking URLs.
pub struct PostNLTracker;

/// A tracking barcode begins at `p`: the literal `track-and-trace/` matches
/// there and at least one barcode character follows it.
pub open spec fn barcode_start(u: Seq<char>, p: int) -> bool {
    is_char_match_at(u, "track-and-trace/"@, p) && p + 16 < u.len() && upper_digit(u[p + 16])
}

/// A separator in the country/postcode suffix.
pub open spec fn sep_char(c: char) -> bool {
    c == '-' || c == '/'
}

/// A country-and-postcode suffix (`-CC-1234AB` or with `/`) begins at `e`.
pub open spec fn cp_span(u: Seq<char>, e: int) -> bool {
    &&& 0 <= e
    &&& e + 10 <= u.len()
    &&& sep_char(u[e])
    &&& upper_char(u[e + 1])
    &&& upper_char(u[e + 2])
    &&& sep_char(u[e + 3])
    &&& digit_char(u[e + 4])
    &&& digit_char(u[e + 5])
    &&& digit_char(u[e + 6])
    &&& digit_char(u[e + 7])
    &&& upper_char(u[e + 8])
    &&& upper_char(u[e + 9])
}

impl PostNLTracker {
    /// Does this handler service the URL? True when it mentions PostNL.
    pub fn can_handle(&self, url: &str) -> (r: bool)
        ensures
            r == char_contains(url@, "postnl"@),
    {
        contains_str(url, "postnl")
    }
}

/// The identifiers extracted from a consumer tracking URL: the barcode
/// after the first qualifying `track-and-trace/`, and the country and
/// postcode of the `-CC-1234AB` suffix when one follows the barcode.
pub open spec fn extracted(
    u: Seq<char>,
    b: Seq<char>,
    c: Option<Seq<char>>,
    pc: Option<Seq<char>>,
) -> bool {
    exists|p: int, e: int|
        #![trigger barcode_start(u, p), ud_run(u, p + 16, e)]
        {
            &&& barcode_start(u, p)
            &&& forall|q: int| 0 <= q < p ==> !barcode_start(u, q)
            &&& ud_run(u, p + 16, e)
            &&& b == u.subrange(p + 16, e)
            &&& match (c, pc) {
                (Some(cv), Some(pv)) => cp_span(u, e) && cv == u.subrange(e + 1, e + 3) && pv
                    == u.subrange(e + 4, e + 10),
                (None, None) => !cp_span(u, e),
                _ => false,
            }
        }
}

/// View of an optional extracted string.
pub open spec fn part_view(o: Option<String>) -> Option<Seq<char>> {
    match o {
        Some(s) => Some(s@),
        None => None,
    }
}

/// Extract the barcode and, when present, the country code and postcode
/// from a consumer tracking URL: the barcode is the run of uppercase
/// letters and digits after the first `track-and-trace/` that is followed
/// by one, and the optional `-CC-1234AB` suffix supplies the rest.
pub fn get_barcode_and_postcode(url: &str) -> (r: (
    Option<String>,
    Option<String>,
    Option<String>,
))
    ensures
        match r.0 {
            Some(b) => extracted(url@, b@, part_view(r.1), part_view(r.2)),
            None => r.1 is None && r.2 is None && forall|p: int| !barcode_start(url@, p),
        },
{
    let hl = url.unicode_len();
    if hl < 17 {
        return (None, None, None);
    }
    proof {
        reveal_strlit("track-and-trace/");
    }
    let mut p: usize = 0;
    let mut start: Option<usize> = None;
    while p <= hl - 17 && start.is_none()
        invariant
            hl == url@.len(),
            17 <= hl,
            "track-and-trace/"@.len() == 16,
            p <= hl - 16,
            match start {
                None => forall|q: int| 0 <= q < p ==> !barcode_start(url@, q),
                Some(fp) => fp == p && barcode_start(url@, p as int) && (forall|q: int|
                    0 <= q < p ==> !barcode_start(url@, q)),
            },
        decreases hl - p + (if start is None { 1int } else { 0int }),
    {
        proof {
            reveal_strlit("track-and-trace/");
        }
        if char_match_at(url, "track-and-trace/", p) && is_upper_digit(url.get_char(p + 16)) {
            start = Some(p);
        } else {
            p += 1;
        }
    }
    let p = match start {
        Some(p) => p,
        None => {
            proof {
                assert(forall|q: int| q + 17 > url@.len() ==> !barcode_start(url@, q));
            }
            return (None, None, None);
        },
    };
    let s = p + 16;
    let e = scan_upper_digit(url, s);
    let barcode = url.substring_char(s, e).to_owned();
    if e <= hl - 10 && is_sep(url.get_char(e)) && is_upper_char(url.get_char(e + 1))
        && is_upper_char(url.get_char(e + 2)) && is_sep(url.get_char(e + 3)) && is_digit_char(
        url.get_char(e + 4),
    ) && is_digit_char(url.get_char(e + 5)) && is_digit_char(url.get_char(e + 6)) && is_digit_char(
        url.get_char(e + 7),
    ) && is_upper_char(url.get_char(e + 8)) && is_upper_char(url.get_char(e + 9)) {
        let country = url.substring_char(e + 1, e + 3).to_owned();
        let postcode = url.substring_char(e + 4, e + 10).to_owned();
        (Some(barcode), Some(country), Some(postcode))
    } else {
        (Some(barcode), None, None)
    }
}

/// Is `c` a `-` or `/` separator?
fn is_sep(c: char) -> (r: bool)
    ensures
        r == sep_char(c),
{
    c == '-' || c == '/'
}

/// Build the API request URL from the extracted identifiers. The country
/// and postcode are appended to the barcode only when both are present.
pub fn build_url(barcode: &str, country: Option<&str>, postcode: Option<&str>, language: &str) -> (r:
    String)
    ensures
        ({
            let suffix = match (country, postcode) {
                (Some(c), Some(p)) => "-"@ + c@ + "-"@ + p@,
                _ => Seq::<char>::empty(),
            };
            r@ == "https://jouw.postnl.nl/track-and-trace/api/trackAndTrace/"@ + barcode@ + suffix
                + "?language="@ + language@
        }),
{
    let mut out = String::new();
    out.append("https://jouw.postnl.nl/track-and-trace/api/trackAndTrace/");
    out.append(barcode);
    match (country, postcode) {
        (Some(c), Some(p)) => {
            out.append("-");
            out.append(c);
            out.append("-");
            out.append(p);
        },
        _ => {
        },
    }
    out.append("?language=");
    out.append(language);
    out
}

/// The API request URL for a bare barcode, with English responses.
pub fn get_url(barcode: &str) -> (r: String)
    ensures
        r@ == "https://jouw.postnl.nl/track-and-trace/api/trackAndTrace/"@ + barcode@
            + "?language=en"@,
{
    let mut out = String::new();
    out.append("https://jouw.postnl.nl/track-and-trace/api/trackAndTrace/");
    out.append(barcode);
    out.append("?language=en");
    out
}

/// The barcode in an arbitrary HTTP URL: the run of uppercase letters,
/// digits and dashes after the last `/` that both follows the scheme and
/// is followed by at least one such character.
pub open spec fn slash_barcode_start(u: Seq<char>, p: int) -> bool {
    &&& 0 <= p
    &&& p + 1 < u.len()
    &&& u[p] == '/'
    &&& crate::strutil::upper_digit_dash(u[p + 1])
    &&& exists|q: int| is_char_match_at(u, "http"@, q) && q + 4 <= p
}

/// Extract the barcode from a tracking URL as the trailing identifier
/// segment: the maximal run of uppercase letters, digits and dashes after
/// the last qualifying `/`.
pub fn get_barcode(url: &str) -> (r: Result<String, Error>)
    ensures
        r is Ok <==> exists|p: int| slash_barcode_start(url@, p),
        r matches Ok(b) ==> exists|p: int, e: int|
            #![trigger slash_barcode_start(url@, p), crate::strutil::udd_run(url@, p + 1, e)]
            {
                &&& slash_barcode_start(url@, p)
                &&& forall|q: int| q > p ==> !slash_barcode_start(url@, q)
                &&& crate::strutil::udd_run(url@, p + 1, e)
                &&& b@ == url@.subrange(p + 1, e)
            },
        r matches Err(e) ==> e matches Error::UrlParseFailed(s, f) && s@ == url@ && f@
            == "barcode"@,
{
    let hl = url.unicode_len();
    let http = match find_str(url, "http") {
        Some(q) => q,
        None => {
            proof {
                assert forall|p: int| !slash_barcode_start(url@, p) by {
                    if slash_barcode_start(url@, p) {
                        let q = choose|q: int|
                            is_char_match_at(url@, "http"@, q) && q + 4 <= p;
                        assert(char_contains(url@, "http"@));
                    }
                }
            }
            return Err(Error::UrlParseFailed(url.to_owned(), "barcode".to_owned()));
        },
    };
    let mut i: usize = hl;
    while i > 0
        invariant
            hl == url@.len(),
            i <= hl,
            is_char_match_at(url@, "http"@, http as int),
            forall|q2: int| 0 <= q2 < http ==> !is_char_match_at(url@, "http"@, q2),
            forall|q: int| i <= q ==> !slash_barcode_start(url@, q),
        decreases i,
    {
        i -= 1;
        if i + 1 < hl && i >= 4 && i - 4 >= http && url.get_char(i) == '/'
            && crate::strutil::is_upper_digit_dash(url.get_char(i + 1)) {
            let e = crate::strutil::scan_upper_digit_dash(url, i + 1);
            let b = url.substring_char(i + 1, e).to_owned();
            proof {
                assert(slash_barcode_start(url@, i as int));
            }
            return Ok(b);
        }
        proof {
            if slash_barcode_start(url@, i as int) {
                let q = choose|q: int| is_char_match_at(url@, "http"@, q) && q + 4 <= i;
                assert(q >= http);
                assert(i >= http + 4);
            }
        }
    }
    Err(Error::UrlParseFailed(url.to_owned(), "barcode".to_owned()))
}

/// The first package object under the `colli` map of a payload.
pub open spec fn spec_first_collo(v: JsonValue) -> Option<JsonValue> {
    match v.spec_get("colli"@) {
        Some(JsonValue::Obj(ps)) => if ps@.len() > 0 {
            Some(ps@[0].1)
        } else {
            None
        },
        _ => None,
    }
}

/// The first package object under the `colli` map.
fn first_collo<'a>(v: &'a JsonValue) -> (r: Option<&'a JsonValue>)
    ensures
        match r {
            Some(c) => spec_first_collo(*v) == Some(*c),
            None => spec_first_collo(*v) is None,
        },
{
    match v.get("colli") {
        Some(JsonValue::Obj(ps)) => {
            if ps.len() > 0 {
                Some(&ps[0].1)
            } else {
                None
            }
        },
        _ => None,
    }
}

/// A party name: the company name, or failing that the person name.
fn party_of(v: &JsonValue, role: &str) -> Option<String> {
    let party = match v.get(role) {
        Some(p) => p,
        None => {
            return None;
        },
    };
    let names = match party.get("names") {
        Some(n) => n,
        None => {
            return None;
        },
    };
    match names.str_field("companyName") {
        Some(n) => Some(n),
        None => names.str_field("personName"),
    }
}

/// The estimated arrival time, from the route information.
fn eta_of(v: &JsonValue) -> Option<i64> {
    let info = match v.get("routeInformation") {
        Some(i) => i,
        None => {
            return None;
        },
    };
    let ts = match info.str_field("expectedDeliveryTime") {
        Some(s) => s,
        None => {
            return None;
        },
    };
    parse_timestamp(ts.as_str())
}

/// An arrival window read from a `{start, end}`-shaped object under the
/// given keys.
fn window_from(v: &JsonValue, lo_key: &str, hi_key: &str) -> Option<TimeWindow> {
    let lo = match v.str_field(lo_key) {
        Some(s) => s,
        None => {
            return None;
        },
    };
    let hi = match v.str_field(hi_key) {
        Some(s) => s,
        None => {
            return None;
        },
    };
    let start = match parse_timestamp(lo.as_str()) {
        Some(t) => t,
        None => {
            return None;
        },
    };
    let end = match parse_timestamp(hi.as_str()) {
        Some(t) => t,
        None => {
            return None;
        },
    };
    Some(TimeWindow { start, end })
}

/// The estimated arrival window: the route information's window, or
/// failing that the `eta` block's start and end.
fn eta_window_of(v: &JsonValue) -> Option<TimeWindow> {
    if let Some(info) = v.get("routeInformation") {
        if let Some(tw) = info.get("expectedDeliveryTimeWindow") {
            if let Some(w) = window_from(tw, "startDateTime", "endDateTime") {
                return Some(w);
            }
        }
    }
    match v.get("eta") {
        Some(eta) => window_from(eta, "start", "end"),
        None => None,
    }
}

/// The observation events that carry a parseable timestamp and a
/// description.
fn events_of(v: &JsonValue) -> Vec<Event> {
    let mut out: Vec<Event> = Vec::new();
    let info = match v.get("analyticsInfo") {
        Some(i) => i,
        None => {
            return out;
        },
    };
    let items = match info.get("allObservations") {
        Some(JsonValue::Arr(items)) => items,
        _ => {
            return out;
        },
    };
    let mut i: usize = 0;
    while i < items.len()
        decreases items@.len() - i,
    {
        let ev = &items[i];
        if let Some(dt) = ev.str_field("observationDate") {
            if let Some(ts) = parse_timestamp(dt.as_str()) {
                if let Some(text) = ev.str_field("description") {
                    out.push(Event { timestamp: ts, text });
                }
            }
        }
        i += 1;
    }
    out
}

/// A package value reports itself delivered: it carries a well-formed
/// delivery date.
pub open spec fn spec_delivered(v: JsonValue) -> bool {
    &&& v.spec_get("deliveryDate"@) matches Some(JsonValue::Str(t))
    &&& match v.spec_get("deliveryDate"@) {
        Some(JsonValue::Str(t)) => crate::time::spec_valid_iso(t@),
        _ => false,
    }
}

/// The delivery timestamp: present exactly when the package reports a
/// well-formed one.
fn delivered_of(v: &JsonValue) -> (r: Option<i64>)
    ensures
        r is Some <==> spec_delivered(*v),
{
    let dt = match v.str_field("deliveryDate") {
        Some(s) => s,
        None => {
            return None;
        },
    };
    parse_timestamp(dt.as_str())
}

/// Map one package object to the common package shape. The barcode is the
/// one required field; everything else is best-effort.
pub fn to_package(v: &JsonValue) -> (r: Result<Package, Error>)
    ensures
        r is Ok <==> (v.spec_get("barcode"@) matches Some(JsonValue::Str(t))),
        r matches Ok(p) ==> (v.spec_get("barcode"@) matches Some(JsonValue::Str(t)) && p.barcode@
            == t@) && p.channel@ == "PostNL"@ && (p.delivered is Some <==> spec_delivered(*v)),
        r matches Err(e) ==> e matches Error::MissingField(f) && f@ == "barcode"@,
{
    let barcode = match v.str_field("barcode") {
        Some(b) => b,
        None => {
            return Err(Error::MissingField("barcode".to_owned()));
        },
    };
    Ok(
        Package {
            barcode,
            channel: "PostNL".to_owned(),
            sender: party_of(v, "sender"),
            recipient: party_of(v, "recipient"),
            eta: eta_of(v),
            eta_window: eta_window_of(v),
            delivered: delivered_of(v),
            events: events_of(v),
        },
    )
}

/// The first package object under a payload view's `colli` map.
pub open spec fn view_first_collo(w: JsonView) -> Option<JsonView> {
    match json::view_get(w, "colli"@) {
        Some(JsonView::ObjV(qs)) => if qs.len() > 0 {
            Some(qs[0].1)
        } else {
            None
        },
        _ => None,
    }
}

/// A package view reports itself delivered: it carries a well-formed
/// delivery date.
pub open spec fn view_delivered(e: JsonView) -> bool {
    &&& json::view_get(e, "deliveryDate"@) matches Some(JsonView::StrV(t))
    &&& match json::view_get(e, "deliveryDate"@) {
        Some(JsonView::StrV(t)) => crate::time::spec_valid_iso(t),
        _ => false,
    }
}

impl PostNLTracker {
    /// Parse a raw tracking response body: the first package under the
    /// `colli` map is reported, and success is owed exactly when it
    /// carries a string barcode, whose value becomes the barcode.
    pub fn parse(&self, text: &str) -> (r: Result<Package, Error>)
        ensures
            ({
                let doc = json::spec_parse_doc(encode_utf8(text@));
                &&& (r is Ok <==> (doc matches Some(w) && view_first_collo(w) matches Some(e)
                    && json::view_get(e, "barcode"@) matches Some(JsonView::StrV(b))))
                &&& (r matches Ok(p) ==> (doc matches Some(w) && view_first_collo(w)
                    matches Some(e) && json::view_get(e, "barcode"@) == Some(
                    JsonView::StrV(p.barcode@),
                ) && p.channel@ == "PostNL"@ && (p.spec_status()
                    == crate::models::PackageStatus::Delivered <==> view_delivered(e))))
                &&& (r matches Err(e) ==> (e matches Error::ParseFailed(_) || (e
                    matches Error::MissingField(f) && f@ == "barcode"@)))
            }),
    {
        let v = match json::parse(text) {
            Some(v) => v,
            None => {
                return Err(Error::ParseFailed("invalid JSON".to_owned()));
            },
        };
        proof {
            let w = choose|w: JsonView|
                json::spec_parse_doc(encode_utf8(text@)) == Some(w) && json::matches_view(
                    v,
                    w,
                    128,
                );
            json::lemma_matches_get(v, w, 128, "colli"@);
            if v.spec_get("colli"@) is Some {
                let x = choose|x: JsonValue| v.spec_get("colli"@) == Some(x);
                let y = choose|y: JsonView|
                    json::view_get(w, "colli"@) == Some(y) && json::matches_view(x, y, 127);
                if x is Obj && x->Obj_0@.len() > 0 {
                    assert(json::matches_view(x->Obj_0@[0].1, y->ObjV_0[0].1, 126));
                    json::lemma_matches_get(x->Obj_0@[0].1, y->ObjV_0[0].1, 126, "barcode"@);
                    json::lemma_matches_get(x->Obj_0@[0].1, y->ObjV_0[0].1, 126, "deliveryDate"@);
                }
            }
        }
        match first_collo(&v) {
            Some(c) => to_package(c),
            None => Err(Error::ParseFailed("no packages in payload".to_owned())),
        }
    }
}

} // verus!

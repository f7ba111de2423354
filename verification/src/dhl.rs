//! DHL carrier handler: URL recognition, identifier extraction and
//! request-URL construction. Two URL shapes are understood: the
//! international `dhl.com` shape with a `tracking-id=` query parameter, and
//! the `dhlecommerce` shape with path segments for barcode and postcode.

use vstd::prelude::*;
use vstd::string::{StrSliceExecFns, StringExecFns};

use crate::errors::Error;
use crate::json::{self, JsonValue, JsonView};
use vstd::utf8::encode_utf8;
use crate::models::{Event, Package, TimeWindow};
use crate::strutil::{
    char_contains, contains_str, find_str, is_char_match_at, lit_run_start, rfind_lit_run,
    scan_upper_digit_dash, udd_run, upper_digit_dash,
};
use crate::time::parse_timestamp;

verus! {

/// Handler for DHL tracking URLs.
pub struct DhlTracker;

impl DhlTracker {
    /// Does this handler service the URL? True when it mentions DHL.
    pub fn can_handle(&self, url: &str) -> (r: bool)
        ensures
            r == char_contains(url@, "dhl"@),
    {
        contains_str(url, "dhl")
    }
}

/// A `dhl` + any character + `com` window begins at `d`.
pub open spec fn dhlcom_at(u: Seq<char>, d: int) -> bool {
    &&& 0 <= d
    &&& d + 7 <= u.len()
    &&& u[d] == 'd'
    &&& u[d + 1] == 'h'
    &&& u[d + 2] == 'l'
    &&& u[d + 4] == 'c'
    &&& u[d + 5] == 'o'
    &&& u[d + 6] == 'm'
}

/// The tracking identifier of the `dhl.com` URL shape begins after the
/// `tracking-id=` at `p`, which follows a `dhl.com` occurrence.
pub open spec fn dhl_id_start(u: Seq<char>, p: int, d: int) -> bool {
    dhlcom_at(u, d) && lit_run_start(u, "tracking-id="@, p, true, d + 7)
}

/// The trailing barcode, optionally suffixed with an URL-encoded postcode.
pub open spec fn with_postcode(b: Seq<char>, pc: Option<Seq<char>>) -> Seq<char> {
    match pc {
        Some(pc) => b + "%2B"@ + pc,
        None => b,
    }
}

/// Find the first `dhl`·`com` window.
fn find_dhlcom(url: &str) -> (r: Option<usize>)
    ensures
        match r {
            Some(d) => dhlcom_at(url@, d as int) && forall|q: int|
                0 <= q < d ==> !dhlcom_at(url@, q),
            None => forall|q: int| !dhlcom_at(url@, q),
        },
{
    let hl = url.unicode_len();
    if hl < 7 {
        return None;
    }
    let mut d: usize = 0;
    while d <= hl - 7
        invariant
            hl == url@.len(),
            7 <= hl,
            d <= hl - 6,
            forall|q: int| 0 <= q < d ==> !dhlcom_at(url@, q),
        decreases hl - d,
    {
        if url.get_char(d) == 'd' && url.get_char(d + 1) == 'h' && url.get_char(d + 2) == 'l'
            && url.get_char(d + 4) == 'c' && url.get_char(d + 5) == 'o' && url.get_char(d + 6)
            == 'm' {
            return Some(d);
        }
        d += 1;
    }
    assert(forall|q: int| d <= q ==> !dhlcom_at(url@, q));
    None
}

/// View of an optional postcode hint.
pub open spec fn hint_view(dpc: Option<&str>) -> Option<Seq<char>> {
    match dpc {
        Some(p) => Some(p@),
        None => None,
    }
}

/// The barcode of the `dhl.com` URL shape: everything after the last
/// qualifying `tracking-id=`, with the postcode hint appended URL-encoded.
pub open spec fn extracted_dhlcom(u: Seq<char>, dpc: Option<Seq<char>>, b: Seq<char>) -> bool {
    exists|p: int, d: int|
        {
            &&& #[trigger] dhl_id_start(u, p, d)
            &&& forall|q: int, d2: int| q > p ==> !#[trigger] dhl_id_start(u, q, d2)
            &&& b == with_postcode(u.subrange(p + 12, u.len() as int), dpc)
        }
}

/// The barcode of the `dhlecommerce` URL shape: the path segment after the
/// last qualifying `tracktrace/`, joined with the following postcode
/// segment or the hint.
pub open spec fn extracted_ecom(u: Seq<char>, dpc: Option<Seq<char>>, b: Seq<char>) -> bool {
    exists|p: int, d: int, e: int|
        #![trigger ecom_start(u, p, d), udd_run(u, p + 11, e)]
        {
            &&& ecom_start(u, p, d)
            &&& forall|q: int, d2: int| q > p ==> !#[trigger] ecom_start(u, q, d2)
            &&& udd_run(u, p + 11, e)
            &&& ({
                let bare = u.subrange(p + 11, e);
                if ecom_zip_at(u, e) {
                    exists|e2: int|
                        #[trigger] udd_run(u, e + 1, e2) && b == with_postcode(
                            bare,
                            Some(u.subrange(e + 1, e2)),
                        )
                } else {
                    b == with_postcode(bare, dpc)
                }
            })
        }
}

/// Extract the barcode from a `dhl.com` tracking URL: everything after the
/// last `tracking-id=` that follows the scheme's `dhl.com` and is followed
/// by a barcode character. A postcode hint is appended URL-encoded.
pub fn get_dhl_barcode(url: &str, default_postcode: Option<&str>) -> (r: Result<String, Error>)
    ensures
        r is Ok <==> exists|p: int, d: int| #[trigger] dhl_id_start(url@, p, d),
        r matches Ok(b) ==> extracted_dhlcom(url@, hint_view(default_postcode), b@),
        r matches Err(e) ==> e matches Error::UrlParseFailed(s, f) && s@ == url@ && f@
            == "barcode"@,
{
    proof {
        reveal_strlit("tracking-id=");
    }
    let d = match find_dhlcom(url) {
        Some(d) => d,
        None => {
            return Err(Error::UrlParseFailed(url.to_owned(), "barcode".to_owned()));
        },
    };
    let hl = url.unicode_len();
    assert(d + 7 <= hl);
    let p = match rfind_lit_run(url, "tracking-id=", true, d + 7) {
        Some(p) => p,
        None => {
            proof {
                assert forall|p: int, d2: int| !dhl_id_start(url@, p, d2) by {
                    if dhl_id_start(url@, p, d2) {
                        assert(d2 >= d);
                        assert(lit_run_start(url@, "tracking-id="@, p, true, d + 7));
                    }
                }
            }
            return Err(Error::UrlParseFailed(url.to_owned(), "barcode".to_owned()));
        },
    };
    let bare = url.substring_char(p + 12, hl);
    proof {
        assert(dhl_id_start(url@, p as int, d as int));
        assert forall|q: int, d2: int| q > p implies !dhl_id_start(url@, q, d2) by {
            if dhl_id_start(url@, q, d2) {
                assert(d2 >= d);
                assert(lit_run_start(url@, "tracking-id="@, q, true, d + 7));
            }
        }
    }
    match default_postcode {
        Some(pc) => {
            let mut out = bare.to_owned();
            out.append("%2B");
            out.append(pc);
            Ok(out)
        },
        None => Ok(bare.to_owned()),
    }
}

/// The barcode of the `dhlecommerce` URL shape begins after the
/// `tracktrace/` at `p`, which follows a `dhlecommerce` occurrence.
pub open spec fn ecom_start(u: Seq<char>, p: int, d: int) -> bool {
    &&& is_char_match_at(u, "dhlecommerce"@, d)
    &&& lit_run_start(u, "tracktrace/"@, p, true, d + 12)
}

/// The URL postcode segment after the barcode run ending at `e`: a slash
/// and at least one barcode character.
pub open spec fn ecom_zip_at(u: Seq<char>, e: int) -> bool {
    0 <= e && e + 1 < u.len() && u[e] == '/' && upper_digit_dash(u[e + 1])
}

/// Extract the barcode from a `dhlecommerce` tracking URL: the barcode
/// path segment after the last qualifying `tracktrace/`, joined with the
/// following postcode segment or the postcode hint when either is present.
pub fn get_ecommerce_barcode(url: &str, default_postcode: Option<&str>) -> (r: Result<
    String,
    Error,
>)
    ensures
        r is Ok <==> exists|p: int, d: int| #[trigger] ecom_start(url@, p, d),
        r matches Err(e) ==> e matches Error::UrlParseFailed(s, f) && s@ == url@ && f@
            == "barcode"@,
        r matches Ok(b) ==> extracted_ecom(url@, hint_view(default_postcode), b@),
{
    proof {
        reveal_strlit("tracktrace/");
        reveal_strlit("dhlecommerce");
    }
    let d = match find_str(url, "dhlecommerce") {
        Some(d) => d,
        None => {
            proof {
                assert forall|p: int, d2: int| !ecom_start(url@, p, d2) by {
                    if ecom_start(url@, p, d2) {
                        assert(char_contains(url@, "dhlecommerce"@));
                    }
                }
            }
            return Err(Error::UrlParseFailed(url.to_owned(), "barcode".to_owned()));
        },
    };
    let hl = url.unicode_len();
    assert(d + 12 <= hl);
    let p = match rfind_lit_run(url, "tracktrace/", true, d + 12) {
        Some(p) => p,
        None => {
            proof {
                assert forall|p: int, d2: int| !ecom_start(url@, p, d2) by {
                    if ecom_start(url@, p, d2) {
                        assert(d2 >= d);
                        assert(lit_run_start(url@, "tracktrace/"@, p, true, d + 12));
                    }
                }
            }
            return Err(Error::UrlParseFailed(url.to_owned(), "barcode".to_owned()));
        },
    };
    let e = scan_upper_digit_dash(url, p + 11);
    let bare = url.substring_char(p + 11, e);
    proof {
        assert(ecom_start(url@, p as int, d as int));
        assert forall|q: int, d2: int| q > p implies !ecom_start(url@, q, d2) by {
            if ecom_start(url@, q, d2) {
                assert(d2 >= d);
                assert(lit_run_start(url@, "tracktrace/"@, q, true, d + 12));
            }
        }
    }
    if e < hl && url.get_char(e) == '/' && e + 1 < hl && crate::strutil::is_upper_digit_dash(
        url.get_char(e + 1),
    ) {
        let e2 = scan_upper_digit_dash(url, e + 1);
        let zip = url.substring_char(e + 1, e2);
        let mut out = bare.to_owned();
        out.append("%2B");
        out.append(zip);
        return Ok(out);
    }
    match default_postcode {
        Some(pc) => {
            let mut out = bare.to_owned();
            out.append("%2B");
            out.append(pc);
            Ok(out)
        },
        None => Ok(bare.to_owned()),
    }
}

/// Extract the barcode from either DHL URL shape, preferring `dhl.com`.
pub fn get_barcode(url: &str, default_postcode: Option<&str>) -> (r: Result<String, Error>)
    ensures
        r is Ok <==> (exists|p: int, d: int| #[trigger] dhl_id_start(url@, p, d)) || (exists|
            p: int,
            d: int,
        | #[trigger] ecom_start(url@, p, d)),
        r matches Ok(b) ==> if exists|p: int, d: int| #[trigger] dhl_id_start(url@, p, d) {
            extracted_dhlcom(url@, hint_view(default_postcode), b@)
        } else {
            extracted_ecom(url@, hint_view(default_postcode), b@)
        },
        r matches Err(e) ==> e matches Error::UrlParseFailed(s, f) && s@ == url@ && f@
            == "barcode"@,
{
    match get_dhl_barcode(url, default_postcode) {
        Ok(b) => Ok(b),
        Err(_) => get_ecommerce_barcode(url, default_postcode),
    }
}

/// The API request URL for a barcode.
pub fn get_url(barcode: &str) -> (r: String)
    ensures
        r@ == "https://api-gw.dhlparcel.nl/track-trace?key="@ + barcode@
            + "&role=consumer-receiver"@,
{
    let mut out = String::new();
    out.append("https://api-gw.dhlparcel.nl/track-trace?key=");
    out.append(barcode);
    out.append("&role=consumer-receiver");
    out
}

/// The estimated arrival window, parsed from the `start/end` timeframe
/// string when both halves are parseable timestamps.
fn eta_window_of(v: &JsonValue) -> Option<TimeWindow> {
    let tf = match v.str_field("plannedDeliveryTimeframe") {
        Some(s) => s,
        None => {
            return None;
        },
    };
    let tfs = tf.as_str();
    let cut = match find_str(tfs, "/") {
        Some(c) => c,
        None => {
            return None;
        },
    };
    let hl = tfs.unicode_len();
    proof {
        reveal_strlit("/");
    }
    let left = tfs.substring_char(0, cut);
    let right = tfs.substring_char(cut + 1, hl);
    let start = match parse_timestamp(left) {
        Some(t) => t,
        None => {
            return None;
        },
    };
    let end = match parse_timestamp(right) {
        Some(t) => t,
        None => {
            return None;
        },
    };
    Some(TimeWindow { start, end })
}

/// The estimated arrival time, from the transit-time block.
fn eta_of(v: &JsonValue) -> Option<i64> {
    let tt = match v.get("transitTime") {
        Some(t) => t,
        None => {
            return None;
        },
    };
    let ts = match tt.str_field("expectedDeliveryMoment") {
        Some(s) => s,
        None => {
            return None;
        },
    };
    parse_timestamp(ts.as_str())
}

/// A party name under the given role key.
fn party_of(v: &JsonValue, role: &str) -> Option<String> {
    let party = match v.get(role) {
        Some(p) => p,
        None => {
            return None;
        },
    };
    party.str_field("name")
}

/// The events that carry a parseable timestamp, a category and a status;
/// the text is `category: status`.
fn events_of(v: &JsonValue) -> Vec<Event> {
    let mut out: Vec<Event> = Vec::new();
    let items = match v.get("events") {
        Some(JsonValue::Arr(items)) => items,
        _ => {
            return out;
        },
    };
    let mut i: usize = 0;
    while i < items.len()
        decreases items@.len() - i,
    {
        let ev = &items[i];
        if let Some(dt) = ev.str_field("timestamp") {
            if let Some(ts) = parse_timestamp(dt.as_str()) {
                if let Some(category) = ev.str_field("category") {
                    if let Some(status) = ev.str_field("status") {
                        let mut text = category;
                        text.append(": ");
                        text.append(status.as_str());
                        out.push(Event { timestamp: ts, text });
                    }
                }
            }
        }
        i += 1;
    }
    out
}

/// A package value reports itself delivered: it carries a well-formed
/// delivery timestamp.
pub open spec fn spec_delivered(v: JsonValue) -> bool {
    &&& v.spec_get("deliveredAt"@) matches Some(JsonValue::Str(t))
    &&& match v.spec_get("deliveredAt"@) {
        Some(JsonValue::Str(t)) => crate::time::spec_valid_iso(t@),
        _ => false,
    }
}

/// The delivery timestamp: present exactly when the package reports a
/// well-formed one.
fn delivered_of(v: &JsonValue) -> (r: Option<i64>)
    ensures
        r is Some <==> spec_delivered(*v),
{
    let dt = match v.str_field("deliveredAt") {
        Some(s) => s,
        None => {
            return None;
        },
    };
    parse_timestamp(dt.as_str())
}

/// Map one parsed package object to the common package shape. The barcode
/// is the one required field; everything else is best-effort.
pub fn to_package(v: &JsonValue) -> (r: Result<Package, Error>)
    ensures
        r is Ok <==> (v.spec_get("barcode"@) matches Some(JsonValue::Str(t))),
        r matches Ok(p) ==> (v.spec_get("barcode"@) matches Some(JsonValue::Str(t)) && p.barcode@
            == t@) && p.channel@ == "DHL"@ && (p.delivered is Some <==> spec_delivered(*v)),
        r matches Err(e) ==> e matches Error::MissingField(f) && f@ == "barcode"@,
{
    let barcode = match v.str_field("barcode") {
        Some(b) => b,
        None => {
            return Err(Error::MissingField("barcode".to_owned()));
        },
    };
    Ok(
        Package {
            barcode,
            channel: "DHL".to_owned(),
            sender: party_of(v, "shipper"),
            recipient: party_of(v, "receiver"),
            eta: eta_of(v),
            eta_window: eta_window_of(v),
            delivered: delivered_of(v),
            events: events_of(v),
        },
    )
}

/// The first package object of a payload view: the root must be an array
/// with at least one element.
pub open spec fn view_first_package(w: JsonView) -> Option<JsonView> {
    match w {
        JsonView::ArrV(ws) => if ws.len() > 0 {
            Some(ws[0])
        } else {
            None
        },
        _ => None,
    }
}

/// A package view reports itself delivered: it carries a well-formed
/// delivery timestamp.
pub open spec fn view_delivered(e: JsonView) -> bool {
    &&& json::view_get(e, "deliveredAt"@) matches Some(JsonView::StrV(t))
    &&& match json::view_get(e, "deliveredAt"@) {
        Some(JsonView::StrV(t)) => crate::time::spec_valid_iso(t),
        _ => false,
    }
}

impl DhlTracker {
    /// Parse a raw tracking response body, an array of package objects, of
    /// which the first is reported: success exactly when that first object
    /// carries a string barcode, whose value becomes the barcode.
    pub fn parse(&self, text: &str) -> (r: Result<Package, Error>)
        ensures
            ({
                let doc = json::spec_parse_doc(encode_utf8(text@));
                &&& (r is Ok <==> (doc matches Some(w) && view_first_package(w) matches Some(e)
                    && json::view_get(e, "barcode"@) matches Some(JsonView::StrV(b))))
                &&& (r matches Ok(p) ==> (doc matches Some(w) && view_first_package(w)
                    matches Some(e) && json::view_get(e, "barcode"@) == Some(
                    JsonView::StrV(p.barcode@),
                ) && p.channel@ == "DHL"@ && (p.spec_status()
                    == crate::models::PackageStatus::Delivered <==> view_delivered(e))))
                &&& (r matches Err(e) ==> (e matches Error::ParseFailed(_) || (e
                    matches Error::MissingField(f) && f@ == "barcode"@)))
            }),
    {
        let v = match json::parse(text) {
            Some(v) => v,
            None => {
                return Err(Error::ParseFailed("invalid JSON".to_owned()));
            },
        };
        proof {
            let w = choose|w: JsonView|
                json::spec_parse_doc(encode_utf8(text@)) == Some(w) && json::matches_view(
                    v,
                    w,
                    128,
                );
            if v is Arr && v->Arr_0@.len() > 0 {
                let e = choose|e: JsonView| view_first_package(w) == Some(e);
                assert(json::matches_view(v->Arr_0@[0], e, 127));
                json::lemma_matches_get(v->Arr_0@[0], e, 127, "barcode"@);
                json::lemma_matches_get(v->Arr_0@[0], e, 127, "deliveredAt"@);
            }
        }
        match &v {
            JsonValue::Arr(items) => {
                if items.len() == 0 {
                    Err(Error::ParseFailed("no packages in payload".to_owned()))
                } else {
                    to_package(&items[0])
                }
            },
            _ => Err(Error::ParseFailed("no packages in payload".to_owned())),
        }
    }
}

} // verus!

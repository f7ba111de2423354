//! GLS carrier handler: URL recognition, identifier extraction and
//! request-URL construction. The tracking URL carries a `parcelNo=` query
//! parameter and, usually, a `zipcode=` parameter.

use vstd::prelude::*;
use vstd::string::{StrSliceExecFns, StringExecFns};

use crate::errors::Error;
use crate::json::{self, JsonValue, JsonView};
use vstd::utf8::encode_utf8;
use crate::models::{Event, Package, TimeWindow};
use crate::strutil::{
    char_contains, contains_str, lit_run_start, rfind_lit_run, scan_upper_digit, ud_run,
};
use crate::time::parse_timestamp;

verus! {

/// Handler for GLS tracking URLs.
pub struct GlsTracker;

impl GlsTracker {
    /// Does this handler service the URL? True when it mentions the GLS
    /// web front-end.
    pub fn can_handle(&self, url: &str) -> (r: bool)
        ensures
            r == char_contains(url@, "www.gls"@),
    {
        contains_str(url, "www.gls")
    }
}

/// A barcode value begins after the `parcelNo=` at `p`.
pub open spec fn parcel_start(u: Seq<char>, p: int) -> bool {
    lit_run_start(u, "parcelNo="@, p, false, 0)
}

/// A postcode value begins after the `zipcode=` at `p`.
pub open spec fn zip_start(u: Seq<char>, p: int) -> bool {
    lit_run_start(u, "zipcode="@, p, false, 0)
}

/// The barcode extracted from a tracking URL: the value of the last
/// `parcelNo=` parameter.
pub open spec fn extracted_barcode(u: Seq<char>, barcode: Seq<char>) -> bool {
    exists|p: int, e: int|
        #![trigger parcel_start(u, p), ud_run(u, p + 9, e)]
        {
            &&& parcel_start(u, p)
            &&& forall|q: int| q > p ==> !parcel_start(u, q)
            &&& ud_run(u, p + 9, e)
            &&& barcode == u.subrange(p + 9, e)
        }
}

/// The postcode extracted from a tracking URL: the value of the last
/// `zipcode=` parameter, or failing that the hint `dpc`.
pub open spec fn extracted_postcode(u: Seq<char>, dpc: Option<Seq<char>>, pc: Seq<char>) -> bool {
    if exists|p: int| #[trigger] zip_start(u, p) {
        exists|p: int, e: int|
            #![trigger zip_start(u, p), ud_run(u, p + 8, e)]
            {
                &&& zip_start(u, p)
                &&& forall|q: int| q > p ==> !zip_start(u, q)
                &&& ud_run(u, p + 8, e)
                &&& pc == u.subrange(p + 8, e)
            }
    } else {
        dpc matches Some(d) && pc == d
    }
}

/// View of an optional postcode hint.
pub open spec fn hint_view(dpc: Option<&str>) -> Option<Seq<char>> {
    match dpc {
        Some(p) => Some(p@),
        None => None,
    }
}

/// Extract the barcode and postcode from a tracking URL: the barcode is
/// the value of the last `parcelNo=` parameter, the postcode the value of
/// the last `zipcode=` parameter or, failing that, the postcode hint.
/// With no barcode, or no postcode and no hint, the URL is rejected.
pub fn get_barcode_postcode(url: &str, default_postcode: Option<&str>) -> (r: Result<
    (String, String),
    Error,
>)
    ensures
        r is Ok <==> (exists|p: int| #[trigger] parcel_start(url@, p)) && ((exists|p: int|
            #[trigger] zip_start(url@, p)) || default_postcode is Some),
        r matches Ok(bp) ==> extracted_barcode(url@, bp.0@) && extracted_postcode(
            url@,
            hint_view(default_postcode),
            bp.1@,
        ),
        r matches Err(e) ==> e matches Error::UrlParseFailed(s, f) && s@ == url@ && f@ == (
        if exists|p: int| #[trigger] parcel_start(url@, p) {
            "postcode"@
        } else {
            "barcode"@
        }),
{
    proof {
        reveal_strlit("parcelNo=");
        reveal_strlit("zipcode=");
    }
    let hl = url.unicode_len();
    let p = match rfind_lit_run(url, "parcelNo=", false, 0) {
        Some(p) => p,
        None => {
            return Err(Error::UrlParseFailed(url.to_owned(), "barcode".to_owned()));
        },
    };
    let e = scan_upper_digit(url, p + 9);
    let barcode = url.substring_char(p + 9, e).to_owned();
    proof {
        assert(parcel_start(url@, p as int));
        assert(ud_run(url@, p as int + 9, e as int));
    }
    let postcode = match rfind_lit_run(url, "zipcode=", false, 0) {
        Some(z) => {
            let ze = scan_upper_digit(url, z + 8);
            proof {
                assert(zip_start(url@, z as int));
                assert(ud_run(url@, z as int + 8, ze as int));
            }
            url.substring_char(z + 8, ze).to_owned()
        },
        None => {
            match default_postcode {
                Some(pc) => pc.to_owned(),
                None => {
                    return Err(Error::UrlParseFailed(url.to_owned(), "postcode".to_owned()));
                },
            }
        },
    };
    Ok((barcode, postcode))
}

/// The API request URL for a barcode and postcode, with English responses.
pub fn get_url(barcode: &str, postcode: &str) -> (r: String)
    ensures
        r@ == "https://apm.gls.nl/api/tracktrace/v1/"@ + barcode@ + "/postalcode/"@ + postcode@
            + "/details/en-GB"@,
{
    let mut out = String::new();
    out.append("https://apm.gls.nl/api/tracktrace/v1/");
    out.append(barcode);
    out.append("/postalcode/");
    out.append(postcode);
    out.append("/details/en-GB");
    out
}

/// A payload value reports its parcel delivered: the delivery scan is
/// marked delivered and carries a well-formed timestamp.
pub open spec fn spec_delivered(v: JsonValue) -> bool {
    &&& v.spec_get("deliveryScanInfo"@) matches Some(info)
    &&& match v.spec_get("deliveryScanInfo"@) {
        Some(info) => {
            &&& info.spec_get("isDelivered"@) == Some(JsonValue::Bool(true))
            &&& info.spec_get("dateTime"@) matches Some(JsonValue::Str(dt))
            &&& match info.spec_get("dateTime"@) {
                Some(JsonValue::Str(dt)) => crate::time::spec_valid_iso(dt@),
                _ => false,
            }
        },
        None => false,
    }
}

/// The delivery timestamp: present exactly when the delivery scan reports
/// the parcel delivered with a well-formed timestamp.
fn delivered_of(v: &JsonValue) -> (r: Option<i64>)
    ensures
        r is Some <==> spec_delivered(*v),
{
    let info = match v.get("deliveryScanInfo") {
        Some(i) => i,
        None => {
            return None;
        },
    };
    match info.bool_field("isDelivered") {
        Some(true) => {
        },
        _ => {
            return None;
        },
    }
    let dt = match info.str_field("dateTime") {
        Some(s) => s,
        None => {
            return None;
        },
    };
    parse_timestamp(dt.as_str())
}

/// The estimated arrival time, from the delivery status.
fn eta_of(v: &JsonValue) -> Option<i64> {
    let status = match v.get("deliveryStatus") {
        Some(s) => s,
        None => {
            return None;
        },
    };
    let ts = match status.str_field("etaTimestamp") {
        Some(s) => s,
        None => {
            return None;
        },
    };
    parse_timestamp(ts.as_str())
}

/// The estimated arrival window: present when both ends are reported.
fn eta_window_of(v: &JsonValue) -> Option<TimeWindow> {
    let status = match v.get("deliveryStatus") {
        Some(s) => s,
        None => {
            return None;
        },
    };
    let lo = match status.str_field("etaTimestampMin") {
        Some(s) => s,
        None => {
            return None;
        },
    };
    let hi = match status.str_field("etaTimestampMax") {
        Some(s) => s,
        None => {
            return None;
        },
    };
    let start = match parse_timestamp(lo.as_str()) {
        Some(t) => t,
        None => {
            return None;
        },
    };
    let end = match parse_timestamp(hi.as_str()) {
        Some(t) => t,
        None => {
            return None;
        },
    };
    Some(TimeWindow { start, end })
}

/// A party name under `addressInfo`, with the empty string meaning absent.
fn party_of(v: &JsonValue, role: &str) -> Option<String> {
    let info = match v.get("addressInfo") {
        Some(i) => i,
        None => {
            return None;
        },
    };
    let party = match info.get(role) {
        Some(p) => p,
        None => {
            return None;
        },
    };
    let name = match party.str_field("name") {
        Some(n) => n,
        None => {
            return None;
        },
    };
    if name.as_str().unicode_len() == 0 {
        None
    } else {
        Some(name)
    }
}

/// The scan events that carry both a parseable timestamp and a
/// description; other scans are passed over.
fn events_of(v: &JsonValue) -> Vec<Event> {
    let mut out: Vec<Event> = Vec::new();
    let scans = match v.get("scans") {
        Some(JsonValue::Arr(items)) => items,
        _ => {
            return out;
        },
    };
    let mut i: usize = 0;
    while i < scans.len()
        decreases scans@.len() - i,
    {
        let scan = &scans[i];
        if let Some(dt) = scan.str_field("dateTime") {
            if let Some(ts) = parse_timestamp(dt.as_str()) {
                if let Some(text) = scan.str_field("eventReasonDescr") {
                    out.push(Event { timestamp: ts, text });
                }
            }
        }
        i += 1;
    }
    out
}

/// Map a parsed tracking payload to the common package shape. The barcode
/// is the one required field; everything else is best-effort.
pub fn to_package(v: &JsonValue) -> (r: Result<Package, Error>)
    ensures
        r is Ok <==> (v.spec_get("parcelNo"@) matches Some(JsonValue::Str(t))),
        r matches Ok(p) ==> (v.spec_get("parcelNo"@) matches Some(JsonValue::Str(t)) && p.barcode@
            == t@) && p.channel@ == "GLS"@ && (p.delivered is Some <==> spec_delivered(*v)),
        r matches Err(e) ==> e matches Error::MissingField(f) && f@ == "barcode"@,
{
    let barcode = match v.str_field("parcelNo") {
        Some(b) => b,
        None => {
            return Err(Error::MissingField("barcode".to_owned()));
        },
    };
    Ok(
        Package {
            barcode,
            channel: "GLS".to_owned(),
            sender: party_of(v, "from"),
            recipient: party_of(v, "recipient"),
            eta: eta_of(v),
            eta_window: eta_window_of(v),
            delivered: delivered_of(v),
            events: events_of(v),
        },
    )
}

/// A payload view reports its parcel delivered: the delivery scan is
/// marked delivered and carries a well-formed timestamp.
pub open spec fn view_delivered(w: JsonView) -> bool {
    &&& json::view_get(w, "deliveryScanInfo"@) matches Some(info)
    &&& match json::view_get(w, "deliveryScanInfo"@) {
        Some(info) => {
            &&& json::view_get(info, "isDelivered"@) == Some(JsonView::BoolV(true))
            &&& json::view_get(info, "dateTime"@) matches Some(JsonView::StrV(dt))
            &&& match json::view_get(info, "dateTime"@) {
                Some(JsonView::StrV(dt)) => crate::time::spec_valid_iso(dt),
                _ => false,
            }
        },
        None => false,
    }
}

impl GlsTracker {
    /// Parse a raw tracking response body into a package: success exactly
    /// when the document parses and carries a string `parcelNo`, whose
    /// value becomes the barcode.
    pub fn parse(&self, text: &str) -> (r: Result<Package, Error>)
        ensures
            ({
                let doc = json::spec_parse_doc(encode_utf8(text@));
                &&& (r is Ok <==> (doc matches Some(w) && json::view_get(w, "parcelNo"@)
                    matches Some(JsonView::StrV(b))))
                &&& (r matches Ok(p) ==> (doc matches Some(w) && json::view_get(w, "parcelNo"@)
                    == Some(JsonView::StrV(p.barcode@)) && p.channel@ == "GLS"@ && (p.spec_status()
                    == crate::models::PackageStatus::Delivered <==> view_delivered(w))))
                &&& (r matches Err(e) ==> (e matches Error::ParseFailed(_) || (e
                    matches Error::MissingField(f) && f@ == "barcode"@)))
            }),
    {
        let v = match json::parse(text) {
            Some(v) => v,
            None => {
                return Err(Error::ParseFailed("invalid JSON".to_owned()));
            },
        };
        proof {
            let w = choose|w: JsonView|
                json::spec_parse_doc(encode_utf8(text@)) == Some(w) && json::matches_view(
                    v,
                    w,
                    128,
                );
            json::lemma_matches_get(v, w, 128, "parcelNo"@);
            json::lemma_matches_get(v, w, 128, "deliveryScanInfo"@);
            if v.spec_get("deliveryScanInfo"@) is Some {
                let x = choose|x: JsonValue| v.spec_get("deliveryScanInfo"@) == Some(x);
                let y = choose|y: JsonView|
                    json::view_get(w, "deliveryScanInfo"@) == Some(y) && json::matches_view(
                        x,
                        y,
                        127,
                    );
                json::lemma_matches_get(x, y, 127, "isDelivered"@);
                json::lemma_matches_get(x, y, 127, "dateTime"@);
            }
        }
        to_package(&v)
    }
}

} // verus!

//! Carrier handler registry: an ordered list of handlers, consulted in
//! registration order; the first handler whose recognizer accepts a URL
//! services it.

use vstd::prelude::*;
use vstd::string::StringSliceAdditionalSpecFns;

use vstd::utf8::encode_utf8;

use crate::dhl::{self, DhlTracker};
use crate::errors::Error;
use crate::gls::{self, GlsTracker};
use crate::json::{self, JsonView};
use crate::models::{Package, PackageStatus, TrackerContext};
use crate::settings::opt_view;
use crate::postnl::{self, PostNLTracker};
use crate::strutil::char_contains;

verus! {

/// One registered carrier handler.
#[derive(Debug, Clone, Copy, PartialEq, Eq, Structural)]
pub enum Carrier {
    PostNL,
    Dhl,
    Gls,
}

impl Carrier {
    /// The recognizer of each carrier: a substring test on the URL.
    pub open spec fn spec_can_handle(self, url: Seq<char>) -> bool {
        match self {
            Carrier::PostNL => char_contains(url, "postnl"@),
            Carrier::Dhl => char_contains(url, "dhl"@),
            Carrier::Gls => char_contains(url, "www.gls"@),
        }
    }

    /// The carrier name reported in parsed packages.
    pub open spec fn spec_channel(self) -> Seq<char> {
        match self {
            Carrier::PostNL => "PostNL"@,
            Carrier::Dhl => "DHL"@,
            Carrier::Gls => "GLS"@,
        }
    }

    /// The package object a payload view designates for this carrier: the
    /// first `colli` member, the first array element, or the root itself.
    pub open spec fn spec_package_view(self, w: JsonView) -> Option<JsonView> {
        match self {
            Carrier::PostNL => postnl::view_first_collo(w),
            Carrier::Dhl => dhl::view_first_package(w),
            Carrier::Gls => Some(w),
        }
    }

    /// The key under which this carrier's package object carries its
    /// barcode.
    pub open spec fn spec_barcode_key(self) -> Seq<char> {
        match self {
            Carrier::PostNL => "barcode"@,
            Carrier::Dhl => "barcode"@,
            Carrier::Gls => "parcelNo"@,
        }
    }

    /// The barcode this carrier's parse reports for a response body, when
    /// the body parses and its package object carries one.
    pub open spec fn spec_parsed_barcode(self, text: Seq<char>) -> Option<Seq<char>> {
        match json::spec_parse_doc(encode_utf8(text)) {
            Some(w) => match self.spec_package_view(w) {
                Some(e) => match json::view_get(e, self.spec_barcode_key()) {
                    Some(JsonView::StrV(b)) => Some(b),
                    _ => None,
                },
                None => None,
            },
            None => None,
        }
    }

    /// The carrier's parse succeeds on this response body.
    pub open spec fn spec_parse_ok(self, text: Seq<char>) -> bool {
        self.spec_parsed_barcode(text) is Some
    }

    /// The carrier's parse of this response body reports the package
    /// delivered.
    pub open spec fn spec_parsed_delivered(self, text: Seq<char>) -> bool {
        match json::spec_parse_doc(encode_utf8(text)) {
            Some(w) => match self.spec_package_view(w) {
                Some(e) => match self {
                    Carrier::PostNL => postnl::view_delivered(e),
                    Carrier::Dhl => dhl::view_delivered(e),
                    Carrier::Gls => gls::view_delivered(e),
                },
                None => false,
            },
            None => false,
        }
    }

    /// Parse a raw tracking response body into a package: success exactly
    /// when the document parses and the carrier's package object carries a
    /// string barcode, which becomes the package's barcode.
    pub fn parse(&self, text: &str) -> (r: Result<Package, Error>)
        ensures
            r is Ok <==> self.spec_parse_ok(text@),
            r matches Ok(p) ==> self.spec_parsed_barcode(text@) == Some(p.barcode@) && p.channel@
                == self.spec_channel() && (p.spec_status() == PackageStatus::Delivered
                <==> self.spec_parsed_delivered(text@)),
            r matches Err(e) ==> (e matches Error::ParseFailed(_) || (e
                matches Error::MissingField(f) && f@ == "barcode"@)),
    {
        match self {
            Carrier::PostNL => PostNLTracker.parse(text),
            Carrier::Dhl => DhlTracker.parse(text),
            Carrier::Gls => GlsTracker.parse(text),
        }
    }

    /// Build the carrier API request URL from a tracking URL and the
    /// per-run hints; fails when the URL lacks the identifiers this
    /// carrier requires.
    pub fn request_url(&self, url: &str, ctx: &TrackerContext) -> (r: Result<String, Error>)
        ensures
            r is Ok <==> spec_request_ok(*self, url@, opt_view(ctx.recipient_postcode)),
            r matches Err(e) ==> e matches Error::UrlParseFailed(s, f) && s@ == url@ && f@ == (
            match self {
                Carrier::Gls => if exists|p: int| #[trigger] gls::parcel_start(url@, p) {
                    "postcode"@
                } else {
                    "barcode"@
                },
                _ => "barcode"@,
            }),
            r matches Ok(ru) ==> spec_request_url(
                *self,
                url@,
                opt_view(ctx.recipient_postcode),
                ctx.language@,
                ru@,
            ),
    {
        let postcode: Option<&str> = match &ctx.recipient_postcode {
            Some(p) => Some(p.as_str()),
            None => None,
        };
        match self {
            Carrier::PostNL => {
                let (barcode, country, url_postcode) = postnl::get_barcode_and_postcode(url);
                let barcode = match barcode {
                    Some(b) => b,
                    None => {
                        return Err(
                            Error::UrlParseFailed(url.to_owned(), "barcode".to_owned()),
                        );
                    },
                };
                let pc: Option<&str> = match &url_postcode {
                    Some(p) => Some(p.as_str()),
                    None => postcode,
                };
                let country_ref: Option<&str> = match &country {
                    Some(c) => Some(c.as_str()),
                    None => None,
                };
                Ok(
                    postnl::build_url(
                        barcode.as_str(),
                        country_ref,
                        pc,
                        ctx.language.as_str(),
                    ),
                )
            },
            Carrier::Dhl => {
                let barcode = match dhl::get_barcode(url, postcode) {
                    Ok(b) => b,
                    Err(e) => {
                        return Err(e);
                    },
                };
                Ok(dhl::get_url(barcode.as_str()))
            },
            Carrier::Gls => {
                let (barcode, zip) = match gls::get_barcode_postcode(url, postcode) {
                    Ok(bp) => bp,
                    Err(e) => {
                        return Err(e);
                    },
                };
                Ok(gls::get_url(barcode.as_str(), zip.as_str()))
            },
        }
    }

    /// Does this carrier's handler service the URL?
    pub fn can_handle(&self, url: &str) -> (r: bool)
        ensures
            r == self.spec_can_handle(url@),
    {
        match self {
            Carrier::PostNL => PostNLTracker.can_handle(url),
            Carrier::Dhl => DhlTracker.can_handle(url),
            Carrier::Gls => GlsTracker.can_handle(url),
        }
    }
}

/// The carrier can extract the identifiers it needs from the tracking
/// URL, given the postcode hint.
pub open spec fn spec_request_ok(c: Carrier, u: Seq<char>, pc: Option<Seq<char>>) -> bool {
    match c {
        Carrier::PostNL => exists|p: int| #[trigger] postnl::barcode_start(u, p),
        Carrier::Dhl => (exists|p: int, d: int| #[trigger] dhl::dhl_id_start(u, p, d)) || (exists|
            p: int,
            d: int,
        | #[trigger] dhl::ecom_start(u, p, d)),
        Carrier::Gls => (exists|p: int| #[trigger] gls::parcel_start(u, p)) && ((exists|p: int|
            #[trigger] gls::zip_start(u, p)) || pc is Some),
    }
}

/// `ru` is the request URL the carrier builds from the tracking URL `u`,
/// the postcode hint `pc` and the language hint `lang`: the carrier's API
/// endpoint around the extracted identifiers.
pub open spec fn spec_request_url(
    c: Carrier,
    u: Seq<char>,
    pc: Option<Seq<char>>,
    lang: Seq<char>,
    ru: Seq<char>,
) -> bool {
    match c {
        Carrier::PostNL => exists|b: Seq<char>, cc: Option<Seq<char>>, upc: Option<Seq<char>>|
            #![trigger postnl::extracted(u, b, cc, upc)]
            {
                &&& postnl::extracted(u, b, cc, upc)
                &&& ({
                    let eff = if upc is Some {
                        upc
                    } else {
                        pc
                    };
                    let suffix = match (cc, eff) {
                        (Some(cv), Some(pv)) => "-"@ + cv + "-"@ + pv,
                        _ => Seq::<char>::empty(),
                    };
                    ru == "https://jouw.postnl.nl/track-and-trace/api/trackAndTrace/"@ + b + suffix
                        + "?language="@ + lang
                })
            },
        Carrier::Dhl => exists|b: Seq<char>|
            #![trigger dhl::extracted_dhlcom(u, pc, b)]
            #![trigger dhl::extracted_ecom(u, pc, b)]
            {
                &&& if exists|p: int, d: int| #[trigger] dhl::dhl_id_start(u, p, d) {
                    dhl::extracted_dhlcom(u, pc, b)
                } else {
                    dhl::extracted_ecom(u, pc, b)
                }
                &&& ru == "https://api-gw.dhlparcel.nl/track-trace?key="@ + b
                    + "&role=consumer-receiver"@
            },
        Carrier::Gls => exists|b: Seq<char>, zp: Seq<char>|
            #![trigger gls::extracted_barcode(u, b), gls::extracted_postcode(u, pc, zp)]
            {
                &&& gls::extracted_barcode(u, b)
                &&& gls::extracted_postcode(u, pc, zp)
                &&& ru == "https://apm.gls.nl/api/tracktrace/v1/"@ + b + "/postalcode/"@ + zp
                    + "/details/en-GB"@
            },
    }
}

/// The first registered handler whose recognizer accepts the URL.
pub open spec fn spec_resolve(handlers: Seq<Carrier>, u: Seq<char>) -> Option<Carrier>
    decreases handlers.len(),
{
    if handlers.len() == 0 {
        None
    } else if handlers[0].spec_can_handle(u) {
        Some(handlers[0])
    } else {
        spec_resolve(handlers.drop_first(), u)
    }
}

/// Resolution skips any prefix of handlers that do not recognize the URL.
proof fn lemma_resolve_prefix(handlers: Seq<Carrier>, u: Seq<char>, i: int)
    requires
        0 <= i <= handlers.len(),
        forall|j: int| 0 <= j < i ==> !(#[trigger] handlers[j].spec_can_handle(u)),
    ensures
        spec_resolve(handlers, u) == spec_resolve(handlers.skip(i), u),
    decreases i,
{
    if i > 0 {
        lemma_resolve_prefix(handlers.drop_first(), u, i - 1);
        assert(handlers.drop_first().skip(i - 1) =~= handlers.skip(i));
    } else {
        assert(handlers.skip(0) =~= handlers);
    }
}

/// The ordered list of registered handlers.
pub struct Registry {
    pub handlers: Vec<Carrier>,
}

impl Registry {
    /// The stock registry, in its fixed registration order.
    pub fn new() -> (r: Registry)
        ensures
            r.handlers@ == seq![Carrier::PostNL, Carrier::Dhl, Carrier::Gls],
    {
        let handlers = vec![Carrier::PostNL, Carrier::Dhl, Carrier::Gls];
        proof {
            assert(handlers@ =~= seq![Carrier::PostNL, Carrier::Dhl, Carrier::Gls]);
        }
        Registry { handlers }
    }

    /// An empty registry, to be filled by `register`.
    pub fn empty() -> (r: Registry)
        ensures
            r.handlers@.len() == 0,
    {
        Registry { handlers: Vec::new() }
    }

    /// Append a handler; it is consulted after all earlier registrations.
    pub fn register(&mut self, carrier: Carrier)
        ensures
            final(self).handlers@ == old(self).handlers@.push(carrier),
    {
        self.handlers.push(carrier);
    }

    /// Resolve the handler for a URL: the first registered handler whose
    /// recognizer accepts it; `NoHandlerFound` when none does.
    pub fn get_handler(&self, url: &str) -> (r: Result<Carrier, Error>)
        ensures
            match r {
                Ok(c) => spec_resolve(self.handlers@, url@) == Some(c) && exists|i: int|
                    {
                        &&& 0 <= i < self.handlers@.len()
                        &&& c == self.handlers@[i]
                        &&& #[trigger] self.handlers@[i].spec_can_handle(url@)
                        &&& forall|j: int|
                            0 <= j < i ==> !(#[trigger] self.handlers@[j].spec_can_handle(url@))
                    },
                Err(e) => spec_resolve(self.handlers@, url@) is None && (forall|i: int|
                    0 <= i < self.handlers@.len() ==> !(
                    #[trigger] self.handlers@[i].spec_can_handle(url@))) && (e
                    matches Error::NoHandlerFound(s) && s@ == url@),
            },
    {
        let mut i: usize = 0;
        while i < self.handlers.len()
            invariant
                i <= self.handlers@.len(),
                forall|j: int|
                    0 <= j < i ==> !(#[trigger] self.handlers@[j].spec_can_handle(url@)),
            decreases self.handlers@.len() - i,
        {
            let c = self.handlers[i];
            if c.can_handle(url) {
                proof {
                    lemma_resolve_prefix(self.handlers@, url@, i as int);
                    assert(self.handlers@.skip(i as int)[0] == self.handlers@[i as int]);
                }
                return Ok(c);
            }
            i += 1;
        }
        proof {
            lemma_resolve_prefix(self.handlers@, url@, i as int);
            assert(self.handlers@.skip(i as int).len() == 0);
        }
        Err(Error::NoHandlerFound(url.to_owned()))
    }
}

impl Default for Registry {
    /// The stock registry.
    fn default() -> (r: Registry)
        ensures
            r.handlers@ == seq![Carrier::PostNL, Carrier::Dhl, Carrier::Gls],
    {
        Registry::new()
    }
}

} // verus!

//! Cache-aware tracking dispatch.
//!
//! One URL is resolved to a handler, served from the cache when policy and
//! entry age allow, and otherwise fetched afresh, with a single retry
//! without the postcode hint after an HTTP client error. The outbound HTTP
//! call itself is the caller's: dispatch hands out the pinned request URL
//! and is handed back the outcome, and the contracts owe each step — a
//! resolvable URL with extractable identifiers is served or fetched, never
//! failed outright, and a qualifying client error is retried exactly once.

use vstd::prelude::*;
use vstd::string::StringSliceAdditionalSpecFns;
use vstd::utf8::encode_utf8;

use crate::cache::{entry_views, fresh_enough, spec_insert_entries, spec_lookup, JsonCache};
use crate::errors::Error;
use crate::models::{Package, PackageStatus, TrackerContext};
use crate::settings::opt_view;
use crate::strutil::{ci_matches, matches_ci};
use crate::tracker::{spec_request_ok, spec_request_url, spec_resolve, Carrier, Registry};

verus! {

/// Run-wide result filters.
#[derive(Debug, Clone, Default)]
pub struct Filters {
    /// Either a new URL, or a fragment of an existing URL.
    pub url: Option<String>,
    pub sender: Option<String>,
    /// Postal carrier name fragment.
    pub carrier: Option<String>,
    pub recipient: Option<String>,
}

/// Container for settings and runtime flags of one run.
#[derive(Debug, Clone)]
pub struct Context {
    /// Max age (seconds) for cache entries to be reused.
    pub cache_seconds: u64,
    /// When false, neither lookups nor inserts touch the cache.
    pub use_cache: bool,
    pub filters: Filters,
    pub default_postcode: Option<String>,
    pub preferred_language: String,
}

impl Default for Context {
    /// English responses, no reuse window, cache enabled, no filters.
    fn default() -> (r: Context)
        ensures
            r.cache_seconds == 0,
            r.use_cache,
            r.default_postcode is None,
            r.preferred_language@ == "en"@,
    {
        Context {
            cache_seconds: 0,
            use_cache: true,
            filters: Filters { url: None, sender: None, carrier: None, recipient: None },
            default_postcode: None,
            preferred_language: "en".to_owned(),
        }
    }
}

/// One per-URL outcome of a batch.
#[derive(Debug)]
pub struct Job {
    pub url: String,
    pub result: Result<Package, Error>,
}

/// What one fetch attempt produced: a response body, an HTTP error
/// status, or no response at all.
#[derive(Debug)]
pub enum FetchOutcome {
    Body(String),
    HttpStatus(u16),
    NetworkError,
}

impl FetchOutcome {
    pub open spec fn view_of(self) -> (Option<Seq<char>>, Option<u16>) {
        match self {
            FetchOutcome::Body(s) => (Some(s@), None),
            FetchOutcome::HttpStatus(c) => (None, Some(c)),
            FetchOutcome::NetworkError => (None, None),
        }
    }

    /// A copy with the same content.
    pub fn duplicate(&self) -> (r: FetchOutcome)
        ensures
            r.view_of() == self.view_of(),
    {
        match self {
            FetchOutcome::Body(s) => FetchOutcome::Body(s.clone()),
            FetchOutcome::HttpStatus(c) => FetchOutcome::HttpStatus(*c),
            FetchOutcome::NetworkError => FetchOutcome::NetworkError,
        }
    }
}

/// The pending state of one URL's dispatch between fetch attempts.
#[derive(Debug)]
pub struct DispatchMachine {
    pub url: String,
    pub carrier: Carrier,
    pub ctx: TrackerContext,
    /// Set once the single postcode-less retry has been issued.
    pub retried: bool,
}

/// Where one dispatch stands: finished, or waiting for the caller to GET
/// the given request URL and report back.
#[derive(Debug)]
pub enum DispatchStep {
    Done(Job),
    Fetching(DispatchMachine, String),
}

/// An in-transit package's cache entry is reused only within the age
/// bound; a delivered package's entry is reused regardless of age. A
/// bound of zero admits only entries from the very same millisecond, so
/// an in-transit entry is in practice never reused then, while delivered
/// ones still are.
pub open spec fn spec_should_reuse(
    status: PackageStatus,
    created: int,
    now: int,
    cache_seconds: int,
) -> bool {
    status == PackageStatus::Delivered || fresh_enough(created, now, cache_seconds)
}

/// Decide reuse of a cached entry holding a package with the given status.
pub fn should_reuse(status: PackageStatus, created: i64, now: i64, cache_seconds: u64) -> (r: bool)
    ensures
        r == spec_should_reuse(status, created as int, now as int, cache_seconds as int),
{
    if status == PackageStatus::Delivered {
        true
    } else {
        (now as i128) - (created as i128) <= (cache_seconds as i128) * 1000
    }
}

/// Consult the cache for a reusable package: parse the newest entry for
/// the URL and reuse it when it is delivered, or still within the age
/// bound. An unparseable or stale entry, like a missing one, yields
/// nothing and the caller falls through to a fresh fetch; a newest entry
/// that parses and is still within the bound is owed its reuse.
pub fn check_cache(
    cache: &JsonCache,
    carrier: Carrier,
    url: &str,
    cache_seconds: u64,
    now: i64,
) -> (r: Option<Package>)
    ensures
        ({
            let es = entry_views(cache.spec_entries(url.spec_bytes()));
            &&& (es.len() == 0 ==> r is None)
            &&& (r matches Some(p) ==> p.channel@ == carrier.spec_channel() && exists|i: int|
                0 <= i < es.len() && (forall|j: int| 0 <= j < es.len() ==> es[j].1 <= es[i].1)
                    && carrier.spec_parsed_barcode(es[i].0) == Some(p.barcode@)
                    && spec_should_reuse(
                    p.spec_status(),
                    es[i].1,
                    now as int,
                    cache_seconds as int,
                ))
            &&& ((es.len() > 0 && forall|i: int|
                (0 <= i < es.len() && (forall|j: int| 0 <= j < es.len() ==> es[j].1 <= es[i].1))
                    ==> (#[trigger] carrier.spec_parse_ok(es[i].0) && (fresh_enough(
                    es[i].1,
                    now as int,
                    cache_seconds as int,
                ) || carrier.spec_parsed_delivered(es[i].0)))) ==> r is Some)
        }),
{
    let entry = match cache.get(url) {
        Some(e) => e,
        None => {
            return None;
        },
    };
    let package = match carrier.parse(entry.text.as_str()) {
        Ok(p) => p,
        Err(_) => {
            return None;
        },
    };
    if should_reuse(package.status(), entry.created, now, cache_seconds) {
        Some(package)
    } else {
        None
    }
}

/// Begin one URL's dispatch: resolve the handler, consult the cache when
/// the policy allows, and otherwise hand out the request URL to fetch. A
/// URL no handler recognizes, or one its handler cannot extract
/// identifiers from, is finished immediately with its error; a resolvable
/// URL with extractable identifiers is either served from the cache or
/// handed out to fetch, never failed outright.
pub fn start(registry: &Registry, url: &str, ctx: &Context, cache: &JsonCache, now: i64) -> (r:
    DispatchStep)
    ensures
        r matches DispatchStep::Done(j) ==> j.url@ == url@,
        // no handler recognizes the URL: that URL's own failure, and only
        // then
        spec_resolve(registry.handlers@, url@) is None ==> (r matches DispatchStep::Done(j)
            && j.result matches Err(Error::NoHandlerFound(s)) && s@ == url@),
        r matches DispatchStep::Done(j) ==> ((j.result matches Err(Error::NoHandlerFound(_)))
            ==> spec_resolve(registry.handlers@, url@) is None),
        // a pending fetch carries the resolved carrier, the run's hints
        // threaded into the machine, and the pinned request URL
        r matches DispatchStep::Fetching(m, req) ==> {
            &&& m.url@ == url@
            &&& !m.retried
            &&& spec_resolve(registry.handlers@, url@) == Some(m.carrier)
            &&& m.ctx.language@ == ctx.preferred_language@
            &&& opt_view(m.ctx.recipient_postcode) == opt_view(ctx.default_postcode)
            &&& spec_request_ok(m.carrier, url@, opt_view(ctx.default_postcode))
            &&& spec_request_url(
                m.carrier,
                url@,
                opt_view(ctx.default_postcode),
                ctx.preferred_language@,
                req@,
            )
        },
        // with a handler resolved, the only immediate outcomes are a reused
        // package or the identifier error; anything else must fetch
        spec_resolve(registry.handlers@, url@) matches Some(c) ==> (r matches DispatchStep::Done(
            j,
        ) ==> ((j.result matches Ok(p) && p.channel@ == c.spec_channel()) || (j.result
            matches Err(Error::UrlParseFailed(s, _)) && s@ == url@ && !spec_request_ok(
            c,
            url@,
            opt_view(ctx.default_postcode),
        )))),
        // an admissible newest entry is reused: when every newest entry
        // parses and is within the window or delivered, the cache answers
        spec_resolve(registry.handlers@, url@) matches Some(c) ==> ((ctx.use_cache && ({
            let es = entry_views(cache.spec_entries(url.spec_bytes()));
            es.len() > 0 && forall|i: int|
                (0 <= i < es.len() && (forall|j: int| 0 <= j < es.len() ==> es[j].1 <= es[i].1))
                    ==> (#[trigger] c.spec_parse_ok(es[i].0) && (fresh_enough(
                    es[i].1,
                    now as int,
                    ctx.cache_seconds as int,
                ) || c.spec_parsed_delivered(es[i].0)))
        })) ==> (r matches DispatchStep::Done(j) && j.result is Ok)),
        // a package comes only from an admissible reuse of the newest entry
        r matches DispatchStep::Done(j) ==> (j.result matches Ok(p) ==> ctx.use_cache && ({
            let es = entry_views(cache.spec_entries(url.spec_bytes()));
            exists|i: int|
                0 <= i < es.len() && (forall|k: int| 0 <= k < es.len() ==> es[k].1 <= es[i].1)
                    && spec_should_reuse(
                    p.spec_status(),
                    es[i].1,
                    now as int,
                    ctx.cache_seconds as int,
                )
        })),
{
    let carrier = match registry.get_handler(url) {
        Ok(c) => c,
        Err(e) => {
            return DispatchStep::Done(Job { url: url.to_owned(), result: Err(e) });
        },
    };
    if ctx.use_cache {
        match check_cache(cache, carrier, url, ctx.cache_seconds, now) {
            Some(p) => {
                return DispatchStep::Done(Job { url: url.to_owned(), result: Ok(p) });
            },
            None => {
            },
        }
    }
    let tctx = TrackerContext {
        recipient_postcode: match &ctx.default_postcode {
            Some(p) => Some(p.clone()),
            None => None,
        },
        language: ctx.preferred_language.clone(),
    };
    let machine = DispatchMachine { url: url.to_owned(), carrier, ctx: tctx, retried: false };
    match machine.carrier.request_url(url, &machine.ctx) {
        Ok(request) => DispatchStep::Fetching(machine, request),
        Err(e) => DispatchStep::Done(Job { url: url.to_owned(), result: Err(e) }),
    }
}

/// Feed one fetch outcome into a pending dispatch. A response body is
/// written to the cache (when the policy allows) and parsed. An HTTP
/// client error (4xx) with a postcode hint still set triggers exactly one
/// retry with the hint cleared; every other failure is terminal.
pub fn on_fetch_outcome(
    m: DispatchMachine,
    cache: &mut JsonCache,
    use_cache: bool,
    now: i64,
    outcome: FetchOutcome,
) -> (r: DispatchStep)
    requires
        old(cache).wf(),
    ensures
        final(cache).wf(),
        final(cache).max_entries == old(cache).max_entries,
        // only a body write touches the cache, and only under the policy
        match outcome {
            FetchOutcome::Body(text) => {
                if use_cache {
                    entry_views(final(cache).spec_entries(encode_utf8(m.url@)))
                        == spec_insert_entries(
                        entry_views(old(cache).spec_entries(encode_utf8(m.url@))),
                        (text@, now as int),
                        old(cache).max_entries,
                        old(cache).spec_has_key(encode_utf8(m.url@)),
                    ) && final(cache).modified && (forall|k: Seq<u8>|
                        k != encode_utf8(m.url@) ==> spec_lookup(final(cache).store@, k)
                            == spec_lookup(old(cache).store@, k))
                } else {
                    *final(cache) == *old(cache)
                }
            },
            _ => *final(cache) == *old(cache),
        },
        // a body is terminal, and the job carries exactly the carrier's
        // parse of that body: its package on a parseable payload, the
        // parse error otherwise, never a fetch or resolution error
        outcome matches FetchOutcome::Body(text) ==> (r matches DispatchStep::Done(j) && (j.result
            is Ok <==> m.carrier.spec_parse_ok(text@)) && (j.result matches Ok(p) ==> (
        m.carrier.spec_parsed_barcode(text@) == Some(p.barcode@) && p.channel@
            == m.carrier.spec_channel() && (p.spec_status() == PackageStatus::Delivered
            <==> m.carrier.spec_parsed_delivered(text@)))) && (j.result matches Err(e) ==> ((e
            matches Error::ParseFailed(_)) || (e matches Error::MissingField(f) && f@
            == "barcode"@)))),
        // the single retry: a client error with a postcode hint on a first
        // attempt clears the hint and fetches once more, or fails at once
        // with the identifier error when the postcode-less identifiers
        // cannot be extracted; the retry is owed, not merely permitted
        r matches DispatchStep::Fetching(m2, req) ==> (outcome matches FetchOutcome::HttpStatus(
            status,
        ) && 400 <= status < 500 && m.ctx.recipient_postcode is Some && !m.retried && m2.retried
            && m2.ctx.recipient_postcode is None && m2.url@ == m.url@ && m2.carrier == m.carrier
            && m2.ctx.language@ == m.ctx.language@ && spec_request_url(
            m.carrier,
            m.url@,
            None,
            m.ctx.language@,
            req@,
        )),
        outcome matches FetchOutcome::HttpStatus(status) ==> ((400 <= status < 500
            && m.ctx.recipient_postcode is Some && !m.retried) ==> (if spec_request_ok(
            m.carrier,
            m.url@,
            None,
        ) {
            r is Fetching
        } else {
            r matches DispatchStep::Done(j) && j.result matches Err(Error::UrlParseFailed(s, _))
                && s@ == m.url@
        })),
        outcome matches FetchOutcome::HttpStatus(status) ==> (!(400 <= status < 500
            && m.ctx.recipient_postcode is Some && !m.retried) ==> (r matches DispatchStep::Done(
            j,
        ) && j.result matches Err(Error::FetchFailed(Some(s2))) && s2 == status)),
        outcome matches FetchOutcome::NetworkError ==> (r matches DispatchStep::Done(j)
            && j.result matches Err(Error::FetchFailed(None))),
        r matches DispatchStep::Done(j) ==> j.url@ == m.url@ && !(j.result matches Err(
            Error::NoHandlerFound(_),
        )),
{
    match outcome {
        FetchOutcome::Body(text) => {
            if use_cache {
                cache.insert(m.url.as_str(), text.as_str(), now);
            }
            let result = m.carrier.parse(text.as_str());
            DispatchStep::Done(Job { url: m.url, result })
        },
        FetchOutcome::HttpStatus(status) => {
            let client_error = 400 <= status && status < 500;
            if client_error && m.ctx.recipient_postcode.is_some() && !m.retried {
                let ctx2 = m.ctx.without_postcode();
                let m2 = DispatchMachine {
                    url: m.url,
                    carrier: m.carrier,
                    ctx: ctx2,
                    retried: true,
                };
                match m2.carrier.request_url(m2.url.as_str(), &m2.ctx) {
                    Ok(request) => DispatchStep::Fetching(m2, request),
                    Err(e) => DispatchStep::Done(Job { url: m2.url, result: Err(e) }),
                }
            } else {
                DispatchStep::Done(
                    Job { url: m.url, result: Err(Error::FetchFailed(Some(status))) },
                )
            }
        },
        FetchOutcome::NetworkError => {
            DispatchStep::Done(Job { url: m.url, result: Err(Error::FetchFailed(None)) })
        },
    }
}

/// Run a whole batch against scripted fetch outcomes: every URL is
/// dispatched independently against the shared cache, consuming its own
/// outcome list (a missing outcome counts as no response). One URL's
/// failure never disturbs another's dispatch, and the batch yields exactly
/// one job per input URL, in order.
pub fn track_urls_with(
    registry: &Registry,
    urls: &Vec<String>,
    ctx: &Context,
    cache: &mut JsonCache,
    now: i64,
    outcomes: &Vec<Vec<FetchOutcome>>,
) -> (r: Vec<Job>)
    requires
        old(cache).wf(),
    ensures
        final(cache).wf(),
        r@.len() == urls@.len(),
        forall|i: int| 0 <= i < r@.len() ==> (#[trigger] r@[i].url)@ == urls@[i]@,
        // a URL no handler recognizes fails with its own error and leaves
        // every other URL's dispatch untouched; a recognized URL never
        // reports that failure, and succeeds only with its own carrier's
        // package
        forall|i: int|
            #![trigger r@[i]]
            0 <= i < r@.len() ==> (spec_resolve(registry.handlers@, urls@[i]@) is None <==> (
            r@[i].result matches Err(Error::NoHandlerFound(_)))),
        forall|i: int|
            #![trigger r@[i]]
            0 <= i < r@.len() ==> (spec_resolve(registry.handlers@, urls@[i]@) matches Some(c)
                ==> (r@[i].result matches Ok(p) ==> p.channel@ == c.spec_channel())),
{
    let mut jobs: Vec<Job> = Vec::new();
    let mut i: usize = 0;
    while i < urls.len()
        invariant
            i <= urls@.len(),
            cache.wf(),
            jobs@.len() == i,
            forall|k: int| 0 <= k < i ==> (#[trigger] jobs@[k].url)@ == urls@[k]@,
            forall|k: int|
                #![trigger jobs@[k]]
                0 <= k < i ==> (spec_resolve(registry.handlers@, urls@[k]@) is None <==> (
                jobs@[k].result matches Err(Error::NoHandlerFound(_)))),
            forall|k: int|
                #![trigger jobs@[k]]
                0 <= k < i ==> (spec_resolve(registry.handlers@, urls@[k]@) matches Some(c) ==> (
                jobs@[k].result matches Ok(p) ==> p.channel@ == c.spec_channel())),
        decreases urls@.len() - i,
    {
        let url = &urls[i];
        let mut step = start(registry, url.as_str(), ctx, cache, now);
        step = match step {
            DispatchStep::Fetching(m, _) => {
                let outcome = if i < outcomes.len() && outcomes[i].len() > 0 {
                    outcomes[i][0].duplicate()
                } else {
                    FetchOutcome::NetworkError
                };
                on_fetch_outcome(m, cache, ctx.use_cache, now, outcome)
            },
            done => done,
        };
        step = match step {
            DispatchStep::Fetching(m, _) => {
                let outcome = if i < outcomes.len() && outcomes[i].len() > 1 {
                    outcomes[i][1].duplicate()
                } else {
                    FetchOutcome::NetworkError
                };
                on_fetch_outcome(m, cache, ctx.use_cache, now, outcome)
            },
            done => done,
        };
        let job = match step {
            DispatchStep::Done(j) => j,
            DispatchStep::Fetching(m, _) => Job {
                url: m.url,
                result: Err(Error::FetchFailed(None)),
            },
        };
        jobs.push(job);
        i += 1;
    }
    jobs
}

/// A job passes the recipient filter: errors are kept; a package is kept
/// when its recipient is known and matches case-insensitively.
pub open spec fn keep_by_recipient(j: Job, q: Seq<char>) -> bool {
    match j.result {
        Err(_) => true,
        Ok(p) => match p.recipient {
            Some(r) => ci_matches(r@, q),
            None => false,
        },
    }
}

/// A job passes the sender filter: errors are kept; a package is kept when
/// its sender is known and matches case-insensitively.
pub open spec fn keep_by_sender(j: Job, q: Seq<char>) -> bool {
    match j.result {
        Err(_) => true,
        Ok(p) => match p.sender {
            Some(snd) => ci_matches(snd@, q),
            None => false,
        },
    }
}

/// A job passes the carrier filter: errors are kept; a package is kept
/// when its carrier name matches case-insensitively.
pub open spec fn keep_by_carrier(j: Job, q: Seq<char>) -> bool {
    match j.result {
        Err(_) => true,
        Ok(p) => ci_matches(p.channel@, q),
    }
}

/// A job passes every filter that is set.
pub open spec fn spec_keep_job(j: Job, f: Filters) -> bool {
    &&& match f.recipient {
        Some(q) => keep_by_recipient(j, q@),
        None => true,
    }
    &&& match f.sender {
        Some(q) => keep_by_sender(j, q@),
        None => true,
    }
    &&& match f.carrier {
        Some(q) => keep_by_carrier(j, q@),
        None => true,
    }
}

/// Does the job pass every filter that is set?
fn keep_job(j: &Job, f: &Filters) -> (r: bool)
    ensures
        r == spec_keep_job(*j, *f),
{
    if let Some(q) = &f.recipient {
        match &j.result {
            Err(_) => {
            },
            Ok(p) => match &p.recipient {
                Some(rec) => {
                    if !matches_ci(rec.as_str(), q.as_str()) {
                        return false;
                    }
                },
                None => {
                    return false;
                },
            },
        }
    }
    if let Some(q) = &f.sender {
        match &j.result {
            Err(_) => {
            },
            Ok(p) => match &p.sender {
                Some(snd) => {
                    if !matches_ci(snd.as_str(), q.as_str()) {
                        return false;
                    }
                },
                None => {
                    return false;
                },
            },
        }
    }
    if let Some(q) = &f.carrier {
        match &j.result {
            Err(_) => {
            },
            Ok(p) => {
                if !matches_ci(p.channel.as_str(), q.as_str()) {
                    return false;
                }
            },
        }
    }
    true
}

/// Keep the jobs that pass every filter that is set; failed jobs are
/// always kept, so a filter never hides an error.
pub fn filter_jobs(jobs: Vec<Job>, filters: &Filters) -> (r: Vec<Job>)
    ensures
        r@ == jobs@.filter(|j: Job| spec_keep_job(j, *filters)),
{
    let ghost orig = jobs@;
    let ghost pred = |j: Job| spec_keep_job(j, *filters);
    proof {
        crate::urls::lemma_filter_take_empty(orig.subrange(0, 0), pred);
    }
    let n = jobs.len();
    let mut rest = jobs;
    let mut out: Vec<Job> = Vec::new();
    let mut i: usize = 0;
    while rest.len() > 0
        invariant
            orig.len() == n,
            i + rest@.len() == orig.len(),
            i <= orig.len(),
            rest@ =~= orig.skip(i as int),
            pred == (|j: Job| spec_keep_job(j, *filters)),
            out@ == orig.subrange(0, i as int).filter(pred),
        decreases rest@.len(),
    {
        let j = rest.remove(0);
        proof {
            assert(j == orig[i as int]);
            assert(orig.subrange(0, i + 1).drop_last() =~= orig.subrange(0, i as int));
            assert(orig.subrange(0, i + 1).last() == orig[i as int]);
            crate::urls::lemma_filter_take_step(orig.subrange(0, i + 1), pred);
        }
        if keep_job(&j, filters) {
            out.push(j);
        }
        proof {
            assert(out@ =~= orig.subrange(0, i + 1).filter(pred));
            assert(rest@ =~= orig.skip(i + 1));
        }
        i += 1;
    }
    proof {
        assert(orig.subrange(0, orig.len() as int) =~= orig);
    }
    out
}

} // verus!

use packtrack::cache::JsonCache;
use packtrack::dispatch::{
    check_cache, filter_jobs, on_fetch_outcome, start, track_urls_with, Context, DispatchMachine,
    DispatchStep, FetchOutcome, Filters, Job,
};
use packtrack::errors::Error;
use packtrack::models::{Package, TrackerContext};
use packtrack::tracker::{Carrier, Registry};

const GLS_URL: &str = "https://www.gls-info.nl/tracking?parcelNo=57250013150034&zipcode=1234AB";
const GLS_IN_TRANSIT: &str = "{\"parcelNo\": \"57250013150034\"}";
const GLS_DELIVERED: &str = "{\"parcelNo\": \"57250013150034\", \"deliveryScanInfo\": {\"dateTime\": \"2024-11-22T08:28:43\", \"isDelivered\": true}}";

fn ctx_with_cache(cache_seconds: u64) -> Context {
    let mut ctx = Context::default();
    ctx.cache_seconds = cache_seconds;
    ctx
}

#[test]
fn test_handler_resolution_order() {
    // both recognizers match this URL; the first registration wins
    let url = "https://www.gls.dhl.example/tracking";
    let mut first_dhl = Registry::empty();
    first_dhl.register(Carrier::Dhl);
    first_dhl.register(Carrier::Gls);
    assert_eq!(first_dhl.get_handler(url).unwrap(), Carrier::Dhl);

    let mut first_gls = Registry::empty();
    first_gls.register(Carrier::Gls);
    first_gls.register(Carrier::Dhl);
    assert_eq!(first_gls.get_handler(url).unwrap(), Carrier::Gls);
}

#[test]
fn test_handler_not_found() {
    let registry = Registry::new();
    let err = registry.get_handler("https://example.com/x").err().unwrap();
    assert_eq!(err, Error::NoHandlerFound("https://example.com/x".into()));
}

#[test]
fn test_default_registry_order() {
    // a URL that PostNL and DHL both recognize resolves to PostNL
    let registry = Registry::new();
    let url = "https://postnl.dhl.example/track-and-trace/X";
    assert_eq!(registry.get_handler(url).unwrap(), Carrier::PostNL);
}

#[test]
fn test_delivered_always_reused() {
    // entry is far older than the reuse window, but the package is delivered
    let now: i64 = 2_000_000_000_000;
    let mut cache = JsonCache::default();
    cache.insert(GLS_URL, GLS_DELIVERED, now - 1_000_000_000);
    let package = check_cache(&cache, Carrier::Gls, GLS_URL, 30, now).unwrap();
    assert_eq!(package.barcode, "57250013150034");
}

#[test]
fn test_in_transit_reused_only_within_age_bound() {
    let now: i64 = 2_000_000_000_000;
    let mut cache = JsonCache::default();
    // entry is 40 seconds old
    cache.insert(GLS_URL, GLS_IN_TRANSIT, now - 40_000);

    // cacheSeconds = 30: not reused
    assert!(check_cache(&cache, Carrier::Gls, GLS_URL, 30, now).is_none());
    // cacheSeconds = 50: reused
    assert!(check_cache(&cache, Carrier::Gls, GLS_URL, 50, now).is_some());
}

#[test]
fn test_poisoned_entry_not_reused() {
    let now: i64 = 2_000_000_000_000;
    let mut cache = JsonCache::default();
    cache.insert(GLS_URL, "garbage, not json", now);
    assert!(check_cache(&cache, Carrier::Gls, GLS_URL, 1000, now).is_none());
}

fn machine(postcode: Option<&str>, retried: bool) -> DispatchMachine {
    DispatchMachine {
        url: GLS_URL.to_owned(),
        carrier: Carrier::Gls,
        ctx: TrackerContext {
            recipient_postcode: postcode.map(|p| p.to_owned()),
            language: "en".to_owned(),
        },
        retried,
    }
}

#[test]
fn test_retry_on_404_with_postcode() {
    let now: i64 = 2_000_000_000_000;
    let mut cache = JsonCache::default();
    let step = on_fetch_outcome(
        machine(Some("1234AB"), false),
        &mut cache,
        true,
        now,
        FetchOutcome::HttpStatus(404),
    );
    match step {
        DispatchStep::Fetching(m, _) => {
            assert!(m.retried);
            assert_eq!(m.ctx.recipient_postcode, None);
        }
        DispatchStep::Done(_) => panic!("expected a retry"),
    }
}

#[test]
fn test_no_retry_on_500() {
    let now: i64 = 2_000_000_000_000;
    let mut cache = JsonCache::default();
    let step = on_fetch_outcome(
        machine(Some("1234AB"), false),
        &mut cache,
        true,
        now,
        FetchOutcome::HttpStatus(500),
    );
    match step {
        DispatchStep::Done(job) => {
            assert_eq!(job.result.err().unwrap(), Error::FetchFailed(Some(500)));
        }
        DispatchStep::Fetching(_, _) => panic!("500 must not retry"),
    }
}

#[test]
fn test_no_retry_on_404_without_postcode() {
    let now: i64 = 2_000_000_000_000;
    let mut cache = JsonCache::default();
    let step = on_fetch_outcome(
        machine(None, false),
        &mut cache,
        true,
        now,
        FetchOutcome::HttpStatus(404),
    );
    match step {
        DispatchStep::Done(job) => {
            assert_eq!(job.result.err().unwrap(), Error::FetchFailed(Some(404)));
        }
        DispatchStep::Fetching(_, _) => panic!("404 without postcode must not retry"),
    }
}

#[test]
fn test_at_most_one_retry() {
    let now: i64 = 2_000_000_000_000;
    let mut cache = JsonCache::default();
    // a second client error on the retried attempt is terminal
    let step = on_fetch_outcome(
        machine(Some("1234AB"), true),
        &mut cache,
        true,
        now,
        FetchOutcome::HttpStatus(404),
    );
    assert!(matches!(step, DispatchStep::Done(_)));
}

#[test]
fn test_fetched_body_is_cached_before_parse() {
    let now: i64 = 2_000_000_000_000;
    let mut cache = JsonCache::default();
    // an unparseable body still lands in the cache
    let step = on_fetch_outcome(
        machine(None, false),
        &mut cache,
        true,
        now,
        FetchOutcome::Body("broken body".to_owned()),
    );
    match step {
        DispatchStep::Done(job) => assert!(job.result.is_err()),
        DispatchStep::Fetching(_, _) => panic!("a body is terminal"),
    }
    assert_eq!(cache.get_texts(GLS_URL), vec!["broken body"]);
    assert!(cache.modified);
}

#[test]
fn test_no_cache_write_when_disabled() {
    let now: i64 = 2_000_000_000_000;
    let mut cache = JsonCache::default();
    on_fetch_outcome(
        machine(None, false),
        &mut cache,
        false,
        now,
        FetchOutcome::Body(GLS_IN_TRANSIT.to_owned()),
    );
    assert!(!cache.modified);
    assert!(cache.get_texts(GLS_URL).is_empty());
}

#[test]
fn test_start_uses_cache() {
    let now: i64 = 2_000_000_000_000;
    let mut cache = JsonCache::default();
    cache.insert(GLS_URL, GLS_DELIVERED, now - 1_000_000);
    let registry = Registry::new();
    let step = start(&registry, GLS_URL, &ctx_with_cache(30), &cache, now);
    match step {
        DispatchStep::Done(job) => {
            assert_eq!(job.result.unwrap().barcode, "57250013150034");
        }
        DispatchStep::Fetching(_, _) => panic!("expected a cache hit"),
    }
}

#[test]
fn test_start_without_cache_fetches() {
    let now: i64 = 2_000_000_000_000;
    let mut cache = JsonCache::default();
    cache.insert(GLS_URL, GLS_DELIVERED, now);
    let registry = Registry::new();
    let mut ctx = ctx_with_cache(1000);
    ctx.use_cache = false;
    let step = start(&registry, GLS_URL, &ctx, &cache, now);
    match step {
        DispatchStep::Fetching(m, request) => {
            assert!(!m.retried);
            assert_eq!(
                request,
                "https://apm.gls.nl/api/tracktrace/v1/57250013150034/postalcode/1234AB/details/en-GB"
            );
        }
        DispatchStep::Done(_) => panic!("caching disabled must fetch"),
    }
}

#[test]
fn test_batch_independence() {
    let now: i64 = 2_000_000_000_000;
    let mut cache = JsonCache::default();
    let registry = Registry::new();
    let urls: Vec<String> = vec![
        "https://example.com/unknown".to_owned(), // no handler
        GLS_URL.to_owned(),
    ];
    let outcomes: Vec<Vec<FetchOutcome>> = vec![
        vec![],
        vec![FetchOutcome::Body(GLS_DELIVERED.to_owned())],
    ];
    let jobs = track_urls_with(
        &registry,
        &urls,
        &ctx_with_cache(30),
        &mut cache,
        now,
        &outcomes,
    );
    // one job per input URL, in order; the failure does not disturb the rest
    assert_eq!(jobs.len(), 2);
    assert_eq!(jobs[0].url, "https://example.com/unknown");
    assert_eq!(
        jobs[0].result.as_ref().err().unwrap(),
        &Error::NoHandlerFound("https://example.com/unknown".into())
    );
    assert_eq!(jobs[1].url, GLS_URL);
    assert_eq!(jobs[1].result.as_ref().unwrap().barcode, "57250013150034");
}

fn job_with(channel: &str, sender: Option<&str>, recipient: Option<&str>) -> Job {
    Job {
        url: "u".to_owned(),
        result: Ok(Package {
            barcode: "b".to_owned(),
            channel: channel.to_owned(),
            sender: sender.map(|s| s.to_owned()),
            recipient: recipient.map(|s| s.to_owned()),
            eta: None,
            eta_window: None,
            delivered: None,
            events: vec![],
        }),
    }
}

#[test]
fn test_filter_jobs_by_recipient() {
    let jobs = vec![
        job_with("GLS", None, Some("Alice Smith")),
        job_with("GLS", None, Some("Bob Jones")),
        job_with("GLS", None, None),
        Job { url: "bad".to_owned(), result: Err(Error::FetchFailed(None)) },
    ];
    let mut filters = Filters::default();
    filters.recipient = Some("alice".to_owned());
    let kept = filter_jobs(jobs, &filters);
    // the matching package and the error survive
    assert_eq!(kept.len(), 2);
    assert!(kept[0].result.as_ref().unwrap().recipient.as_deref() == Some("Alice Smith"));
    assert!(kept[1].result.is_err());
}

#[test]
fn test_filter_jobs_by_carrier() {
    let jobs = vec![job_with("GLS", None, None), job_with("DHL", None, None)];
    let mut filters = Filters::default();
    filters.carrier = Some("dhl".to_owned());
    let kept = filter_jobs(jobs, &filters);
    assert_eq!(kept.len(), 1);
    assert_eq!(kept[0].result.as_ref().unwrap().channel, "DHL");
}

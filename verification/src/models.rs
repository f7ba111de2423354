//! Shared data model: packages, delivery events and per-run tracking hints.
//!
//! Timestamps are UTC instants measured in milliseconds since the Unix epoch.

use vstd::prelude::*;

verus! {

/// Delivery state of a package; `Delivered` exactly when a delivery
/// timestamp is present.
#[derive(Debug, Clone, Copy, PartialEq, Eq, Hash, Structural)]
pub enum PackageStatus {
    Delivered,
    InTransit,
}

/// A delivery window, both ends in epoch milliseconds.
#[derive(Debug, Clone, Copy, PartialEq, Eq, Structural)]
pub struct TimeWindow {
    pub start: i64,
    pub end: i64,
}

/// One carrier-reported event.
#[derive(Debug, Clone, PartialEq, Eq)]
pub struct Event {
    /// Epoch milliseconds.
    pub timestamp: i64,
    pub text: String,
}

/// The normalized result of one fetch-and-parse cycle.
#[derive(Debug, Clone)]
pub struct Package {
    pub barcode: String,
    /// Carrier name.
    pub channel: String,
    pub sender: Option<String>,
    pub recipient: Option<String>,
    /// Expected time of arrival, epoch milliseconds.
    pub eta: Option<i64>,
    pub eta_window: Option<TimeWindow>,
    /// Delivery time, epoch milliseconds; presence defines the terminal state.
    pub delivered: Option<i64>,
    /// Carrier-reported order, not necessarily chronological.
    pub events: Vec<Event>,
}

impl Package {
    /// `Delivered` if and only if a delivery timestamp is present.
    pub open spec fn spec_status(self) -> PackageStatus {
        if self.delivered is Some {
            PackageStatus::Delivered
        } else {
            PackageStatus::InTransit
        }
    }

    pub fn status(&self) -> (r: PackageStatus)
        ensures
            r == self.spec_status(),
    {
        match self.delivered {
            Some(_) => PackageStatus::Delivered,
            None => PackageStatus::InTransit,
        }
    }
}

/// Per-run, read-only hints threaded through every fetch.
#[derive(Debug, Clone)]
pub struct TrackerContext {
    /// Postcode of the recipient, sometimes necessary for full data.
    pub recipient_postcode: Option<String>,
    /// Preferred language, usually passed as a query parameter.
    pub language: String,
}

impl TrackerContext {
    /// The same context with the postcode hint cleared.
    pub fn without_postcode(&self) -> (r: TrackerContext)
        ensures
            r.recipient_postcode is None,
            r.language@ == self.language@,
    {
        TrackerContext { recipient_postcode: None, language: self.language.clone() }
    }
}

/// Cache policy for one run.
#[derive(Debug, Clone, Copy)]
pub struct CacheContext {
    /// Entries older than this many seconds are not reused for packages
    /// still in transit.
    pub max_age_s: u64,
    /// When false, neither lookups nor inserts touch the cache.
    pub use_cache: bool,
}

} // verus!

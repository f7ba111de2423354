//! Resolves shipment-tracking URLs into a normalized package status by
//! dispatching to carrier-specific handlers, with a time- and size-bounded
//! response cache shared across concurrent lookups.
//!
//! The heart of the crate is `dispatch`: it resolves a handler from the
//! ordered `tracker` registry, consults the `cache` (reusing a delivered
//! package's entry at any age and an in-transit one only within the
//! configured window), hands the request URL out to the caller to fetch,
//! retries once without the postcode hint after an HTTP client error, and
//! parses carrier payloads through the `json` model. `cachefile` persists
//! the store so that a load re-encodes byte for byte, `urls` and
//! `settings` carry the URL list and run configuration, and the caller
//! supplies nothing but I/O.

pub mod cache;
pub mod cachefile;
pub mod dhl;
pub mod dispatch;
pub mod errors;
pub mod gls;
pub mod json;
pub mod models;
pub mod postnl;
pub mod settings;
pub mod strutil;
pub mod time;
pub mod tracker;
pub mod urls;

pub mod browse;
pub mod cache;
pub mod config;
pub mod enrich;
pub mod index;
pub mod keys;
pub mod meta;
pub mod parse;
pub mod player;
pub mod scan;
pub mod paths;
pub mod search;
pub mod session;
pub mod status;
pub mod text;
pub mod theme;
pub mod tmdb;

use vstd::prelude::*;

verus! {

/// Seconds since the Unix epoch. The only clock in the app. Nothing is promised of the
/// reading: it is the system clock's, 0 when the clock is before the epoch.
#[verifier::external_body]
pub fn now() -> u64 {
    std::time::SystemTime::now().duration_since(std::time::UNIX_EPOCH).map(|d| d.as_secs()).unwrap_or(0)
}

} // verus!

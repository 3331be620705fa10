//! SignalHive: maintenance-pressure signals for repositories.
//!
//! The library holds the decision logic of the scanner: repository list
//! normalisation, authentication checks, scan signatures, issue scoring,
//! recurring-bug clustering, duplicate pairs, trend comparison and report rendering.
use vstd::prelude::*;

pub mod analysis;
pub mod auth;
pub mod clock;
pub mod clusters;
pub mod discovery;
pub mod duplicates;
pub mod issues;
pub mod models;
pub mod ranking;
pub mod report;
pub mod repo_lists;
pub mod scanning;
pub mod scans;
pub mod schedules;
pub mod schema;
pub mod scoring;
pub mod stored;
pub mod terms;
pub mod text;
pub mod trend;

verus! {

} // verus!

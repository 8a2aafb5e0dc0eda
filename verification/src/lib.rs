//! Verified core of an F1 calendar-and-results tool: scraping typed records
//! out of results tables, an incremental round cache with a JSON codec, and
//! the schedule/session model, with contracts proved by Verus. Network and
//! file access stay outside; this crate computes, parses, plans and renders.

pub mod codec;
pub mod error;
pub mod html;
pub mod json;
pub mod quali;
pub mod results;
pub mod schedule;
pub mod standings;
pub mod text;
pub mod utils;

use vstd::prelude::*;

verus! {

} // verus!

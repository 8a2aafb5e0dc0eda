//! Plain data holders shared by the standings and results components:
//! one ranked table row for standings and race results, and one qualifying
//! row with its optional session times.

use vstd::prelude::*;

verus! {


/// One ranked row of a driver or team standings table.
#[derive(Debug, Clone, PartialEq, Eq)]
pub struct PositionInfo {
    pub position: usize,
    pub name: String,
    pub points: usize,
}

/// The mathematical shape of a [`PositionInfo`].
pub struct PositionInfoV {
    pub position: int,
    pub name: Seq<char>,
    pub points: int,
}

impl View for PositionInfo {
    type V = PositionInfoV;

    open spec fn view(&self) -> PositionInfoV {
        PositionInfoV { position: self.position as int, name: self.name@, points: self.points as int }
    }
}

/// One row of a qualifying classification; lap times stay free-form text and
/// may be absent for drivers eliminated early.
#[derive(Debug, Clone, PartialEq, Eq)]
pub struct QualiPositionInfo {
    pub position: usize,
    pub name: String,
    pub q1: Option<String>,
    pub q2: Option<String>,
    pub q3: Option<String>,
}

/// The mathematical shape of a [`QualiPositionInfo`].
pub struct QualiPositionInfoV {
    pub position: int,
    pub name: Seq<char>,
    pub q1: Option<Seq<char>>,
    pub q2: Option<Seq<char>>,
    pub q3: Option<Seq<char>>,
}

/// The view of an optional owned string.
pub open spec fn opt_view(o: Option<String>) -> Option<Seq<char>> {
    match o {
        Some(s) => Some(s@),
        None => None,
    }
}

impl View for QualiPositionInfo {
    type V = QualiPositionInfoV;

    open spec fn view(&self) -> QualiPositionInfoV {
        QualiPositionInfoV {
            position: self.position as int,
            name: self.name@,
            q1: opt_view(self.q1),
            q2: opt_view(self.q2),
            q3: opt_view(self.q3),
        }
    }
}

/// The views of a sequence of standings rows.
pub open spec fn position_rows_view(v: Seq<PositionInfo>) -> Seq<PositionInfoV> {
    v.map_values(|p: PositionInfo| p@)
}

/// The views of a sequence of qualifying rows.
pub open spec fn quali_rows_view(v: Seq<QualiPositionInfo>) -> Seq<QualiPositionInfoV> {
    v.map_values(|p: QualiPositionInfo| p@)
}

/// Whether a fetch must go to the network: always under a forced pull,
/// and otherwise exactly when no cache entry exists. With the cache
/// present and no force, no network fetch happens.
pub fn fetch_decision(cache_exists: bool, force_pull: bool) -> (r: bool)
    ensures
        r == (force_pull || !cache_exists),
{
    force_pull || !cache_exists
}

} // verus!

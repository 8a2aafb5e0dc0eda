//! The error taxonomy of the library.
//!
//! Transport and file-system failures happen outside the verified core and
//! are mapped into [`Error`] by the surrounding program; everything the
//! verified code itself reports is one of the parse- or lookup-shaped
//! variants below.

use vstd::prelude::*;

verus! {

/// What can go wrong while fetching, decoding or parsing results data.
#[derive(Clone, Copy, Debug, PartialEq, Eq, Structural)]
pub enum Error {
    /// A file read or write failed (reported by the unverified shell).
    IO,
    /// An HTTP transfer failed (reported by the unverified shell).
    Network,
    /// A cached or fetched JSON document does not decode.
    Decode,
    /// A numeric table cell does not parse as a non-negative integer.
    ParseInt,
    /// A CSS selector failed to compile: a programmer error, not input-dependent.
    Scraper,
    /// A driver-standings table row misses an expected cell or element.
    ParseDriverInfo,
    /// A team-standings table row misses an expected cell or element.
    ParseTeamInfo,
    /// A results or qualifying table misses an expected cell or element.
    ParseRaceResults,
    /// A fetch succeeded but yielded no completed rounds at all.
    NoResults,
    /// A caller-supplied argument (such as a round number) is out of range.
    InvalidArgs,
}

impl Error {
    /// A human-readable message, stable per variant.
    pub fn describe(&self) -> (r: String)
        ensures
            r@ == self.spec_describe(),
    {
        match self {
            Error::IO => "File access failed".to_owned(),
            Error::Network => "Network transfer failed".to_owned(),
            Error::Decode => "JSON decoding failed".to_owned(),
            Error::ParseInt => "Numeric cell parsing failed".to_owned(),
            Error::Scraper => "HTML parsing failed".to_owned(),
            Error::ParseDriverInfo => "Driver table row parsing failed".to_owned(),
            Error::ParseTeamInfo => "Team table row parsing failed".to_owned(),
            Error::ParseRaceResults => "Race results table parsing failed".to_owned(),
            Error::NoResults => {
                "There are no results for any GP, yet. Try `f1gp pull` to get new data".to_owned()
            },
            Error::InvalidArgs => "Invalid arguments provided".to_owned(),
        }
    }

    /// The message of each variant, as a sequence of characters.
    pub open spec fn spec_describe(&self) -> Seq<char> {
        match self {
            Error::IO => "File access failed"@,
            Error::Network => "Network transfer failed"@,
            Error::Decode => "JSON decoding failed"@,
            Error::ParseInt => "Numeric cell parsing failed"@,
            Error::Scraper => "HTML parsing failed"@,
            Error::ParseDriverInfo => "Driver table row parsing failed"@,
            Error::ParseTeamInfo => "Team table row parsing failed"@,
            Error::ParseRaceResults => "Race results table parsing failed"@,
            Error::NoResults => "There are no results for any GP, yet. Try `f1gp pull` to get new data"@,
            Error::InvalidArgs => "Invalid arguments provided"@,
        }
    }
}

} // verus!

//! Soundings, their pairwise matches, and the groups of matches.
//!
//! - `geo`: the soundings of one instrument.
//! - `record`, `matches`, `order`, `padding`: match records, the full set of
//!   matches, its canonical order and its stored form.
//! - `matcher`: finding the matches.
//! - `groups`, `idset`: forming and summarising the groups.
//! - `partition`, `tables`: what holds of the groups and of their tables.

pub mod geo;
pub mod groups;
pub mod idset;
pub mod matcher;
pub mod matches;
pub mod order;
pub mod padding;
pub mod partition;
pub mod record;
pub mod tables;

pub use geo::OcoGeo;
pub use groups::identify_groups_from_matched_soundings;
pub use groups::GroupSummary;
pub use groups::OcoMatchGroups;
pub use matcher::match_oco3_to_oco2_parallel;
pub use matches::MatchesGroup;
pub use matches::OcoMatches;
pub use record::Match2to3;
pub use record::MatchView;

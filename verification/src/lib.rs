//! Matching of satellite soundings between two instruments, and grouping of the
//! matches into clusters of mutually coincident soundings.
//!
//! A sounding is a point observation with a place and a time. The matcher
//! compares every sounding of the first instrument (OCO-2) with every sounding
//! of the second (OCO-3) and records which pairs are close enough in space and
//! time. The grouper then joins match records that share an OCO-3 sounding
//! into groups.
//!
//! All quantities are integers: times in milliseconds, longitudes and
//! latitudes in millionths of a degree, distances in metres. The distance
//! between two soundings is not computed here; the matcher receives it.
//!
//! Every function carries a contract that is checked by Verus. The few
//! operations of other crates that the library relies on are declared in
//! `column` (arrays of `ndarray`) and in `utils` (a calendar check of
//! `chrono`); their contracts are stated, not proved.

pub mod column;
pub mod config;
pub mod error;
pub mod oco;
pub mod utils;

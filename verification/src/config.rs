//! The description of a matchup run, and the thresholds that follow from it.

use vstd::prelude::*;

verus! {

/// Least time between two soundings of one instrument that are taken for a
/// crossing of its own track: 2787 s, about half an orbit, in milliseconds.
pub const MIN_SELF_CROSS_DELTA_TIME_MS: i64 = 2_787_000;

/// The minimum time difference that excludes nothing: -0.1 s, in milliseconds.
pub const NO_MIN_DELTA_TIME_MS: i64 = -100;

/// Greatest time between two matched soundings: 12 h, in milliseconds.
pub const MAX_DELTA_TIME_MS: i64 = 43_200_000;

/// Greatest distance between two matched soundings: 100 km, in metres.
pub const MAX_DISTANCE_M: u32 = 100_000;

/// One matchup: an OCO-2 file, the OCO-3 files to match it with, and where
/// the result goes.
#[derive(Debug)]
pub struct RunOneArgs {
    /// Path of the output file that receives the groups of matched soundings.
    pub output_file: String,
    /// Path of the OCO-2 lite file.
    pub oco2_lite_file: String,
    /// Paths of the OCO-3 lite files; at least one.
    pub oco3_lite_files: Vec<String>,
    /// Use only soundings of good quality.
    pub flag0_only: bool,
    /// Look for crossings of the OCO-3 track with itself, rather than for
    /// crossings of OCO-2 and OCO-3.
    pub oco3_self_cross: bool,
    /// Where to save the full set of matches, if at all.
    pub save_full_matches_as: Option<String>,
    /// A file of matches saved earlier, to be read in place of matching anew.
    pub read_full_matches: Option<String>,
}

/// Several matchups that run as one batch.
#[derive(Debug)]
pub struct RunMultiConfig {
    pub matchups: Vec<RunOneArgs>,
}

/// Where the batch is described.
#[derive(Debug)]
pub struct RunMultiArgs {
    /// Path of the configuration file that lists the matchups.
    pub config_file: String,
}

/// Where the matches of a run come from.
#[derive(Debug)]
pub enum MatchSource {
    /// They are read from the file of this path.
    Stored(String),
    /// They are computed from the lite files, and saved to the given path
    /// where there is one.
    Computed { save_as: Option<String> },
}

/// The minimum time difference of a run: that of the self-crossing search
/// where it is asked for, else the one that excludes nothing.
pub open spec fn spec_min_delta_time(oco3_self_cross: bool) -> i64 {
    if oco3_self_cross {
        MIN_SELF_CROSS_DELTA_TIME_MS
    } else {
        NO_MIN_DELTA_TIME_MS
    }
}

/// The minimum time difference of a run, in milliseconds.
pub fn min_delta_time(oco3_self_cross: bool) -> (min_dt: i64)
    ensures
        min_dt == spec_min_delta_time(oco3_self_cross),
{
    if oco3_self_cross {
        MIN_SELF_CROSS_DELTA_TIME_MS
    } else {
        NO_MIN_DELTA_TIME_MS
    }
}

impl RunOneArgs {
    /// Where the matches of this run come from: a file of matches saved
    /// earlier has precedence over matching anew.
    pub open spec fn spec_match_source(&self) -> MatchSource {
        match self.read_full_matches {
            Some(path) => MatchSource::Stored(path),
            None => MatchSource::Computed { save_as: self.save_full_matches_as },
        }
    }

    /// Where the matches of this run come from.
    pub fn match_source(&self) -> (source: MatchSource)
        ensures
            source == self.spec_match_source(),
    {
        match &self.read_full_matches {
            Some(path) => MatchSource::Stored(path.clone()),
            None => match &self.save_full_matches_as {
                Some(path) => MatchSource::Computed { save_as: Some(path.clone()) },
                None => MatchSource::Computed { save_as: None },
            },
        }
    }

    /// The minimum time difference of this run, in milliseconds.
    pub fn min_delta_time(&self) -> (min_dt: i64)
        ensures
            min_dt == spec_min_delta_time(self.oco3_self_cross),
    {
        min_delta_time(self.oco3_self_cross)
    }
}

} // verus!

//! One match record: a sounding of the first instrument together with all the
//! soundings of the second instrument that coincide with it.

use vstd::prelude::*;

verus! {

/// A sounding of the first instrument (OCO-2) and the soundings of the second
/// (OCO-3) that were found close to it in space and time.
///
/// The five lists describe the matched OCO-3 soundings, one entry per
/// sounding. A record is *consistent* when the five lists have one length.
/// Distances are in metres and time differences in milliseconds.
#[derive(Debug)]
pub struct Match2to3 {
    /// Index of the file that the OCO-2 sounding came from.
    pub oco2_file_index: u8,
    /// Row of the OCO-2 sounding among the soundings of its instrument.
    pub oco2_sounding_index: u64,
    /// Identifier of the OCO-2 sounding.
    pub oco2_sounding_id: u64,
    /// For each matched OCO-3 sounding, the index of its file.
    pub oco3_file_indices: Vec<u8>,
    /// For each matched OCO-3 sounding, its row.
    pub oco3_sounding_indices: Vec<u64>,
    /// For each matched OCO-3 sounding, its identifier.
    pub oco3_sounding_ids: Vec<u64>,
    /// For each matched OCO-3 sounding, its distance from the OCO-2 sounding.
    pub distance_m: Vec<u32>,
    /// For each matched OCO-3 sounding, the OCO-2 time minus the OCO-3 time.
    pub time_diff_ms: Vec<i64>,
}

/// The mathematical content of a [`Match2to3`].
pub struct MatchView {
    pub oco2_file_index: u8,
    pub oco2_sounding_index: u64,
    pub oco2_sounding_id: u64,
    pub oco3_file_indices: Seq<u8>,
    pub oco3_sounding_indices: Seq<u64>,
    pub oco3_sounding_ids: Seq<u64>,
    pub distance_m: Seq<u32>,
    pub time_diff_ms: Seq<i64>,
}

impl MatchView {
    /// The five lists have one length.
    pub open spec fn consistent(self) -> bool {
        &&& self.oco3_file_indices.len() == self.oco3_sounding_ids.len()
        &&& self.oco3_sounding_indices.len() == self.oco3_sounding_ids.len()
        &&& self.distance_m.len() == self.oco3_sounding_ids.len()
        &&& self.time_diff_ms.len() == self.oco3_sounding_ids.len()
    }

    /// The number of matched OCO-3 soundings, counted by their identifiers.
    pub open spec fn fanout(self) -> nat {
        self.oco3_sounding_ids.len()
    }
}

impl View for Match2to3 {
    type V = MatchView;

    open spec fn view(&self) -> MatchView {
        MatchView {
            oco2_file_index: self.oco2_file_index,
            oco2_sounding_index: self.oco2_sounding_index,
            oco2_sounding_id: self.oco2_sounding_id,
            oco3_file_indices: self.oco3_file_indices@,
            oco3_sounding_indices: self.oco3_sounding_indices@,
            oco3_sounding_ids: self.oco3_sounding_ids@,
            distance_m: self.distance_m@,
            time_diff_ms: self.time_diff_ms@,
        }
    }
}

/// The contents of a list of records.
pub open spec fn record_views(records: Seq<Match2to3>) -> Seq<MatchView> {
    records.map_values(|m: Match2to3| m@)
}

impl Match2to3 {
    /// A record for the given OCO-2 sounding with no matches yet.
    pub fn new(oco2_file_index: u8, oco2_sounding_index: u64, oco2_sounding_id: u64) -> (m: Match2to3)
        ensures
            m@ == (MatchView {
                oco2_file_index,
                oco2_sounding_index,
                oco2_sounding_id,
                oco3_file_indices: Seq::empty(),
                oco3_sounding_indices: Seq::empty(),
                oco3_sounding_ids: Seq::empty(),
                distance_m: Seq::empty(),
                time_diff_ms: Seq::empty(),
            }),
    {
        Match2to3 {
            oco2_file_index,
            oco2_sounding_index,
            oco2_sounding_id,
            oco3_file_indices: Vec::new(),
            oco3_sounding_indices: Vec::new(),
            oco3_sounding_ids: Vec::new(),
            distance_m: Vec::new(),
            time_diff_ms: Vec::new(),
        }
    }

    /// Appends one matched OCO-3 sounding to the record.
    pub fn add_oco3_match(
        &mut self,
        file_idx_oco3: u8,
        idx_oco3: u64,
        sid_oco3: u64,
        dist_m: u32,
        dt_ms: i64,
    )
        ensures
            final(self)@ == (MatchView {
                oco3_file_indices: old(self)@.oco3_file_indices.push(file_idx_oco3),
                oco3_sounding_indices: old(self)@.oco3_sounding_indices.push(idx_oco3),
                oco3_sounding_ids: old(self)@.oco3_sounding_ids.push(sid_oco3),
                distance_m: old(self)@.distance_m.push(dist_m),
                time_diff_ms: old(self)@.time_diff_ms.push(dt_ms),
                ..old(self)@
            }),
    {
        self.oco3_file_indices.push(file_idx_oco3);
        self.oco3_sounding_indices.push(idx_oco3);
        self.oco3_sounding_ids.push(sid_oco3);
        self.distance_m.push(dist_m);
        self.time_diff_ms.push(dt_ms);
    }

    /// Whether the record holds no matched OCO-3 sounding.
    pub fn is_empty(&self) -> (b: bool)
        ensures
            b == (self@.fanout() == 0),
    {
        self.oco3_sounding_ids.len() == 0
    }
}

} // verus!

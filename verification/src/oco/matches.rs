//! The full set of pairwise matches between two instruments, and the form in
//! which it is stored.

use vstd::prelude::*;
use crate::error::MatchupError;
use crate::oco::order::sort_by_sounding_id;
use crate::oco::order::stably_sorted;
use crate::oco::padding::NoData;
use crate::oco::padding::has_no_data;
use crate::oco::padding::lemma_unpadded_padded;
use crate::oco::padding::pad_row;
use crate::oco::padding::padded;
use crate::oco::padding::unpad_row;
use crate::oco::padding::unpadded;
use crate::oco::record::Match2to3;
use crate::oco::record::MatchView;
use crate::oco::record::record_views;

verus! {

/// All matches between the soundings of two instruments: one record for each
/// OCO-2 sounding that has a match, with the lists of files that the
/// soundings were read from.
///
/// The matcher delivers the records in ascending order of the OCO-2 sounding
/// identifier. Grouping depends on that order.
#[derive(Debug)]
pub struct OcoMatches {
    /// The OCO-2 files that were read.
    pub oco2_files: Vec<String>,
    /// The OCO-3 files that were read.
    pub oco3_files: Vec<String>,
    /// The match records.
    pub matches: Vec<Match2to3>,
}

/// The mathematical content of an [`OcoMatches`].
pub struct OcoMatchesView {
    pub oco2_files: Seq<String>,
    pub oco3_files: Seq<String>,
    pub matches: Seq<MatchView>,
}

impl View for OcoMatches {
    type V = OcoMatchesView;

    open spec fn view(&self) -> OcoMatchesView {
        OcoMatchesView {
            oco2_files: self.oco2_files@,
            oco3_files: self.oco3_files@,
            matches: record_views(self.matches@),
        }
    }
}

/// The stored form of an [`OcoMatches`]: the variables of one group of a file.
///
/// The three `oco2_*` columns hold one value per record. The five tables hold
/// one row per record; every row is as wide as the longest list of matches,
/// and shorter lists are filled up with the "no data" value of their type.
#[derive(Debug)]
pub struct MatchesGroup {
    /// Variable `oco2_file`: the paths of the OCO-2 files.
    pub oco2_file: Vec<String>,
    /// Variable `oco3_file`: the paths of the OCO-3 files.
    pub oco3_file: Vec<String>,
    /// Variable `oco2_file_index`.
    pub oco2_file_index: Vec<u8>,
    /// Variable `oco2_index`.
    pub oco2_index: Vec<u64>,
    /// Variable `oco2_sounding_id`.
    pub oco2_sounding_id: Vec<u64>,
    /// Variable `oco3_file_index`.
    pub oco3_file_index: Vec<Vec<u8>>,
    /// Variable `oco3_index`.
    pub oco3_index: Vec<Vec<u64>>,
    /// Variable `oco3_sounding_id`.
    pub oco3_sounding_id: Vec<Vec<u64>>,
    /// Variable `distance`, in metres.
    pub distance: Vec<Vec<u32>>,
    /// Variable `time_difference`, in milliseconds.
    pub time_difference: Vec<Vec<i64>>,
}

/// The mathematical content of a [`MatchesGroup`].
pub struct MatchesGroupView {
    pub oco2_file: Seq<String>,
    pub oco3_file: Seq<String>,
    pub oco2_file_index: Seq<u8>,
    pub oco2_index: Seq<u64>,
    pub oco2_sounding_id: Seq<u64>,
    pub oco3_file_index: Seq<Seq<u8>>,
    pub oco3_index: Seq<Seq<u64>>,
    pub oco3_sounding_id: Seq<Seq<u64>>,
    pub distance: Seq<Seq<u32>>,
    pub time_difference: Seq<Seq<i64>>,
}

/// The rows of a table.
pub open spec fn rows<T>(table: Seq<Vec<T>>) -> Seq<Seq<T>> {
    table.map_values(|r: Vec<T>| r@)
}

impl View for MatchesGroup {
    type V = MatchesGroupView;

    open spec fn view(&self) -> MatchesGroupView {
        MatchesGroupView {
            oco2_file: self.oco2_file@,
            oco3_file: self.oco3_file@,
            oco2_file_index: self.oco2_file_index@,
            oco2_index: self.oco2_index@,
            oco2_sounding_id: self.oco2_sounding_id@,
            oco3_file_index: rows(self.oco3_file_index@),
            oco3_index: rows(self.oco3_index@),
            oco3_sounding_id: rows(self.oco3_sounding_id@),
            distance: rows(self.distance@),
            time_difference: rows(self.time_difference@),
        }
    }
}

/// Every record is consistent.
pub open spec fn all_consistent(records: Seq<MatchView>) -> bool {
    forall|i: int| 0 <= i < records.len() ==> (#[trigger] records[i]).consistent()
}

/// The largest number of matches that any record holds; 0 without records.
pub open spec fn max_fanout(records: Seq<MatchView>) -> nat
    decreases records.len(),
{
    if records.len() == 0 {
        0
    } else {
        let m = max_fanout(records.drop_last());
        if records.last().fanout() > m {
            records.last().fanout()
        } else {
            m
        }
    }
}

/// No record holds more matches than `max_fanout` says.
pub proof fn lemma_max_fanout_bounds(records: Seq<MatchView>, i: int)
    requires
        0 <= i < records.len(),
    ensures
        records[i].fanout() <= max_fanout(records),
    decreases records.len(),
{
    if i < records.len() - 1 {
        lemma_max_fanout_bounds(records.drop_last(), i);
    }
}

/// The stored form of a set of matches with consistent records.
pub open spec fn persisted(v: OcoMatchesView) -> MatchesGroupView {
    let w = max_fanout(v.matches);
    MatchesGroupView {
        oco2_file: v.oco2_files,
        oco3_file: v.oco3_files,
        oco2_file_index: v.matches.map_values(|r: MatchView| r.oco2_file_index),
        oco2_index: v.matches.map_values(|r: MatchView| r.oco2_sounding_index),
        oco2_sounding_id: v.matches.map_values(|r: MatchView| r.oco2_sounding_id),
        oco3_file_index: v.matches.map_values(|r: MatchView| padded(r.oco3_file_indices, w)),
        oco3_index: v.matches.map_values(|r: MatchView| padded(r.oco3_sounding_indices, w)),
        oco3_sounding_id: v.matches.map_values(|r: MatchView| padded(r.oco3_sounding_ids, w)),
        distance: v.matches.map_values(|r: MatchView| padded(r.distance_m, w)),
        time_difference: v.matches.map_values(|r: MatchView| padded(r.time_diff_ms, w)),
    }
}

/// Row `i` of the five tables holds data of one length.
pub open spec fn row_readable(g: MatchesGroupView, i: int) -> bool {
    let n = unpadded(g.oco3_sounding_id[i]).len();
    &&& unpadded(g.oco3_file_index[i]).len() == n
    &&& unpadded(g.oco3_index[i]).len() == n
    &&& unpadded(g.distance[i]).len() == n
    &&& unpadded(g.time_difference[i]).len() == n
}

/// The stored form can be read back: all columns and tables have one entry per
/// record, no column holds "no data", and the five rows of every record hold
/// data of one length.
pub open spec fn readable(g: MatchesGroupView) -> bool {
    let n = g.oco2_sounding_id.len();
    &&& g.oco2_file_index.len() == n
    &&& g.oco2_index.len() == n
    &&& g.oco3_file_index.len() == n
    &&& g.oco3_index.len() == n
    &&& g.oco3_sounding_id.len() == n
    &&& g.distance.len() == n
    &&& g.time_difference.len() == n
    &&& !g.oco2_file_index.contains(u8::no_data())
    &&& !g.oco2_index.contains(u64::no_data())
    &&& !g.oco2_sounding_id.contains(u64::no_data())
    &&& forall|i: int| 0 <= i < n ==> row_readable(g, i)
}

/// Record `i` of a stored form: its three column entries, and its five rows cut
/// at their first "no data" entry.
pub open spec fn restored_record(g: MatchesGroupView, i: int) -> MatchView {
    MatchView {
        oco2_file_index: g.oco2_file_index[i],
        oco2_sounding_index: g.oco2_index[i],
        oco2_sounding_id: g.oco2_sounding_id[i],
        oco3_file_indices: unpadded(g.oco3_file_index[i]),
        oco3_sounding_indices: unpadded(g.oco3_index[i]),
        oco3_sounding_ids: unpadded(g.oco3_sounding_id[i]),
        distance_m: unpadded(g.distance[i]),
        time_diff_ms: unpadded(g.time_difference[i]),
    }
}

/// The set of matches that a readable stored form holds.
pub open spec fn restored(g: MatchesGroupView) -> OcoMatchesView {
    OcoMatchesView {
        oco2_files: g.oco2_file,
        oco3_files: g.oco3_file,
        matches: Seq::new(g.oco2_sounding_id.len(), |i: int| restored_record(g, i)),
    }
}

/// No value of the record is the "no data" value of its column.
pub open spec fn record_storable(r: MatchView) -> bool {
    &&& r.consistent()
    &&& r.oco2_file_index != u8::no_data()
    &&& r.oco2_sounding_index != u64::no_data()
    &&& r.oco2_sounding_id != u64::no_data()
    &&& !r.oco3_file_indices.contains(u8::no_data())
    &&& !r.oco3_sounding_indices.contains(u64::no_data())
    &&& !r.oco3_sounding_ids.contains(u64::no_data())
    &&& !r.distance_m.contains(u32::no_data())
    &&& !r.time_diff_ms.contains(i64::no_data())
}

/// Every record is consistent and free of "no data" values.
pub open spec fn storable(v: OcoMatchesView) -> bool {
    forall|i: int| 0 <= i < v.matches.len() ==> record_storable(#[trigger] v.matches[i])
}

/// Storing a set of matches and reading it back gives the same set: the same
/// files, and the same records with the same matches, distances and time
/// differences, in the same order. This holds of every set whose records are
/// consistent and hold no "no data" value.
pub proof fn lemma_store_then_read(v: OcoMatchesView)
    requires
        storable(v),
    ensures
        readable(persisted(v)),
        restored(persisted(v)) == v,
{
    let g = persisted(v);
    let w = max_fanout(v.matches);
    let n = v.matches.len() as int;
    assert forall|i: int| 0 <= i < n implies restored_record(g, i) == v.matches[i] && row_readable(
        g,
        i,
    ) by {
        let r = v.matches[i];
        assert(record_storable(r));
        lemma_max_fanout_bounds(v.matches, i);
        lemma_unpadded_padded(r.oco3_file_indices, w);
        lemma_unpadded_padded(r.oco3_sounding_indices, w);
        lemma_unpadded_padded(r.oco3_sounding_ids, w);
        lemma_unpadded_padded(r.distance_m, w);
        lemma_unpadded_padded(r.time_diff_ms, w);
    }
    assert(!g.oco2_file_index.contains(u8::no_data())) by {
        if g.oco2_file_index.contains(u8::no_data()) {
            let i = choose|i: int| 0 <= i < n && g.oco2_file_index[i] == u8::no_data();
            assert(record_storable(v.matches[i]));
        }
    }
    assert(!g.oco2_index.contains(u64::no_data())) by {
        if g.oco2_index.contains(u64::no_data()) {
            let i = choose|i: int| 0 <= i < n && g.oco2_index[i] == u64::no_data();
            assert(record_storable(v.matches[i]));
        }
    }
    assert(!g.oco2_sounding_id.contains(u64::no_data())) by {
        if g.oco2_sounding_id.contains(u64::no_data()) {
            let i = choose|i: int| 0 <= i < n && g.oco2_sounding_id[i] == u64::no_data();
            assert(record_storable(v.matches[i]));
        }
    }
    assert(restored(g).matches =~= v.matches);
}

/// A copy of a list of paths.
pub fn clone_paths(paths: &Vec<String>) -> (r: Vec<String>)
    ensures
        r@ == paths@,
{
    let mut r: Vec<String> = Vec::new();
    let mut i: usize = 0;
    while i < paths.len()
        invariant
            i <= paths@.len(),
            r@ == paths@.take(i as int),
        decreases paths@.len() - i,
    {
        r.push(paths[i].clone());
        assert(paths@.take(i as int + 1) =~= paths@.take(i as int).push(paths@[i as int]));
        i = i + 1;
    }
    assert(paths@.take(paths@.len() as int) =~= paths@);
    r
}

impl OcoMatches {
    /// Builds the set of matches from records in any order: the records are
    /// brought into ascending order of their OCO-2 sounding identifier, and
    /// records with one identifier keep their order.
    pub fn from_matches(
        sounding_matches: Vec<Match2to3>,
        oco2_files: Vec<String>,
        oco3_files: Vec<String>,
    ) -> (m: OcoMatches)
        ensures
            m@.oco2_files == oco2_files@,
            m@.oco3_files == oco3_files@,
            stably_sorted(record_views(sounding_matches@), m@.matches),
    {
        let matches = sort_by_sounding_id(sounding_matches);
        OcoMatches { oco2_files, oco3_files, matches }
    }

    /// The width of the stored tables: the largest number of matches in any
    /// record. Fails with an `InternalError` if and only if some record is
    /// not consistent.
    pub fn calc_match_dim(&self) -> (r: Result<usize, MatchupError>)
        ensures
            all_consistent(self@.matches) <==> r is Ok,
            r matches Ok(n) ==> n == max_fanout(self@.matches),
            r matches Err(e) ==> e is InternalError,
    {
        let ghost views = self@.matches;
        let mut width: usize = 0;
        let mut i: usize = 0;
        while i < self.matches.len()
            invariant
                views == record_views(self.matches@),
                i <= self.matches@.len(),
                all_consistent(views.take(i as int)),
                width == max_fanout(views.take(i as int)),
            decreases self.matches@.len() - i,
        {
            let m = &self.matches[i];
            assert(m@ == views[i as int]);
            let n = m.oco3_sounding_ids.len();
            if m.oco3_file_indices.len() != n || m.oco3_sounding_indices.len() != n
                || m.distance_m.len() != n || m.time_diff_ms.len() != n {
                assert(!views[i as int].consistent());
                return Err(
                    MatchupError::internal("Inconsistent lengths of the OCO-3 values of a match"),
                );
            }
            proof {
                let next = views.take(i as int + 1);
                assert(next.drop_last() =~= views.take(i as int));
                assert(next.last() == views[i as int]);
                assert forall|k: int| 0 <= k < next.len() implies (#[trigger] next[k]).consistent() by {
                    if k < i {
                        assert(views.take(i as int)[k] == next[k]);
                    }
                }
            }
            if n > width {
                width = n;
            }
            i = i + 1;
        }
        proof {
            assert(views.take(views.len() as int) =~= views);
        }
        Ok(width)
    }

    /// The stored form of the set of matches. Fails with an `InternalError` if
    /// and only if some record is not consistent.
    pub fn to_nc_group(&self) -> (r: Result<MatchesGroup, MatchupError>)
        ensures
            all_consistent(self@.matches) <==> r is Ok,
            r matches Ok(g) ==> g@ == persisted(self@),
            r matches Err(e) ==> e is InternalError,
    {
        let width = match self.calc_match_dim() {
            Ok(w) => w,
            Err(e) => {
                return Err(e);
            },
        };
        let ghost views = self@.matches;
        let ghost w = width as nat;
        let mut g = MatchesGroup {
            oco2_file: clone_paths(&self.oco2_files),
            oco3_file: clone_paths(&self.oco3_files),
            oco2_file_index: Vec::new(),
            oco2_index: Vec::new(),
            oco2_sounding_id: Vec::new(),
            oco3_file_index: Vec::new(),
            oco3_index: Vec::new(),
            oco3_sounding_id: Vec::new(),
            distance: Vec::new(),
            time_difference: Vec::new(),
        };
        let mut i: usize = 0;
        while i < self.matches.len()
            invariant
                views == record_views(self.matches@),
                all_consistent(views),
                w == max_fanout(views),
                w == width,
                i <= self.matches@.len(),
                g.oco2_file@ == self.oco2_files@,
                g.oco3_file@ == self.oco3_files@,
                g.oco2_file_index@.len() == i,
                g.oco2_index@.len() == i,
                g.oco2_sounding_id@.len() == i,
                g.oco3_file_index@.len() == i,
                g.oco3_index@.len() == i,
                g.oco3_sounding_id@.len() == i,
                g.distance@.len() == i,
                g.time_difference@.len() == i,
                forall|k: int|
                    0 <= k < i ==> {
                        &&& g.oco2_file_index@[k] == (#[trigger] views[k]).oco2_file_index
                        &&& g.oco2_index@[k] == views[k].oco2_sounding_index
                        &&& g.oco2_sounding_id@[k] == views[k].oco2_sounding_id
                        &&& g.oco3_file_index@[k]@ == padded(views[k].oco3_file_indices, w)
                        &&& g.oco3_index@[k]@ == padded(views[k].oco3_sounding_indices, w)
                        &&& g.oco3_sounding_id@[k]@ == padded(views[k].oco3_sounding_ids, w)
                        &&& g.distance@[k]@ == padded(views[k].distance_m, w)
                        &&& g.time_difference@[k]@ == padded(views[k].time_diff_ms, w)
                    },
            decreases self.matches@.len() - i,
        {
            let m = &self.matches[i];
            proof {
                assert(m@ == views[i as int]);
                assert(views[i as int].consistent());
                lemma_max_fanout_bounds(views, i as int);
            }
            g.oco2_file_index.push(m.oco2_file_index);
            g.oco2_index.push(m.oco2_sounding_index);
            g.oco2_sounding_id.push(m.oco2_sounding_id);
            g.oco3_file_index.push(pad_row(&m.oco3_file_indices, width));
            g.oco3_index.push(pad_row(&m.oco3_sounding_indices, width));
            g.oco3_sounding_id.push(pad_row(&m.oco3_sounding_ids, width));
            g.distance.push(pad_row(&m.distance_m, width));
            g.time_difference.push(pad_row(&m.time_diff_ms, width));
            i = i + 1;
        }
        proof {
            let want = persisted(self@);
            assert(g@.oco2_file_index =~= want.oco2_file_index);
            assert(g@.oco2_index =~= want.oco2_index);
            assert(g@.oco2_sounding_id =~= want.oco2_sounding_id);
            assert(g@.oco3_file_index =~= want.oco3_file_index);
            assert(g@.oco3_index =~= want.oco3_index);
            assert(g@.oco3_sounding_id =~= want.oco3_sounding_id);
            assert(g@.distance =~= want.distance);
            assert(g@.time_difference =~= want.time_difference);
        }
        Ok(g)
    }

    /// Reads a set of matches back from its stored form. The records come in
    /// the order of the stored rows; each of the five rows of a record is cut
    /// at its first "no data" entry.
    ///
    /// Fails with an `InternalError` if and only if the stored form is not
    /// readable: the columns and tables differ in their number of entries, a
    /// column holds "no data", or the five rows of some record hold data of
    /// different lengths.
    pub fn from_nc_group(grp: &MatchesGroup) -> (r: Result<OcoMatches, MatchupError>)
        ensures
            readable(grp@) <==> r is Ok,
            r matches Ok(m) ==> m@ == restored(grp@),
            r matches Err(e) ==> e is InternalError,
    {
        let n = grp.oco2_sounding_id.len();
        if grp.oco2_file_index.len() != n || grp.oco2_index.len() != n || grp.oco3_file_index.len()
            != n || grp.oco3_index.len() != n || grp.oco3_sounding_id.len() != n
            || grp.distance.len() != n || grp.time_difference.len() != n {
            return Err(MatchupError::internal("The match variables differ in length"));
        }
        if has_no_data(&grp.oco2_file_index) || has_no_data(&grp.oco2_index) || has_no_data(
            &grp.oco2_sounding_id,
        ) {
            return Err(MatchupError::internal("A variable with one value per match has fill values"));
        }
        let ghost gv = grp@;
        let mut matches: Vec<Match2to3> = Vec::new();
        let mut i: usize = 0;
        while i < n
            invariant
                gv == grp@,
                n == gv.oco2_sounding_id.len(),
                gv.oco2_file_index.len() == n,
                gv.oco2_index.len() == n,
                gv.oco3_file_index.len() == n,
                gv.oco3_index.len() == n,
                gv.oco3_sounding_id.len() == n,
                gv.distance.len() == n,
                gv.time_difference.len() == n,
                i <= n,
                matches@.len() == i,
                forall|k: int| 0 <= k < i ==> row_readable(gv, k),
                forall|k: int| 0 <= k < i ==> (#[trigger] matches@[k])@ == restored_record(gv, k),
            decreases n - i,
        {
            let m = Match2to3 {
                oco2_file_index: grp.oco2_file_index[i],
                oco2_sounding_index: grp.oco2_index[i],
                oco2_sounding_id: grp.oco2_sounding_id[i],
                oco3_file_indices: unpad_row(&grp.oco3_file_index[i]),
                oco3_sounding_indices: unpad_row(&grp.oco3_index[i]),
                oco3_sounding_ids: unpad_row(&grp.oco3_sounding_id[i]),
                distance_m: unpad_row(&grp.distance[i]),
                time_diff_ms: unpad_row(&grp.time_difference[i]),
            };
            assert(m@ == restored_record(gv, i as int));
            let fanout = m.oco3_sounding_ids.len();
            if m.oco3_file_indices.len() != fanout || m.oco3_sounding_indices.len() != fanout
                || m.distance_m.len() != fanout || m.time_diff_ms.len() != fanout {
                assert(!row_readable(gv, i as int));
                return Err(
                    MatchupError::internal("The OCO-3 variables of a match differ in length"),
                );
            }
            assert(row_readable(gv, i as int));
            matches.push(m);
            i = i + 1;
        }
        let m = OcoMatches {
            oco2_files: clone_paths(&grp.oco2_file),
            oco3_files: clone_paths(&grp.oco3_file),
            matches,
        };
        assert(m@.matches =~= restored(gv).matches);
        Ok(m)
    }
}

} // verus!

//! The matcher: for every OCO-2 sounding, the OCO-3 soundings that are close
//! to it in space and time.
//!
//! Distances between soundings are not computed here. The caller hands them
//! in, in metres: one row of distances for each OCO-2 sounding, with one
//! entry for each OCO-3 sounding.

use vstd::prelude::*;
use crate::oco::geo::OcoGeo;
use crate::oco::geo::OcoGeoView;
use crate::oco::matches::OcoMatches;
use crate::oco::matches::clone_paths;
use crate::oco::matches::all_consistent;
use crate::oco::matches::rows;
use crate::oco::order::distinct_oco2_ids;
use crate::oco::order::lemma_sorting_keeps_ids_distinct;
use crate::oco::order::lemma_sorting_keeps_records;
use crate::oco::order::stably_sorted;
use crate::oco::record::Match2to3;
use crate::oco::record::MatchView;
use crate::oco::record::record_views;
use crate::oco::tables::all_matched;
use crate::utils::select;

verus! {

/// The time of the first sounding minus the time of the second, in
/// milliseconds.
pub open spec fn spec_time_difference(ts_a: i64, ts_b: i64) -> int {
    ts_a - ts_b
}

/// The absolute value of `x`.
pub open spec fn magnitude(x: int) -> int {
    if x < 0 {
        -x
    } else {
        x
    }
}

/// Two soundings coincide: their distance is at most `max_dist`, and the
/// magnitude of their time difference is below `max_dt` and above `min_dt`.
/// A negative `min_dt` excludes nothing.
pub open spec fn coincide(dist: u32, dt: int, max_dist: u32, min_dt: i64, max_dt: i64) -> bool {
    &&& dist <= max_dist
    &&& magnitude(dt) < max_dt
    &&& magnitude(dt) > min_dt
}

/// The rows among the first `n` OCO-3 soundings that coincide with an OCO-2
/// sounding taken at `ts`, in ascending order.
pub open spec fn matched_rows(
    ts: i64,
    oco3_timestamp: Seq<i64>,
    distances: Seq<u32>,
    max_dist: u32,
    min_dt: i64,
    max_dt: i64,
    n: nat,
) -> Seq<int>
    decreases n,
{
    if n == 0 {
        Seq::empty()
    } else {
        let prev = matched_rows(ts, oco3_timestamp, distances, max_dist, min_dt, max_dt, (n - 1) as nat);
        if coincide(
            distances[n - 1],
            spec_time_difference(ts, oco3_timestamp[n - 1]),
            max_dist,
            min_dt,
            max_dt,
        ) {
            prev.push(n - 1)
        } else {
            prev
        }
    }
}

/// The match record of one OCO-2 sounding against the first `n` OCO-3
/// soundings.
pub open spec fn row_match_upto(
    file_idx_oco2: u8,
    idx_oco2: u64,
    sid_oco2: u64,
    ts_oco2: i64,
    oco3: OcoGeoView,
    distances: Seq<u32>,
    max_dist: u32,
    min_dt: i64,
    max_dt: i64,
    n: nat,
) -> MatchView {
    let found = matched_rows(ts_oco2, oco3.timestamp, distances, max_dist, min_dt, max_dt, n);
    MatchView {
        oco2_file_index: file_idx_oco2,
        oco2_sounding_index: idx_oco2,
        oco2_sounding_id: sid_oco2,
        oco3_file_indices: select(oco3.file_index, found),
        oco3_sounding_indices: found.map_values(|j: int| j as u64),
        oco3_sounding_ids: select(oco3.sounding_id, found),
        distance_m: select(distances, found),
        time_diff_ms: found.map_values(|j: int| spec_time_difference(ts_oco2, oco3.timestamp[j]) as i64),
    }
}

/// The match record of one OCO-2 sounding: the OCO-3 soundings that coincide
/// with it, in ascending order of their rows, each with its file index, row,
/// identifier, distance and time difference.
pub open spec fn row_match(
    file_idx_oco2: u8,
    idx_oco2: u64,
    sid_oco2: u64,
    ts_oco2: i64,
    oco3: OcoGeoView,
    distances: Seq<u32>,
    max_dist: u32,
    min_dt: i64,
    max_dt: i64,
) -> MatchView {
    row_match_upto(
        file_idx_oco2,
        idx_oco2,
        sid_oco2,
        ts_oco2,
        oco3,
        distances,
        max_dist,
        min_dt,
        max_dt,
        oco3.len(),
    )
}

/// The match record of row `i` of the OCO-2 soundings.
pub open spec fn match_of_row(
    oco2: OcoGeoView,
    oco3: OcoGeoView,
    distances: Seq<Seq<u32>>,
    max_dist: u32,
    min_dt: i64,
    max_dt: i64,
    i: int,
) -> MatchView {
    row_match(
        oco2.file_index[i],
        i as u64,
        oco2.sounding_id[i],
        oco2.timestamp[i],
        oco3,
        distances[i],
        max_dist,
        min_dt,
        max_dt,
    )
}

/// The match records of the first `n` OCO-2 soundings, in the order of their
/// rows, without the records that hold no match.
pub open spec fn found_matches(
    oco2: OcoGeoView,
    oco3: OcoGeoView,
    distances: Seq<Seq<u32>>,
    max_dist: u32,
    min_dt: i64,
    max_dt: i64,
    n: nat,
) -> Seq<MatchView>
    decreases n,
{
    if n == 0 {
        Seq::empty()
    } else {
        let prev = found_matches(oco2, oco3, distances, max_dist, min_dt, max_dt, (n - 1) as nat);
        let m = match_of_row(oco2, oco3, distances, max_dist, min_dt, max_dt, n - 1);
        if m.fanout() > 0 {
            prev.push(m)
        } else {
            prev
        }
    }
}

/// The matched rows are exactly the rows below `n` that coincide with the
/// OCO-2 sounding, and they are listed in strictly ascending order: every
/// OCO-3 sounding in a match record meets the distance and time criteria, and
/// every one left out fails one of them.
pub proof fn lemma_matched_rows(
    ts: i64,
    oco3_timestamp: Seq<i64>,
    distances: Seq<u32>,
    max_dist: u32,
    min_dt: i64,
    max_dt: i64,
    n: nat,
)
    ensures
        forall|k: int|
            0 <= k < matched_rows(ts, oco3_timestamp, distances, max_dist, min_dt, max_dt, n).len()
                ==> {
                let j = #[trigger] matched_rows(
                    ts,
                    oco3_timestamp,
                    distances,
                    max_dist,
                    min_dt,
                    max_dt,
                    n,
                )[k];
                &&& 0 <= j < n
                &&& coincide(
                    distances[j],
                    spec_time_difference(ts, oco3_timestamp[j]),
                    max_dist,
                    min_dt,
                    max_dt,
                )
            },
        forall|j: int|
            0 <= j < n && coincide(
                #[trigger] distances[j],
                spec_time_difference(ts, oco3_timestamp[j]),
                max_dist,
                min_dt,
                max_dt,
            ) ==> matched_rows(ts, oco3_timestamp, distances, max_dist, min_dt, max_dt, n).contains(j),
        forall|k: int, l: int|
            0 <= k < l < matched_rows(ts, oco3_timestamp, distances, max_dist, min_dt, max_dt, n).len()
                ==> matched_rows(ts, oco3_timestamp, distances, max_dist, min_dt, max_dt, n)[k]
                < matched_rows(ts, oco3_timestamp, distances, max_dist, min_dt, max_dt, n)[l],
        matched_rows(ts, oco3_timestamp, distances, max_dist, min_dt, max_dt, n).len() <= n,
    decreases n,
{
    if n > 0 {
        let prev = matched_rows(ts, oco3_timestamp, distances, max_dist, min_dt, max_dt, (n - 1) as nat);
        let found = matched_rows(ts, oco3_timestamp, distances, max_dist, min_dt, max_dt, n);
        lemma_matched_rows(ts, oco3_timestamp, distances, max_dist, min_dt, max_dt, (n - 1) as nat);
        assert forall|j: int|
            0 <= j < n && coincide(
                #[trigger] distances[j],
                spec_time_difference(ts, oco3_timestamp[j]),
                max_dist,
                min_dt,
                max_dt,
            ) implies found.contains(j) by {
            if j < n - 1 {
                assert(prev.contains(j));
                let k = choose|k: int| 0 <= k < prev.len() && prev[k] == j;
                assert(found[k] == j);
            } else {
                assert(found[found.len() - 1] == j);
            }
        }
    }
}

/// The records that the matcher finds are the match records of the OCO-2
/// soundings that have a match: each found record is the record of some row,
/// and the record of each row that has a match is found.
pub proof fn lemma_found_matches(
    oco2: OcoGeoView,
    oco3: OcoGeoView,
    distances: Seq<Seq<u32>>,
    max_dist: u32,
    min_dt: i64,
    max_dt: i64,
    n: nat,
)
    ensures
        forall|k: int|
            0 <= k < found_matches(oco2, oco3, distances, max_dist, min_dt, max_dt, n).len()
                ==> exists|i: int|
                0 <= i < n && match_of_row(oco2, oco3, distances, max_dist, min_dt, max_dt, i).fanout()
                    > 0 && #[trigger] found_matches(oco2, oco3, distances, max_dist, min_dt, max_dt, n)[k]
                    == match_of_row(oco2, oco3, distances, max_dist, min_dt, max_dt, i),
        forall|i: int|
            0 <= i < n && (#[trigger] match_of_row(
                oco2,
                oco3,
                distances,
                max_dist,
                min_dt,
                max_dt,
                i,
            )).fanout() > 0 ==> found_matches(oco2, oco3, distances, max_dist, min_dt, max_dt, n).contains(
                match_of_row(oco2, oco3, distances, max_dist, min_dt, max_dt, i),
            ),
    decreases n,
{
    if n > 0 {
        let prev = found_matches(oco2, oco3, distances, max_dist, min_dt, max_dt, (n - 1) as nat);
        let found = found_matches(oco2, oco3, distances, max_dist, min_dt, max_dt, n);
        let m = match_of_row(oco2, oco3, distances, max_dist, min_dt, max_dt, n - 1);
        lemma_found_matches(oco2, oco3, distances, max_dist, min_dt, max_dt, (n - 1) as nat);
        assert forall|k: int| 0 <= k < found.len() implies exists|i: int|
            0 <= i < n && match_of_row(oco2, oco3, distances, max_dist, min_dt, max_dt, i).fanout() > 0
                && #[trigger] found[k] == match_of_row(
                oco2,
                oco3,
                distances,
                max_dist,
                min_dt,
                max_dt,
                i,
            ) by {
            if k < prev.len() {
                let i = choose|i: int|
                    0 <= i < n - 1 && match_of_row(
                        oco2,
                        oco3,
                        distances,
                        max_dist,
                        min_dt,
                        max_dt,
                        i,
                    ).fanout() > 0 && prev[k] == match_of_row(
                        oco2,
                        oco3,
                        distances,
                        max_dist,
                        min_dt,
                        max_dt,
                        i,
                    );
                assert(found[k] == prev[k]);
            } else {
                assert(found[k] == m);
            }
        }
        assert forall|i: int|
            0 <= i < n && (#[trigger] match_of_row(
                oco2,
                oco3,
                distances,
                max_dist,
                min_dt,
                max_dt,
                i,
            )).fanout() > 0 implies found.contains(
            match_of_row(oco2, oco3, distances, max_dist, min_dt, max_dt, i),
        ) by {
            let r = match_of_row(oco2, oco3, distances, max_dist, min_dt, max_dt, i);
            if i < n - 1 {
                assert(prev.contains(r));
                let k = choose|k: int| 0 <= k < prev.len() && prev[k] == r;
                assert(found[k] == r);
            } else {
                assert(found[found.len() - 1] == r);
            }
        }
    }
}

/// The found records come in ascending order of their rows, and each carries
/// the identifier of the OCO-2 sounding of its row.
pub proof fn lemma_found_matches_rows(
    oco2: OcoGeoView,
    oco3: OcoGeoView,
    distances: Seq<Seq<u32>>,
    max_dist: u32,
    min_dt: i64,
    max_dt: i64,
    n: nat,
)
    requires
        n <= u64::MAX,
    ensures
        forall|k: int|
            0 <= k < found_matches(oco2, oco3, distances, max_dist, min_dt, max_dt, n).len() ==> {
                let m = #[trigger] found_matches(oco2, oco3, distances, max_dist, min_dt, max_dt, n)[k];
                &&& m.oco2_sounding_index < n
                &&& m.oco2_sounding_id == oco2.sounding_id[m.oco2_sounding_index as int]
            },
        forall|k: int, l: int|
            0 <= k < l < found_matches(oco2, oco3, distances, max_dist, min_dt, max_dt, n).len()
                ==> (#[trigger] found_matches(
                oco2,
                oco3,
                distances,
                max_dist,
                min_dt,
                max_dt,
                n,
            )[k]).oco2_sounding_index < (#[trigger] found_matches(
                oco2,
                oco3,
                distances,
                max_dist,
                min_dt,
                max_dt,
                n,
            )[l]).oco2_sounding_index,
    decreases n,
{
    if n > 0 {
        let prev = found_matches(oco2, oco3, distances, max_dist, min_dt, max_dt, (n - 1) as nat);
        let found = found_matches(oco2, oco3, distances, max_dist, min_dt, max_dt, n);
        let m = match_of_row(oco2, oco3, distances, max_dist, min_dt, max_dt, n - 1);
        lemma_found_matches_rows(oco2, oco3, distances, max_dist, min_dt, max_dt, (n - 1) as nat);
        assert(m.oco2_sounding_index == n - 1);
        assert(m.oco2_sounding_id == oco2.sounding_id[n - 1]);
        assert forall|k: int| 0 <= k < found.len() implies (#[trigger] found[k]).oco2_sounding_index < n
            && found[k].oco2_sounding_id == oco2.sounding_id[found[k].oco2_sounding_index as int] by {
            if k < prev.len() {
                assert(found[k] == prev[k]);
            } else {
                assert(found[k] == m);
            }
        }
        assert forall|k: int, l: int| 0 <= k < l < found.len() implies (
        #[trigger] found[k]).oco2_sounding_index < (#[trigger] found[l]).oco2_sounding_index by {
            assert(found[k] == prev[k]);
            if l < prev.len() {
                assert(found[l] == prev[l]);
            } else {
                assert(found[l] == m);
                assert(prev[k].oco2_sounding_index < n - 1);
            }
        }
    }
}

/// Where the OCO-2 soundings have identifiers that differ from one another,
/// so have the records that the matcher delivers.
pub proof fn lemma_matches_have_distinct_ids(
    oco2: OcoGeoView,
    oco3: OcoGeoView,
    distances: Seq<Seq<u32>>,
    max_dist: u32,
    min_dt: i64,
    max_dt: i64,
    delivered: Seq<MatchView>,
)
    requires
        oco2.wf(),
        oco2.sounding_id.no_duplicates(),
        stably_sorted(
            found_matches(oco2, oco3, distances, max_dist, min_dt, max_dt, oco2.len()),
            delivered,
        ),
    ensures
        distinct_oco2_ids(delivered),
{
    let found = found_matches(oco2, oco3, distances, max_dist, min_dt, max_dt, oco2.len());
    lemma_found_matches_rows(oco2, oco3, distances, max_dist, min_dt, max_dt, oco2.len());
    assert forall|i: int, j: int| 0 <= i < j < found.len() implies (
    #[trigger] found[i]).oco2_sounding_id != (#[trigger] found[j]).oco2_sounding_id by {
        assert(found[i].oco2_sounding_index < found[j].oco2_sounding_index);
    }
    lemma_sorting_keeps_ids_distinct(found, delivered);
}

/// What the matcher delivers: every delivered record is the match record of
/// an OCO-2 sounding that has a match, every such record is delivered, and
/// every delivered record is consistent and lists at least one match.
pub proof fn lemma_delivered_matches(
    oco2: OcoGeoView,
    oco3: OcoGeoView,
    distances: Seq<Seq<u32>>,
    max_dist: u32,
    min_dt: i64,
    max_dt: i64,
    delivered: Seq<MatchView>,
)
    requires
        stably_sorted(
            found_matches(oco2, oco3, distances, max_dist, min_dt, max_dt, oco2.len()),
            delivered,
        ),
    ensures
        forall|k: int|
            0 <= k < delivered.len() ==> exists|i: int|
                0 <= i < oco2.len() && #[trigger] delivered[k] == match_of_row(
                    oco2,
                    oco3,
                    distances,
                    max_dist,
                    min_dt,
                    max_dt,
                    i,
                ),
        forall|i: int|
            0 <= i < oco2.len() && (#[trigger] match_of_row(
                oco2,
                oco3,
                distances,
                max_dist,
                min_dt,
                max_dt,
                i,
            )).fanout() > 0 ==> delivered.contains(
                match_of_row(oco2, oco3, distances, max_dist, min_dt, max_dt, i),
            ),
        all_consistent(delivered),
        all_matched(delivered),
{
    let found = found_matches(oco2, oco3, distances, max_dist, min_dt, max_dt, oco2.len());
    lemma_found_matches(oco2, oco3, distances, max_dist, min_dt, max_dt, oco2.len());
    lemma_sorting_keeps_records(found, delivered);
    assert forall|k: int| 0 <= k < delivered.len() implies (exists|i: int|
        0 <= i < oco2.len() && #[trigger] delivered[k] == match_of_row(
            oco2,
            oco3,
            distances,
            max_dist,
            min_dt,
            max_dt,
            i,
        )) && delivered[k].consistent() && delivered[k].fanout() > 0 by {
        assert(delivered.contains(delivered[k]));
        assert(found.contains(delivered[k]));
        let l = choose|l: int| 0 <= l < found.len() && found[l] == delivered[k];
        let i = choose|i: int|
            0 <= i < oco2.len() && match_of_row(oco2, oco3, distances, max_dist, min_dt, max_dt, i).fanout()
                > 0 && found[l] == match_of_row(oco2, oco3, distances, max_dist, min_dt, max_dt, i);
        assert(delivered[k] == match_of_row(oco2, oco3, distances, max_dist, min_dt, max_dt, i));
    }
    assert forall|i: int|
        0 <= i < oco2.len() && (#[trigger] match_of_row(
            oco2,
            oco3,
            distances,
            max_dist,
            min_dt,
            max_dt,
            i,
        )).fanout() > 0 implies delivered.contains(
        match_of_row(oco2, oco3, distances, max_dist, min_dt, max_dt, i),
    ) by {
        assert(found.contains(match_of_row(oco2, oco3, distances, max_dist, min_dt, max_dt, i)));
    }
}

/// Two soundings whose time difference has a magnitude of at most `min_dt` do
/// not coincide, whatever their distance. So with a minimum time difference
/// that is not negative, as in the search for crossings of one instrument's
/// own track, a sounding matches neither itself nor any sounding that is at
/// most that far from it in time, not even at distance zero.
pub proof fn lemma_near_in_time_excluded(
    dist: u32,
    ts_a: i64,
    ts_b: i64,
    max_dist: u32,
    min_dt: i64,
    max_dt: i64,
)
    requires
        magnitude(spec_time_difference(ts_a, ts_b)) <= min_dt,
    ensures
        !coincide(dist, spec_time_difference(ts_a, ts_b), max_dist, min_dt, max_dt),
{
}

/// With a minimum time difference that is not negative, no sounding
/// coincides with a sounding taken at the same time, and so none with itself.
pub proof fn lemma_never_matches_itself(dist: u32, ts: i64, max_dist: u32, min_dt: i64, max_dt: i64)
    requires
        min_dt >= 0,
    ensures
        !coincide(dist, spec_time_difference(ts, ts), max_dist, min_dt, max_dt),
{
}

/// The time of the first sounding minus the time of the second.
pub fn time_difference(ts_a: i64, ts_b: i64) -> (dt: i128)
    ensures
        dt == spec_time_difference(ts_a, ts_b),
{
    (ts_a as i128) - (ts_b as i128)
}

/// Whether two soundings coincide, given their distance and their times.
pub fn is_coincident(dist: u32, ts_a: i64, ts_b: i64, max_dist: u32, min_dt: i64, max_dt: i64) -> (b:
    bool)
    ensures
        b == coincide(dist, spec_time_difference(ts_a, ts_b), max_dist, min_dt, max_dt),
{
    let dt = time_difference(ts_a, ts_b);
    let size: i128 = if dt < 0 {
        -dt
    } else {
        dt
    };
    dist <= max_dist && size < (max_dt as i128) && size > (min_dt as i128)
}

/// The match record of one OCO-2 sounding against all OCO-3 soundings.
///
/// `distances` holds the distance from the OCO-2 sounding to each OCO-3
/// sounding, in the order of the OCO-3 soundings.
pub fn make_one_oco_match_vec(
    file_idx_oco2: u8,
    idx_oco2: usize,
    sid_oco2: u64,
    ts_oco2: i64,
    oco3: &OcoGeo,
    distances: &Vec<u32>,
    max_dist: u32,
    min_dt: i64,
    max_dt: i64,
) -> (m: Match2to3)
    requires
        oco3.wf(),
        distances@.len() == oco3@.len(),
    ensures
        m@ == row_match(
            file_idx_oco2,
            idx_oco2 as u64,
            sid_oco2,
            ts_oco2,
            oco3@,
            distances@,
            max_dist,
            min_dt,
            max_dt,
        ),
{
    let mut oco3_matches = Match2to3::new(file_idx_oco2, idx_oco2 as u64, sid_oco2);
    let n = distances.len();
    let mut j: usize = 0;
    proof {
        let start = row_match_upto(
            file_idx_oco2,
            idx_oco2 as u64,
            sid_oco2,
            ts_oco2,
            oco3@,
            distances@,
            max_dist,
            min_dt,
            max_dt,
            0,
        );
        assert(oco3_matches@.oco3_file_indices =~= start.oco3_file_indices);
        assert(oco3_matches@.oco3_sounding_indices =~= start.oco3_sounding_indices);
        assert(oco3_matches@.oco3_sounding_ids =~= start.oco3_sounding_ids);
        assert(oco3_matches@.distance_m =~= start.distance_m);
        assert(oco3_matches@.time_diff_ms =~= start.time_diff_ms);
    }
    while j < n
        invariant
            j <= n,
            n == oco3@.len(),
            n == distances@.len(),
            oco3.wf(),
            oco3_matches@ == row_match_upto(
                file_idx_oco2,
                idx_oco2 as u64,
                sid_oco2,
                ts_oco2,
                oco3@,
                distances@,
                max_dist,
                min_dt,
                max_dt,
                j as nat,
            ),
        decreases n - j,
    {
        let ts_oco3 = oco3.timestamp_at(j);
        let this_dist = distances[j];
        if is_coincident(this_dist, ts_oco2, ts_oco3, max_dist, min_dt, max_dt) {
            let dt = time_difference(ts_oco2, ts_oco3);
            oco3_matches.add_oco3_match(
                oco3.file_index_at(j),
                j as u64,
                oco3.sounding_id_at(j),
                this_dist,
                dt as i64,
            );
        }
        proof {
            let next = row_match_upto(
                file_idx_oco2,
                idx_oco2 as u64,
                sid_oco2,
                ts_oco2,
                oco3@,
                distances@,
                max_dist,
                min_dt,
                max_dt,
                (j + 1) as nat,
            );
            assert(oco3_matches@.oco3_file_indices =~= next.oco3_file_indices);
            assert(oco3_matches@.oco3_sounding_indices =~= next.oco3_sounding_indices);
            assert(oco3_matches@.oco3_sounding_ids =~= next.oco3_sounding_ids);
            assert(oco3_matches@.distance_m =~= next.distance_m);
            assert(oco3_matches@.time_diff_ms =~= next.time_diff_ms);
        }
        j = j + 1;
    }
    oco3_matches
}

/// The match record of one OCO-2 sounding, or `None` where no OCO-3 sounding
/// coincides with it. This is the unit of work of a matcher that hands the
/// OCO-2 soundings out to several workers.
pub fn parallel_helper(
    file_idx_oco2: u8,
    idx_oco2: usize,
    sid_oco2: u64,
    ts_oco2: i64,
    oco3: &OcoGeo,
    distances: &Vec<u32>,
    max_dist: u32,
    min_dt: i64,
    max_dt: i64,
) -> (r: Option<Match2to3>)
    requires
        oco3.wf(),
        distances@.len() == oco3@.len(),
    ensures
        r is Some <==> row_match(
            file_idx_oco2,
            idx_oco2 as u64,
            sid_oco2,
            ts_oco2,
            oco3@,
            distances@,
            max_dist,
            min_dt,
            max_dt,
        ).fanout() > 0,
        r matches Some(m) ==> m@ == row_match(
            file_idx_oco2,
            idx_oco2 as u64,
            sid_oco2,
            ts_oco2,
            oco3@,
            distances@,
            max_dist,
            min_dt,
            max_dt,
        ),
{
    let this_result = make_one_oco_match_vec(
        file_idx_oco2,
        idx_oco2,
        sid_oco2,
        ts_oco2,
        oco3,
        distances,
        max_dist,
        min_dt,
        max_dt,
    );
    if this_result.is_empty() {
        None
    } else {
        Some(this_result)
    }
}

/// The distances are given for every pair of soundings: one row for each
/// OCO-2 sounding, with one entry for each OCO-3 sounding.
pub open spec fn distances_cover(distances: Seq<Seq<u32>>, oco2: OcoGeoView, oco3: OcoGeoView) -> bool {
    &&& distances.len() == oco2.len()
    &&& forall|i: int| 0 <= i < distances.len() ==> (#[trigger] distances[i]).len() == oco3.len()
}

/// Whether the distances are given for every pair of soundings.
pub fn covers(distances: &Vec<Vec<u32>>, oco2: &OcoGeo, oco3: &OcoGeo) -> (b: bool)
    ensures
        b == distances_cover(rows(distances@), oco2@, oco3@),
{
    let n_oco2 = oco2.len();
    let n_oco3 = oco3.len();
    if distances.len() != n_oco2 {
        return false;
    }
    let ghost table = rows(distances@);
    let mut i: usize = 0;
    while i < distances.len()
        invariant
            i <= distances@.len(),
            table == rows(distances@),
            n_oco3 == oco3@.len(),
            forall|k: int| 0 <= k < i ==> (#[trigger] table[k]).len() == n_oco3,
        decreases distances@.len() - i,
    {
        assert(table[i as int] == distances@[i as int]@);
        if distances[i].len() != n_oco3 {
            return false;
        }
        i = i + 1;
    }
    true
}

/// All matches between the OCO-2 and the OCO-3 soundings.
///
/// Every OCO-2 sounding is compared with every OCO-3 sounding. An OCO-3
/// sounding enters the record of an OCO-2 sounding if and only if the two
/// coincide; OCO-2 soundings without a match get no record. The records are
/// delivered in ascending order of the OCO-2 sounding identifier.
pub fn match_oco3_to_oco2_parallel(
    oco2: &OcoGeo,
    oco3: &OcoGeo,
    distances: &Vec<Vec<u32>>,
    max_dist: u32,
    min_dt: i64,
    max_dt: i64,
) -> (matches: OcoMatches)
    requires
        oco2.wf(),
        oco3.wf(),
        distances_cover(rows(distances@), oco2@, oco3@),
    ensures
        matches@.oco2_files == oco2@.lite_files,
        matches@.oco3_files == oco3@.lite_files,
        stably_sorted(
            found_matches(oco2@, oco3@, rows(distances@), max_dist, min_dt, max_dt, oco2@.len()),
            matches@.matches,
        ),
{
    let n_oco2 = distances.len();
    let ghost table = rows(distances@);
    let mut matchups: Vec<Match2to3> = Vec::new();
    let mut i: usize = 0;
    assert(record_views(matchups@) =~= Seq::<MatchView>::empty());
    while i < n_oco2
        invariant
            i <= n_oco2,
            n_oco2 == oco2@.len(),
            oco2.wf(),
            oco3.wf(),
            table == rows(distances@),
            distances_cover(table, oco2@, oco3@),
            record_views(matchups@) == found_matches(
                oco2@,
                oco3@,
                table,
                max_dist,
                min_dt,
                max_dt,
                i as nat,
            ),
        decreases n_oco2 - i,
    {
        assert(table[i as int] == distances@[i as int]@);
        let ghost before = record_views(matchups@);
        let found = parallel_helper(
            oco2.file_index_at(i),
            i,
            oco2.sounding_id_at(i),
            oco2.timestamp_at(i),
            oco3,
            &distances[i],
            max_dist,
            min_dt,
            max_dt,
        );
        match found {
            Some(m) => {
                let ghost mv = m@;
                matchups.push(m);
                assert(record_views(matchups@) =~= before.push(mv));
            },
            None => {},
        }
        i = i + 1;
    }
    OcoMatches::from_matches(matchups, clone_paths(oco2.lite_files()), clone_paths(oco3.lite_files()))
}

} // verus!

//! Groups of matches: clusters of OCO-2 and OCO-3 soundings that are linked
//! to one another by match records.
//!
//! The records are taken one by one, in the order in which they are given. A
//! record joins the first group, in order of creation, that already holds one
//! of the record's OCO-3 soundings; where there is none, it founds a new
//! group. A record that links two existing groups joins the first and leaves
//! the second as it is.

use std::collections::HashMap;
use vstd::prelude::*;
use crate::error::MatchupError;
use crate::oco::idset::IdSet;
use crate::oco::idset::add_id;
use crate::oco::idset::add_ids;
use crate::oco::idset::shares_id;
use crate::oco::matches::OcoMatches;
use crate::oco::matches::OcoMatchesView;
use crate::oco::record::Match2to3;
use crate::oco::record::MatchView;
use crate::oco::record::record_views;
use crate::utils::RunningMean;
use crate::utils::total;

verus! {

/// A group: the identifiers of its OCO-2 soundings and of its OCO-3
/// soundings, each list without repetition and in the order of joining.
pub struct GroupView {
    pub oco2_ids: Seq<u64>,
    pub oco3_ids: Seq<u64>,
}

/// The position of the first group from position `k` on that holds an OCO-3
/// sounding of `row`; the number of groups where there is none.
pub open spec fn first_sharing_from(groups: Seq<GroupView>, row: Seq<u64>, k: int) -> int
    decreases groups.len() - k,
{
    if k < 0 || k >= groups.len() {
        groups.len() as int
    } else if shares_id(groups[k].oco3_ids, row) {
        k
    } else {
        first_sharing_from(groups, row, k + 1)
    }
}

/// The position of the first group that holds an OCO-3 sounding of `row`; the
/// number of groups where there is none.
pub open spec fn first_sharing(groups: Seq<GroupView>, row: Seq<u64>) -> int {
    first_sharing_from(groups, row, 0)
}

/// The group `g` after the record `r` joined it.
pub open spec fn joined(g: GroupView, r: MatchView) -> GroupView {
    GroupView {
        oco2_ids: add_id(g.oco2_ids, r.oco2_sounding_id),
        oco3_ids: add_ids(g.oco3_ids, r.oco3_sounding_ids),
    }
}

/// The group that the record `r` founds.
pub open spec fn founded(r: MatchView) -> GroupView {
    joined(GroupView { oco2_ids: Seq::empty(), oco3_ids: Seq::empty() }, r)
}

/// The groups after one more record: the record joins the first group that
/// shares an OCO-3 sounding with it, or founds a group behind the others.
pub open spec fn with_record(groups: Seq<GroupView>, r: MatchView) -> Seq<GroupView> {
    let k = first_sharing(groups, r.oco3_sounding_ids);
    if k < groups.len() {
        groups.update(k, joined(groups[k], r))
    } else {
        groups.push(founded(r))
    }
}

/// The groups that the records form when taken first to last.
pub open spec fn grouped(records: Seq<MatchView>) -> Seq<GroupView>
    decreases records.len(),
{
    if records.len() == 0 {
        Seq::empty()
    } else {
        with_record(grouped(records.drop_last()), records.last())
    }
}

/// For each OCO-2 sounding of the records, the file index and row of the last
/// record that carries it.
pub open spec fn oco2_locations(records: Seq<MatchView>) -> Map<u64, (u8, u64)>
    decreases records.len(),
{
    if records.len() == 0 {
        Map::empty()
    } else {
        oco2_locations(records.drop_last()).insert(
            records.last().oco2_sounding_id,
            (records.last().oco2_file_index, records.last().oco2_sounding_index),
        )
    }
}

/// The number of matched soundings of a record for which identifier, file
/// index and row are all given.
pub open spec fn located_len(r: MatchView) -> nat {
    let a = r.oco3_sounding_ids.len();
    let b = r.oco3_file_indices.len();
    let c = r.oco3_sounding_indices.len();
    if a <= b && a <= c {
        a
    } else if b <= c {
        b
    } else {
        c
    }
}

/// The table `table` after entering the first `n` matched soundings of `r`.
pub open spec fn with_locations(table: Map<u64, (u8, u64)>, r: MatchView, n: nat) -> Map<
    u64,
    (u8, u64),
>
    decreases n,
{
    if n == 0 {
        table
    } else {
        with_locations(table, r, (n - 1) as nat).insert(
            r.oco3_sounding_ids[n - 1],
            (r.oco3_file_indices[n - 1], r.oco3_sounding_indices[n - 1]),
        )
    }
}

/// For each OCO-3 sounding of the records, the file index and row given at
/// its last occurrence.
pub open spec fn oco3_locations(records: Seq<MatchView>) -> Map<u64, (u8, u64)>
    decreases records.len(),
{
    if records.len() == 0 {
        Map::empty()
    } else {
        with_locations(
            oco3_locations(records.drop_last()),
            records.last(),
            located_len(records.last()),
        )
    }
}

/// Distances as values of a running mean.
pub open spec fn as_values(distances: Seq<u32>) -> Seq<i64> {
    distances.map_values(|d: u32| d as i64)
}

/// For each OCO-2 sounding of the records, the running mean of the distances
/// of the last record that carries it.
pub open spec fn distance_means(records: Seq<MatchView>) -> Map<u64, RunningMean>
    decreases records.len(),
{
    if records.len() == 0 {
        Map::empty()
    } else {
        distance_means(records.drop_last()).insert(
            records.last().oco2_sounding_id,
            RunningMean::of(as_values(records.last().distance_m)),
        )
    }
}

/// For each OCO-2 sounding of the records, the running mean of the time
/// differences of the last record that carries it.
pub open spec fn time_diff_means(records: Seq<MatchView>) -> Map<u64, RunningMean>
    decreases records.len(),
{
    if records.len() == 0 {
        Map::empty()
    } else {
        time_diff_means(records.drop_last()).insert(
            records.last().oco2_sounding_id,
            RunningMean::of(records.last().time_diff_ms),
        )
    }
}

/// The mathematical content of an [`OcoMatchGroups`].
pub struct OcoMatchGroupsView {
    pub oco2_lite_files: Seq<String>,
    pub oco3_lite_files: Seq<String>,
    pub match_sets: Seq<GroupView>,
    pub oco2_sounding_indices: Map<u64, (u8, u64)>,
    pub oco3_sounding_indices: Map<u64, (u8, u64)>,
    pub distances: Map<u64, RunningMean>,
    pub time_diffs: Map<u64, RunningMean>,
}

/// The groups of a set of matches, with the tables that describe their
/// soundings.
pub open spec fn grouping(v: OcoMatchesView) -> OcoMatchGroupsView {
    OcoMatchGroupsView {
        oco2_lite_files: v.oco2_files,
        oco3_lite_files: v.oco3_files,
        match_sets: grouped(v.matches),
        oco2_sounding_indices: oco2_locations(v.matches),
        oco3_sounding_indices: oco3_locations(v.matches),
        distances: distance_means(v.matches),
        time_diffs: time_diff_means(v.matches),
    }
}

/// `first_sharing_from` finds the position `k` when no group from `start` up
/// to `k` shares a sounding with the row and the group at `k`, if any, does.
pub proof fn lemma_first_sharing_from(groups: Seq<GroupView>, row: Seq<u64>, start: int, k: int)
    requires
        0 <= start <= k <= groups.len(),
        forall|j: int| start <= j < k ==> !shares_id((#[trigger] groups[j]).oco3_ids, row),
        k < groups.len() ==> shares_id(groups[k].oco3_ids, row),
    ensures
        first_sharing_from(groups, row, start) == k,
    decreases k - start,
{
    if start < k {
        lemma_first_sharing_from(groups, row, start + 1, k);
    }
}

/// What `first_sharing` finds: a position at which the group shares a
/// sounding with the row, or the number of groups; and no group before it
/// shares one.
pub proof fn lemma_first_sharing(groups: Seq<GroupView>, row: Seq<u64>)
    ensures
        0 <= first_sharing(groups, row) <= groups.len(),
        first_sharing(groups, row) < groups.len() ==> shares_id(
            groups[first_sharing(groups, row)].oco3_ids,
            row,
        ),
        forall|j: int|
            0 <= j < first_sharing(groups, row) ==> !shares_id((#[trigger] groups[j]).oco3_ids, row),
{
    lemma_first_sharing_tail(groups, row, 0);
}

proof fn lemma_first_sharing_tail(groups: Seq<GroupView>, row: Seq<u64>, start: int)
    requires
        0 <= start <= groups.len(),
    ensures
        start <= first_sharing_from(groups, row, start) <= groups.len(),
        first_sharing_from(groups, row, start) < groups.len() ==> shares_id(
            groups[first_sharing_from(groups, row, start)].oco3_ids,
            row,
        ),
        forall|j: int|
            start <= j < first_sharing_from(groups, row, start) ==> !shares_id(
                (#[trigger] groups[j]).oco3_ids,
                row,
            ),
    decreases groups.len() - start,
{
    if start < groups.len() && !shares_id(groups[start].oco3_ids, row) {
        lemma_first_sharing_tail(groups, row, start + 1);
    }
}

/// One group: the set of its OCO-2 soundings and the set of its OCO-3
/// soundings.
pub struct MatchSet {
    oco2: IdSet,
    oco3: IdSet,
}

impl View for MatchSet {
    type V = GroupView;

    closed spec fn view(&self) -> GroupView {
        GroupView { oco2_ids: self.oco2@, oco3_ids: self.oco3@ }
    }
}

impl MatchSet {
    /// Both sets are well formed.
    pub closed spec fn wf(&self) -> bool {
        self.oco2.wf() && self.oco3.wf()
    }

    /// The group that a record founds.
    fn found(m: &Match2to3) -> (g: MatchSet)
        ensures
            g.wf(),
            g@ == founded(m@),
    {
        let mut oco2 = IdSet::new();
        oco2.insert(m.oco2_sounding_id);
        let mut oco3 = IdSet::new();
        oco3.extend(&m.oco3_sounding_ids);
        MatchSet { oco2, oco3 }
    }

    /// Lets a record join the group.
    fn join(&mut self, m: &Match2to3)
        requires
            old(self).wf(),
        ensures
            final(self).wf(),
            final(self)@ == joined(old(self)@, m@),
    {
        self.oco2.insert(m.oco2_sounding_id);
        self.oco3.extend(&m.oco3_sounding_ids);
    }
}

/// The contents of a list of groups.
pub open spec fn group_views(sets: Seq<MatchSet>) -> Seq<GroupView> {
    sets.map_values(|g: MatchSet| g@)
}

/// The running mean of a list of distances.
fn mean_of_distances(distances: &Vec<u32>) -> (r: RunningMean)
    ensures
        r == RunningMean::of(as_values(distances@)),
        r.wf(),
{
    let ghost values = as_values(distances@);
    let mut r = RunningMean::new();
    let mut j: usize = 0;
    while j < distances.len()
        invariant
            j <= distances@.len(),
            values == as_values(distances@),
            r.wf(),
            r.sum() == total(values.take(j as int)),
            r.count() == j,
        decreases distances@.len() - j,
    {
        proof {
            let next = values.take(j as int + 1);
            assert(next.drop_last() =~= values.take(j as int));
            assert(next.last() == distances@[j as int] as i64);
        }
        r.add_value(distances[j] as i64);
        j = j + 1;
    }
    proof {
        assert(values.take(values.len() as int) =~= values);
        RunningMean::lemma_of(values);
        RunningMean::lemma_same(r, RunningMean::of(values));
    }
    r
}

/// The groups of a set of matches, with the tables that describe their
/// soundings: for each sounding its file index and row, and for each OCO-2
/// sounding the mean distance and the mean time difference of its matches.
pub struct OcoMatchGroups {
    oco2_lite_files: Vec<String>,
    oco3_lite_files: Vec<String>,
    match_sets: Vec<MatchSet>,
    oco2_sounding_indices: HashMap<u64, (u8, u64)>,
    oco3_sounding_indices: HashMap<u64, (u8, u64)>,
    distances: HashMap<u64, RunningMean>,
    time_diffs: HashMap<u64, RunningMean>,
}

impl View for OcoMatchGroups {
    type V = OcoMatchGroupsView;

    closed spec fn view(&self) -> OcoMatchGroupsView {
        OcoMatchGroupsView {
            oco2_lite_files: self.oco2_lite_files@,
            oco3_lite_files: self.oco3_lite_files@,
            match_sets: group_views(self.match_sets@),
            oco2_sounding_indices: self.oco2_sounding_indices@,
            oco3_sounding_indices: self.oco3_sounding_indices@,
            distances: self.distances@,
            time_diffs: self.time_diffs@,
        }
    }
}

impl OcoMatchGroups {
    /// The sets of every group and the running means of the tables are well
    /// formed.
    pub closed spec fn wf(&self) -> bool {
        &&& forall|k: int| 0 <= k < self.match_sets@.len() ==> (#[trigger] self.match_sets@[k]).wf()
        &&& forall|id: u64| self.distances@.dom().contains(id) ==> (#[trigger] self.distances@[id]).wf()
        &&& forall|id: u64|
            self.time_diffs@.dom().contains(id) ==> (#[trigger] self.time_diffs@[id]).wf()
    }
}

/// Forms the groups of a set of matches.
///
/// The records are taken in the order in which the set holds them: the result
/// depends on that order, and the groups are the intended ones when the
/// records are in ascending order of the OCO-2 sounding identifier, as the
/// matcher delivers them.
pub fn identify_groups_from_matched_soundings(matched_soundings: OcoMatches) -> (groups:
    OcoMatchGroups)
    ensures
        groups.wf(),
        groups@ == grouping(matched_soundings@),
{
    broadcast use vstd::std_specs::hash::group_hash_axioms;

    let ghost views = matched_soundings@.matches;
    let mut match_sets: Vec<MatchSet> = Vec::new();
    let mut oco2_sounding_indices: HashMap<u64, (u8, u64)> = HashMap::new();
    let mut oco3_sounding_indices: HashMap<u64, (u8, u64)> = HashMap::new();
    let mut distances: HashMap<u64, RunningMean> = HashMap::new();
    let mut time_diffs: HashMap<u64, RunningMean> = HashMap::new();

    let mut i: usize = 0;
    assert(views.take(0) =~= Seq::<MatchView>::empty());
    assert(group_views(match_sets@) =~= Seq::<GroupView>::empty());
    while i < matched_soundings.matches.len()
        invariant
            views == record_views(matched_soundings.matches@),
            i <= views.len(),
            forall|k: int| 0 <= k < match_sets@.len() ==> (#[trigger] match_sets@[k]).wf(),
            forall|id: u64| distances@.dom().contains(id) ==> (#[trigger] distances@[id]).wf(),
            forall|id: u64| time_diffs@.dom().contains(id) ==> (#[trigger] time_diffs@[id]).wf(),
            group_views(match_sets@) == grouped(views.take(i as int)),
            oco2_sounding_indices@ == oco2_locations(views.take(i as int)),
            oco3_sounding_indices@ == oco3_locations(views.take(i as int)),
            distances@ == distance_means(views.take(i as int)),
            time_diffs@ == time_diff_means(views.take(i as int)),
        decreases views.len() - i,
    {
        let m = &matched_soundings.matches[i];
        let ghost before = group_views(match_sets@);
        proof {
            let next = views.take(i as int + 1);
            assert(next.drop_last() =~= views.take(i as int));
            assert(next.last() == m@);
        }

        // The first group that shares an OCO-3 sounding with the record.
        let mut k: usize = 0;
        while k < match_sets.len() && !match_sets[k].oco3.shares(&m.oco3_sounding_ids)
            invariant
                k <= match_sets@.len(),
                before == group_views(match_sets@),
                forall|j: int| 0 <= j < match_sets@.len() ==> (#[trigger] match_sets@[j]).wf(),
                forall|j: int|
                    0 <= j < k ==> !shares_id((#[trigger] before[j]).oco3_ids, m@.oco3_sounding_ids),
            decreases match_sets@.len() - k,
        {
            assert(before[k as int] == match_sets@[k as int]@);
            k = k + 1;
        }
        proof {
            if k < match_sets@.len() {
                assert(before[k as int] == match_sets@[k as int]@);
            }
            lemma_first_sharing_from(before, m@.oco3_sounding_ids, 0, k as int);
        }
        if k < match_sets.len() {
            match_sets[k].join(m);
            assert(group_views(match_sets@) =~= before.update(k as int, joined(before[k as int], m@)));
        } else {
            match_sets.push(MatchSet::found(m));
            assert(group_views(match_sets@) =~= before.push(founded(m@)));
        }

        oco2_sounding_indices.insert(m.oco2_sounding_id, (m.oco2_file_index, m.oco2_sounding_index));
        distances.insert(m.oco2_sounding_id, mean_of_distances(&m.distance_m));
        time_diffs.insert(m.oco2_sounding_id, RunningMean::from_slice(m.time_diff_ms.as_slice()));

        let mut n = m.oco3_sounding_ids.len();
        if m.oco3_file_indices.len() < n {
            n = m.oco3_file_indices.len();
        }
        if m.oco3_sounding_indices.len() < n {
            n = m.oco3_sounding_indices.len();
        }
        let ghost table = oco3_sounding_indices@;
        let mut j: usize = 0;
        while j < n
            invariant
                j <= n,
                n == located_len(m@),
                oco3_sounding_indices@ == with_locations(table, m@, j as nat),
            decreases n - j,
        {
            oco3_sounding_indices.insert(
                m.oco3_sounding_ids[j],
                (m.oco3_file_indices[j], m.oco3_sounding_indices[j]),
            );
            j = j + 1;
        }
        i = i + 1;
    }
    proof {
        assert(views.take(views.len() as int) =~= views);
    }
    OcoMatchGroups {
        oco2_lite_files: matched_soundings.oco2_files,
        oco3_lite_files: matched_soundings.oco3_files,
        match_sets,
        oco2_sounding_indices,
        oco3_sounding_indices,
        distances,
        time_diffs,
    }
}

/// The least of the identifiers; the greatest value of the type where there
/// are none.
pub open spec fn min_id(ids: Seq<u64>) -> u64
    decreases ids.len(),
{
    if ids.len() == 0 {
        u64::MAX
    } else if ids.last() < min_id(ids.drop_last()) {
        ids.last()
    } else {
        min_id(ids.drop_last())
    }
}

/// The greatest of the identifiers; 0 where there are none.
pub open spec fn max_id(ids: Seq<u64>) -> u64
    decreases ids.len(),
{
    if ids.len() == 0 {
        0
    } else if ids.last() > max_id(ids.drop_last()) {
        ids.last()
    } else {
        max_id(ids.drop_last())
    }
}

/// Of a list that is not empty, `min_id` and `max_id` are members, and no
/// member is below the one or above the other.
pub proof fn lemma_min_max_id(ids: Seq<u64>)
    requires
        ids.len() > 0,
    ensures
        ids.contains(min_id(ids)),
        ids.contains(max_id(ids)),
        forall|j: int| 0 <= j < ids.len() ==> min_id(ids) <= #[trigger] ids[j] <= max_id(ids),
    decreases ids.len(),
{
    let rest = ids.drop_last();
    assert(ids[ids.len() - 1] == ids.last());
    if rest.len() > 0 {
        lemma_min_max_id(rest);
        let lo = choose|i: int| 0 <= i < rest.len() && rest[i] == min_id(rest);
        assert(ids[lo] == min_id(rest));
        let hi = choose|i: int| 0 <= i < rest.len() && rest[i] == max_id(rest);
        assert(ids[hi] == max_id(rest));
        assert forall|j: int| 0 <= j < ids.len() implies min_id(ids) <= #[trigger] ids[j] <= max_id(
            ids,
        ) by {
            if j < rest.len() {
                assert(rest[j] == ids[j]);
            }
        }
    } else {
        assert(min_id(rest) == u64::MAX && max_id(rest) == 0);
    }
}

/// The means that `table` holds for the identifiers, in their order; an
/// identifier without values has no mean and is passed over.
pub open spec fn defined_means(ids: Seq<u64>, table: Map<u64, RunningMean>) -> Seq<i64>
    decreases ids.len(),
{
    if ids.len() == 0 {
        Seq::empty()
    } else {
        match table[ids.last()].spec_mean() {
            Some(m) => defined_means(ids.drop_last(), table).push(m),
            None => defined_means(ids.drop_last(), table),
        }
    }
}

/// The mean over the OCO-2 soundings of a group of the means that `table`
/// holds for them: a mean of means, in which every sounding counts once,
/// however many matches it has. `None` where no sounding has a mean.
pub open spec fn group_mean(ids: Seq<u64>, table: Map<u64, RunningMean>) -> Option<i64> {
    RunningMean::of(defined_means(ids, table)).spec_mean()
}

/// What is written for one group: the least and the greatest identifier on
/// each side, each with the file index and the row of its sounding, and the
/// mean distance and mean time difference of the group.
#[derive(Debug, Clone, Copy)]
pub struct GroupSummary {
    /// Least and greatest OCO-2 sounding identifier.
    pub oco2_sounding_id: (u64, u64),
    /// File indices of these two OCO-2 soundings.
    pub oco2_file_index: (u8, u8),
    /// Rows of these two OCO-2 soundings.
    pub oco2_sounding_index: (u64, u64),
    /// Least and greatest OCO-3 sounding identifier.
    pub oco3_sounding_id: (u64, u64),
    /// File indices of these two OCO-3 soundings.
    pub oco3_file_index: (u8, u8),
    /// Rows of these two OCO-3 soundings.
    pub oco3_sounding_index: (u64, u64),
    /// Mean over the OCO-2 soundings of their mean distance, in metres.
    pub mean_distance_m: Option<i64>,
    /// Mean over the OCO-2 soundings of their mean time difference, in
    /// milliseconds.
    pub mean_time_diff_ms: Option<i64>,
}

/// Group `k` can be summarised: it has soundings on both sides, the tables of
/// means hold each of its OCO-2 soundings, and the tables of locations hold
/// its least and greatest sounding on each side.
pub open spec fn summarizable(v: OcoMatchGroupsView, k: int) -> bool {
    let g = v.match_sets[k];
    &&& g.oco2_ids.len() > 0
    &&& g.oco3_ids.len() > 0
    &&& forall|j: int|
        0 <= j < g.oco2_ids.len() ==> v.distances.dom().contains(#[trigger] g.oco2_ids[j])
            && v.time_diffs.dom().contains(g.oco2_ids[j])
    &&& v.oco2_sounding_indices.dom().contains(min_id(g.oco2_ids))
    &&& v.oco2_sounding_indices.dom().contains(max_id(g.oco2_ids))
    &&& v.oco3_sounding_indices.dom().contains(min_id(g.oco3_ids))
    &&& v.oco3_sounding_indices.dom().contains(max_id(g.oco3_ids))
}

/// The summary of group `k`.
pub open spec fn summary(v: OcoMatchGroupsView, k: int) -> GroupSummary {
    let g = v.match_sets[k];
    let min2 = min_id(g.oco2_ids);
    let max2 = max_id(g.oco2_ids);
    let min3 = min_id(g.oco3_ids);
    let max3 = max_id(g.oco3_ids);
    GroupSummary {
        oco2_sounding_id: (min2, max2),
        oco2_file_index: (v.oco2_sounding_indices[min2].0, v.oco2_sounding_indices[max2].0),
        oco2_sounding_index: (v.oco2_sounding_indices[min2].1, v.oco2_sounding_indices[max2].1),
        oco3_sounding_id: (min3, max3),
        oco3_file_index: (v.oco3_sounding_indices[min3].0, v.oco3_sounding_indices[max3].0),
        oco3_sounding_index: (v.oco3_sounding_indices[min3].1, v.oco3_sounding_indices[max3].1),
        mean_distance_m: group_mean(g.oco2_ids, v.distances),
        mean_time_diff_ms: group_mean(g.oco2_ids, v.time_diffs),
    }
}

/// The least and the greatest identifier of a set.
fn id_range(ids: &IdSet) -> (r: (u64, u64))
    ensures
        r.0 == min_id(ids@),
        r.1 == max_id(ids@),
{
    let mut lo: u64 = u64::MAX;
    let mut hi: u64 = 0;
    let mut j: usize = 0;
    while j < ids.len()
        invariant
            j <= ids@.len(),
            lo == min_id(ids@.take(j as int)),
            hi == max_id(ids@.take(j as int)),
        decreases ids@.len() - j,
    {
        proof {
            let next = ids@.take(j as int + 1);
            assert(next.drop_last() =~= ids@.take(j as int));
            assert(next.last() == ids@[j as int]);
        }
        let id = ids.get(j);
        if id < lo {
            lo = id;
        }
        if id > hi {
            hi = id;
        }
        j = j + 1;
    }
    proof {
        assert(ids@.take(ids@.len() as int) =~= ids@);
    }
    (lo, hi)
}

/// The entry of a table of locations for `id`, if there is one.
fn location_of(table: &HashMap<u64, (u8, u64)>, id: u64) -> (r: Option<(u8, u64)>)
    ensures
        r == if table@.dom().contains(id) {
            Some(table@[id])
        } else {
            None
        },
{
    broadcast use vstd::std_specs::hash::group_hash_axioms;

    match table.get(&id) {
        Some(loc) => Some(*loc),
        None => None,
    }
}

/// The mean over the identifiers of the means that `table` holds for them;
/// `None` if and only if the table lacks one of the identifiers.
fn mean_of_means(ids: &IdSet, table: &HashMap<u64, RunningMean>) -> (r: Option<Option<i64>>)
    requires
        forall|id: u64| table@.dom().contains(id) ==> (#[trigger] table@[id]).wf(),
    ensures
        r is Some <==> forall|j: int| 0 <= j < ids@.len() ==> table@.dom().contains(#[trigger] ids@[j]),
        r matches Some(m) ==> m == group_mean(ids@, table@),
{
    broadcast use vstd::std_specs::hash::group_hash_axioms;

    let mut acc = RunningMean::new();
    let mut j: usize = 0;
    while j < ids.len()
        invariant
            j <= ids@.len(),
            forall|id: u64| table@.dom().contains(id) ==> (#[trigger] table@[id]).wf(),
            forall|l: int| 0 <= l < j ==> table@.dom().contains(#[trigger] ids@[l]),
            acc.wf(),
            acc.sum() == total(defined_means(ids@.take(j as int), table@)),
            acc.count() == defined_means(ids@.take(j as int), table@).len(),
            acc.count() <= j,
        decreases ids@.len() - j,
    {
        proof {
            let next = ids@.take(j as int + 1);
            assert(next.drop_last() =~= ids@.take(j as int));
            assert(next.last() == ids@[j as int]);
        }
        let id = ids.get(j);
        match table.get(&id) {
            Some(mean) => {
                if let Some(m) = mean.mean() {
                    proof {
                        let means = defined_means(ids@.take(j as int + 1), table@);
                        assert(means.drop_last() =~= defined_means(ids@.take(j as int), table@));
                    }
                    acc.add_value(m);
                }
            },
            None => {
                return None;
            },
        }
        j = j + 1;
    }
    proof {
        assert(ids@.take(ids@.len() as int) =~= ids@);
        let means = defined_means(ids@, table@);
        RunningMean::lemma_of(means);
        RunningMean::lemma_same(acc, RunningMean::of(means));
    }
    Some(acc.mean())
}

impl OcoMatchGroups {
    /// The OCO-2 files that the soundings came from.
    pub fn oco2_lite_files(&self) -> (files: &Vec<String>)
        ensures
            files@ == self@.oco2_lite_files,
    {
        &self.oco2_lite_files
    }

    /// The OCO-3 files that the soundings came from.
    pub fn oco3_lite_files(&self) -> (files: &Vec<String>)
        ensures
            files@ == self@.oco3_lite_files,
    {
        &self.oco3_lite_files
    }

    /// The number of groups.
    pub fn num_groups(&self) -> (n: usize)
        ensures
            n == self@.match_sets.len(),
    {
        self.match_sets.len()
    }

    /// The OCO-2 sounding identifiers of group `k`, in the order of joining.
    pub fn oco2_ids(&self, k: usize) -> (ids: &Vec<u64>)
        requires
            k < self@.match_sets.len(),
        ensures
            ids@ == self@.match_sets[k as int].oco2_ids,
    {
        self.match_sets[k].oco2.ids()
    }

    /// The OCO-3 sounding identifiers of group `k`, in the order of joining.
    pub fn oco3_ids(&self, k: usize) -> (ids: &Vec<u64>)
        requires
            k < self@.match_sets.len(),
        ensures
            ids@ == self@.match_sets[k as int].oco3_ids,
    {
        self.match_sets[k].oco3.ids()
    }

    /// The summary of group `k`, or `None` if and only if the group cannot be
    /// summarised.
    fn summarize(&self, k: usize) -> (r: Option<GroupSummary>)
        requires
            self.wf(),
            k < self@.match_sets.len(),
        ensures
            r is Some <==> summarizable(self@, k as int),
            r matches Some(s) ==> s == summary(self@, k as int),
    {
        let g = &self.match_sets[k];
        assert(g@ == self@.match_sets[k as int]);
        assert(g.wf());
        if g.oco2.len() == 0 || g.oco3.len() == 0 {
            return None;
        }
        let (min2, max2) = id_range(&g.oco2);
        let (min3, max3) = id_range(&g.oco3);
        let mean_distance_m = match mean_of_means(&g.oco2, &self.distances) {
            Some(m) => m,
            None => {
                return None;
            },
        };
        let mean_time_diff_ms = match mean_of_means(&g.oco2, &self.time_diffs) {
            Some(m) => m,
            None => {
                return None;
            },
        };
        let lo2 = location_of(&self.oco2_sounding_indices, min2);
        let hi2 = location_of(&self.oco2_sounding_indices, max2);
        let lo3 = location_of(&self.oco3_sounding_indices, min3);
        let hi3 = location_of(&self.oco3_sounding_indices, max3);
        match (lo2, hi2, lo3, hi3) {
            (Some(lo2), Some(hi2), Some(lo3), Some(hi3)) => Some(
                GroupSummary {
                    oco2_sounding_id: (min2, max2),
                    oco2_file_index: (lo2.0, hi2.0),
                    oco2_sounding_index: (lo2.1, hi2.1),
                    oco3_sounding_id: (min3, max3),
                    oco3_file_index: (lo3.0, hi3.0),
                    oco3_sounding_index: (lo3.1, hi3.1),
                    mean_distance_m,
                    mean_time_diff_ms,
                },
            ),
            _ => None,
        }
    }

    /// The values that are written for the groups, one summary per group in
    /// the order of the groups.
    ///
    /// Fails with an `InternalError` if and only if some group cannot be
    /// summarised: a group lacks soundings on one side, or a table lacks a
    /// sounding that it must hold.
    pub fn to_nc_group(&self) -> (r: Result<Vec<GroupSummary>, MatchupError>)
        requires
            self.wf(),
        ensures
            r is Ok <==> forall|k: int| 0 <= k < self@.match_sets.len() ==> summarizable(self@, k),
            r matches Ok(s) ==> s@.len() == self@.match_sets.len() && forall|k: int|
                0 <= k < s@.len() ==> #[trigger] s@[k] == summary(self@, k),
            r matches Err(e) ==> e is InternalError,
    {
        let mut out: Vec<GroupSummary> = Vec::new();
        let mut k: usize = 0;
        while k < self.match_sets.len()
            invariant
                self.wf(),
                k <= self@.match_sets.len(),
                self@.match_sets.len() == self.match_sets@.len(),
                out@.len() == k,
                forall|l: int| 0 <= l < k ==> summarizable(self@, l),
                forall|l: int| 0 <= l < k ==> #[trigger] out@[l] == summary(self@, l),
            decreases self.match_sets@.len() - k,
        {
            match self.summarize(k) {
                Some(s) => {
                    out.push(s);
                },
                None => {
                    assert(!summarizable(self@, k as int));
                    return Err(
                        MatchupError::internal("A group lacks soundings or an entry of a table"),
                    );
                },
            }
            k = k + 1;
        }
        Ok(out)
    }
}

} // verus!

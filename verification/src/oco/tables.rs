//! What the tables of a grouping hold, and why the groups of well-formed
//! records can always be summarised.

use vstd::prelude::*;
use crate::oco::groups::GroupView;
use crate::oco::groups::distance_means;
use crate::oco::groups::grouped;
use crate::oco::groups::grouping;
use crate::oco::groups::lemma_min_max_id;
use crate::oco::groups::located_len;
use crate::oco::groups::max_id;
use crate::oco::groups::min_id;
use crate::oco::groups::oco2_locations;
use crate::oco::groups::oco3_locations;
use crate::oco::groups::summarizable;
use crate::oco::groups::time_diff_means;
use crate::oco::groups::with_locations;
use crate::oco::matches::OcoMatchesView;
use crate::oco::matches::all_consistent;
use crate::oco::partition::in_oco2;
use crate::oco::partition::in_oco3;
use crate::oco::partition::is_oco2_of;
use crate::oco::partition::is_oco3_of;
use crate::oco::partition::lemma_groups_cover;
use crate::oco::partition::lemma_groups_not_empty;
use crate::oco::record::MatchView;

verus! {

/// Every record lists at least one match.
pub open spec fn all_matched(records: Seq<MatchView>) -> bool {
    forall|i: int| 0 <= i < records.len() ==> (#[trigger] records[i]).fanout() > 0
}

/// The three tables that are keyed by OCO-2 sounding hold exactly the OCO-2
/// soundings that have a record.
pub proof fn lemma_oco2_tables(records: Seq<MatchView>)
    ensures
        forall|id: u64| oco2_locations(records).dom().contains(id) <==> is_oco2_of(records, id),
        forall|id: u64| distance_means(records).dom().contains(id) <==> is_oco2_of(records, id),
        forall|id: u64| time_diff_means(records).dom().contains(id) <==> is_oco2_of(records, id),
    decreases records.len(),
{
    if records.len() > 0 {
        let rest = records.drop_last();
        let r = records.last();
        lemma_oco2_tables(rest);
        assert(records[records.len() - 1] == r);
        assert forall|id: u64| is_oco2_of(records, id) <==> is_oco2_of(rest, id) || id
            == r.oco2_sounding_id by {
            if is_oco2_of(records, id) {
                let i = choose|i: int|
                    0 <= i < records.len() && (#[trigger] records[i]).oco2_sounding_id == id;
                if i < rest.len() {
                    assert(rest[i] == records[i]);
                }
            }
            if is_oco2_of(rest, id) {
                let i = choose|i: int| 0 <= i < rest.len() && (#[trigger] rest[i]).oco2_sounding_id == id;
                assert(records[i] == rest[i]);
            }
        }
    }
}

/// Entering the first `n` matched soundings of a record adds these soundings
/// to the table and keeps the others.
pub proof fn lemma_with_locations(table: Map<u64, (u8, u64)>, r: MatchView, n: nat)
    requires
        n <= r.oco3_sounding_ids.len(),
    ensures
        forall|id: u64|
            #![trigger with_locations(table, r, n).dom().contains(id)]
            with_locations(table, r, n).dom().contains(id) <==> table.dom().contains(id)
                || r.oco3_sounding_ids.take(n as int).contains(id),
    decreases n,
{
    if n > 0 {
        lemma_with_locations(table, r, (n - 1) as nat);
        let prev = with_locations(table, r, (n - 1) as nat);
        let now = with_locations(table, r, n);
        let before = r.oco3_sounding_ids.take(n - 1);
        let upto = r.oco3_sounding_ids.take(n as int);
        let last = r.oco3_sounding_ids[n - 1];
        assert(upto =~= before.push(last));
        assert forall|id: u64|
            #![trigger now.dom().contains(id)]
            now.dom().contains(id) <==> table.dom().contains(id) || upto.contains(id) by {
            assert(prev.dom().contains(id) <==> table.dom().contains(id) || before.contains(id));
            assert(now.dom().contains(id) <==> prev.dom().contains(id) || id == last);
            if before.contains(id) {
                let j = choose|j: int| 0 <= j < before.len() && before[j] == id;
                assert(upto[j] == id);
            }
            if id == last {
                assert(upto[n - 1] == id);
            }
            if upto.contains(id) {
                let j = choose|j: int| 0 <= j < upto.len() && upto[j] == id;
                if j < n - 1 {
                    assert(before[j] == id);
                }
            }
        }
    }
}

/// The table of OCO-3 locations of consistent records holds every OCO-3
/// sounding that some record lists.
pub proof fn lemma_oco3_table(records: Seq<MatchView>)
    requires
        all_consistent(records),
    ensures
        forall|id: u64| is_oco3_of(records, id) ==> oco3_locations(records).dom().contains(id),
    decreases records.len(),
{
    if records.len() > 0 {
        let rest = records.drop_last();
        let r = records.last();
        assert(records[records.len() - 1] == r);
        assert(r.consistent());
        assert(located_len(r) == r.oco3_sounding_ids.len());
        assert(r.oco3_sounding_ids.take(located_len(r) as int) =~= r.oco3_sounding_ids);
        assert forall|i: int| 0 <= i < rest.len() implies (#[trigger] rest[i]).consistent() by {
            assert(rest[i] == records[i]);
        }
        lemma_oco3_table(rest);
        lemma_with_locations(oco3_locations(rest), r, located_len(r));
        assert forall|id: u64| is_oco3_of(records, id) implies oco3_locations(records).dom().contains(
            id,
        ) by {
            let i = choose|i: int|
                0 <= i < records.len() && (#[trigger] records[i]).oco3_sounding_ids.contains(id);
            if i < rest.len() {
                assert(rest[i] == records[i]);
                assert(is_oco3_of(rest, id));
                assert(oco3_locations(rest).dom().contains(id));
            } else {
                assert(r.oco3_sounding_ids.contains(id));
            }
            assert(with_locations(oco3_locations(rest), r, located_len(r)).dom().contains(id));
        }
    }
}

/// Every group of a set of matches can be summarised, provided that every
/// record is consistent and lists at least one match, as the records of the
/// matcher do.
pub proof fn lemma_groups_summarizable(v: OcoMatchesView)
    requires
        all_consistent(v.matches),
        all_matched(v.matches),
    ensures
        forall|k: int| 0 <= k < grouping(v).match_sets.len() ==> summarizable(grouping(v), k),
{
    let records = v.matches;
    let groups = grouped(records);
    let whole = grouping(v);
    lemma_groups_cover(records);
    lemma_groups_not_empty(records);
    lemma_oco2_tables(records);
    lemma_oco3_table(records);
    assert forall|k: int| 0 <= k < groups.len() implies summarizable(whole, k) by {
        let g: GroupView = groups[k];
        assert(g.oco2_ids.len() > 0);
        assert(g.oco3_ids.len() > 0);
        lemma_min_max_id(g.oco2_ids);
        lemma_min_max_id(g.oco3_ids);
        assert forall|id: u64| g.oco2_ids.contains(id) implies is_oco2_of(records, id) by {
            assert(in_oco2(groups, id));
        }
        assert forall|id: u64| g.oco3_ids.contains(id) implies is_oco3_of(records, id) by {
            assert(in_oco3(groups, id));
        }
        assert forall|j: int| 0 <= j < g.oco2_ids.len() implies whole.distances.dom().contains(
            #[trigger] g.oco2_ids[j],
        ) && whole.time_diffs.dom().contains(g.oco2_ids[j]) by {
            let id = g.oco2_ids[j];
            assert(g.oco2_ids.contains(id));
            assert(is_oco2_of(records, id));
            assert(distance_means(records).dom().contains(id));
            assert(time_diff_means(records).dom().contains(id));
        }
        assert(is_oco2_of(records, min_id(g.oco2_ids)));
        assert(is_oco2_of(records, max_id(g.oco2_ids)));
        assert(is_oco3_of(records, min_id(g.oco3_ids)));
        assert(is_oco3_of(records, max_id(g.oco3_ids)));
        assert(oco2_locations(records).dom().contains(min_id(g.oco2_ids)));
        assert(oco2_locations(records).dom().contains(max_id(g.oco2_ids)));
        assert(oco3_locations(records).dom().contains(min_id(g.oco3_ids)));
        assert(oco3_locations(records).dom().contains(max_id(g.oco3_ids)));
    }
}

} // verus!

//! What holds of the groups that a list of match records forms: which
//! soundings they hold, and when no sounding is in two groups.

use vstd::prelude::*;
use crate::oco::groups::GroupView;
use crate::oco::groups::OcoMatchGroupsView;
use crate::oco::groups::first_sharing;
use crate::oco::groups::founded;
use crate::oco::groups::grouped;
use crate::oco::groups::grouping;
use crate::oco::groups::joined;
use crate::oco::groups::lemma_first_sharing;
use crate::oco::groups::with_record;
use crate::oco::idset::lemma_add_id;
use crate::oco::idset::lemma_add_ids;
use crate::oco::idset::shares_id;
use crate::oco::matches::OcoMatchesView;
use crate::oco::order::distinct_oco2_ids;
use crate::oco::record::MatchView;

verus! {

/// Some group holds the OCO-2 sounding `id`.
pub open spec fn in_oco2(groups: Seq<GroupView>, id: u64) -> bool {
    exists|k: int| 0 <= k < groups.len() && (#[trigger] groups[k]).oco2_ids.contains(id)
}

/// Some group holds the OCO-3 sounding `id`.
pub open spec fn in_oco3(groups: Seq<GroupView>, id: u64) -> bool {
    exists|k: int| 0 <= k < groups.len() && (#[trigger] groups[k]).oco3_ids.contains(id)
}

/// Some record is the record of the OCO-2 sounding `id`.
pub open spec fn is_oco2_of(records: Seq<MatchView>, id: u64) -> bool {
    exists|i: int| 0 <= i < records.len() && (#[trigger] records[i]).oco2_sounding_id == id
}

/// Some record lists the OCO-3 sounding `id` among its matches.
pub open spec fn is_oco3_of(records: Seq<MatchView>, id: u64) -> bool {
    exists|i: int| 0 <= i < records.len() && (#[trigger] records[i]).oco3_sounding_ids.contains(id)
}

/// No OCO-2 sounding is in two groups.
pub open spec fn oco2_disjoint(groups: Seq<GroupView>) -> bool {
    forall|j: int, k: int, id: u64|
        0 <= j < k < groups.len() ==> !(#[trigger] groups[j].oco2_ids.contains(id)
            && #[trigger] groups[k].oco2_ids.contains(id))
}

/// No OCO-3 sounding is in two groups.
pub open spec fn oco3_disjoint(groups: Seq<GroupView>) -> bool {
    forall|j: int, k: int, id: u64|
        0 <= j < k < groups.len() ==> !(#[trigger] groups[j].oco3_ids.contains(id)
            && #[trigger] groups[k].oco3_ids.contains(id))
}

/// The OCO-2 sounding of the record `r` is in no group but the one that the
/// record joins.
pub open spec fn joins_apart_oco2(groups: Seq<GroupView>, r: MatchView) -> bool {
    forall|j: int|
        0 <= j < groups.len() && j != first_sharing(groups, r.oco3_sounding_ids) ==> !(
        #[trigger] groups[j]).oco2_ids.contains(r.oco2_sounding_id)
}

/// The record `r` shares an OCO-3 sounding with no group but the one that it
/// joins: it does not link two groups.
pub open spec fn joins_apart_oco3(groups: Seq<GroupView>, r: MatchView) -> bool {
    forall|j: int|
        0 <= j < groups.len() && j != first_sharing(groups, r.oco3_sounding_ids) ==> !shares_id(
            (#[trigger] groups[j]).oco3_ids,
            r.oco3_sounding_ids,
        )
}

/// The condition `p` holds of every record at its turn: of the groups that
/// the records before it have formed, and the record.
pub open spec fn at_every_turn(
    records: Seq<MatchView>,
    p: spec_fn(Seq<GroupView>, MatchView) -> bool,
) -> bool {
    forall|n: int| 0 <= n < records.len() ==> p(grouped(records.take(n)), #[trigger] records[n])
}

/// Every record, at its turn, finds its OCO-2 sounding in no group but the
/// one that it joins.
pub open spec fn always_apart_oco2(records: Seq<MatchView>) -> bool {
    at_every_turn(records, |g: Seq<GroupView>, r: MatchView| joins_apart_oco2(g, r))
}

/// No record, at its turn, links two groups.
pub open spec fn always_apart_oco3(records: Seq<MatchView>) -> bool {
    at_every_turn(records, |g: Seq<GroupView>, r: MatchView| joins_apart_oco3(g, r))
}

/// A condition holds at every turn if and only if it holds at every turn but
/// the last, and at the last.
pub proof fn lemma_at_every_turn(
    records: Seq<MatchView>,
    p: spec_fn(Seq<GroupView>, MatchView) -> bool,
)
    requires
        records.len() > 0,
    ensures
        at_every_turn(records, p) <==> at_every_turn(records.drop_last(), p) && p(
            grouped(records.drop_last()),
            records.last(),
        ),
{
    let rest = records.drop_last();
    let last = records.len() - 1;
    assert(records.take(last) =~= rest);
    assert(records[last] == records.last());
    if at_every_turn(records, p) {
        assert forall|n: int| 0 <= n < rest.len() implies p(
            grouped(rest.take(n)),
            #[trigger] rest[n],
        ) by {
            assert(records.take(n) =~= rest.take(n));
            assert(p(grouped(records.take(n)), records[n]));
        }
        assert(p(grouped(records.take(last)), records[last]));
    }
    if at_every_turn(rest, p) && p(grouped(rest), records.last()) {
        assert forall|n: int| 0 <= n < records.len() implies p(
            grouped(records.take(n)),
            #[trigger] records[n],
        ) by {
            if n < last {
                assert(records.take(n) =~= rest.take(n));
                assert(p(grouped(rest.take(n)), rest[n]));
            }
        }
    }
}

/// What one more record changes: the group at the position that
/// `first_sharing` finds becomes that group joined by the record, or, behind
/// the last group, the group that the record founds; every other group stays.
pub proof fn lemma_with_record(groups: Seq<GroupView>, r: MatchView)
    ensures
        0 <= first_sharing(groups, r.oco3_sounding_ids) <= groups.len(),
        first_sharing(groups, r.oco3_sounding_ids) < groups.len() ==> with_record(groups, r).len()
            == groups.len() && with_record(groups, r)[first_sharing(groups, r.oco3_sounding_ids)]
            == joined(groups[first_sharing(groups, r.oco3_sounding_ids)], r),
        first_sharing(groups, r.oco3_sounding_ids) == groups.len() ==> with_record(groups, r).len()
            == groups.len() + 1 && with_record(groups, r)[groups.len() as int] == founded(r),
        forall|j: int|
            0 <= j < groups.len() && j != first_sharing(groups, r.oco3_sounding_ids)
                ==> #[trigger] with_record(groups, r)[j] == groups[j],
        forall|g: GroupView, x: u64|
            #![trigger joined(g, r).oco2_ids.contains(x)]
            joined(g, r).oco2_ids.contains(x) <==> g.oco2_ids.contains(x) || x == r.oco2_sounding_id,
        forall|g: GroupView, x: u64|
            #![trigger joined(g, r).oco3_ids.contains(x)]
            joined(g, r).oco3_ids.contains(x) <==> g.oco3_ids.contains(x)
                || r.oco3_sounding_ids.contains(x),
{
    lemma_first_sharing(groups, r.oco3_sounding_ids);
    assert forall|g: GroupView, x: u64|
        #![trigger joined(g, r).oco2_ids.contains(x)]
        joined(g, r).oco2_ids.contains(x) <==> g.oco2_ids.contains(x) || x
            == r.oco2_sounding_id by {
        lemma_add_id(g.oco2_ids, r.oco2_sounding_id);
    }
    assert forall|g: GroupView, x: u64|
        #![trigger joined(g, r).oco3_ids.contains(x)]
        joined(g, r).oco3_ids.contains(x) <==> g.oco3_ids.contains(x)
            || r.oco3_sounding_ids.contains(x) by {
        lemma_add_ids(g.oco3_ids, r.oco3_sounding_ids);
    }
}

/// One more record adds its soundings to those that the groups hold, and
/// nothing else.
pub proof fn lemma_with_record_members(groups: Seq<GroupView>, r: MatchView)
    ensures
        forall|id: u64|
            in_oco2(with_record(groups, r), id) <==> in_oco2(groups, id) || id == r.oco2_sounding_id,
        forall|id: u64|
            in_oco3(with_record(groups, r), id) <==> in_oco3(groups, id)
                || r.oco3_sounding_ids.contains(id),
{
    lemma_with_record(groups, r);
    let k = first_sharing(groups, r.oco3_sounding_ids);
    let after = with_record(groups, r);
    let empty = GroupView { oco2_ids: Seq::empty(), oco3_ids: Seq::empty() };
    assert(founded(r) == joined(empty, r));
    assert forall|id: u64| in_oco2(after, id) <==> in_oco2(groups, id) || id
        == r.oco2_sounding_id by {
        if in_oco2(after, id) {
            let j = choose|j: int| 0 <= j < after.len() && (#[trigger] after[j]).oco2_ids.contains(id);
            if j != k {
                assert(after[j] == groups[j]);
                assert(groups[j].oco2_ids.contains(id));
            } else if k < groups.len() {
                assert(joined(groups[k], r).oco2_ids.contains(id));
                if id != r.oco2_sounding_id {
                    assert(groups[k].oco2_ids.contains(id));
                }
            } else {
                assert(joined(empty, r).oco2_ids.contains(id));
            }
        }
        if in_oco2(groups, id) {
            let j = choose|j: int| 0 <= j < groups.len() && (#[trigger] groups[j]).oco2_ids.contains(id);
            if j != k {
                assert(after[j] == groups[j]);
            } else {
                assert(joined(groups[k], r).oco2_ids.contains(id));
                assert(after[k].oco2_ids.contains(id));
            }
        }
        if id == r.oco2_sounding_id {
            if k < groups.len() {
                assert(joined(groups[k], r).oco2_ids.contains(id));
            } else {
                assert(joined(empty, r).oco2_ids.contains(id));
            }
            assert(after[k].oco2_ids.contains(id));
        }
    }
    assert forall|id: u64| in_oco3(after, id) <==> in_oco3(groups, id)
        || r.oco3_sounding_ids.contains(id) by {
        if in_oco3(after, id) {
            let j = choose|j: int| 0 <= j < after.len() && (#[trigger] after[j]).oco3_ids.contains(id);
            if j != k {
                assert(after[j] == groups[j]);
                assert(groups[j].oco3_ids.contains(id));
            } else if k < groups.len() {
                assert(joined(groups[k], r).oco3_ids.contains(id));
                if !r.oco3_sounding_ids.contains(id) {
                    assert(groups[k].oco3_ids.contains(id));
                }
            } else {
                assert(joined(empty, r).oco3_ids.contains(id));
            }
        }
        if in_oco3(groups, id) {
            let j = choose|j: int| 0 <= j < groups.len() && (#[trigger] groups[j]).oco3_ids.contains(id);
            if j != k {
                assert(after[j] == groups[j]);
            } else {
                assert(joined(groups[k], r).oco3_ids.contains(id));
                assert(after[k].oco3_ids.contains(id));
            }
        }
        if r.oco3_sounding_ids.contains(id) {
            if k < groups.len() {
                assert(joined(groups[k], r).oco3_ids.contains(id));
            } else {
                assert(joined(empty, r).oco3_ids.contains(id));
            }
            assert(after[k].oco3_ids.contains(id));
        }
    }
}

/// The groups hold exactly the soundings of the records: an OCO-2 sounding is
/// in some group if and only if it has a record, and an OCO-3 sounding is in
/// some group if and only if some record lists it.
pub proof fn lemma_groups_cover(records: Seq<MatchView>)
    ensures
        forall|id: u64| in_oco2(grouped(records), id) <==> is_oco2_of(records, id),
        forall|id: u64| in_oco3(grouped(records), id) <==> is_oco3_of(records, id),
    decreases records.len(),
{
    if records.len() > 0 {
        let rest = records.drop_last();
        let r = records.last();
        lemma_groups_cover(rest);
        lemma_with_record_members(grouped(rest), r);
        assert(records[records.len() - 1] == r);
        assert forall|id: u64| is_oco2_of(records, id) <==> is_oco2_of(rest, id) || id
            == r.oco2_sounding_id by {
            if is_oco2_of(records, id) {
                let i = choose|i: int|
                    0 <= i < records.len() && (#[trigger] records[i]).oco2_sounding_id == id;
                if i < rest.len() {
                    assert(rest[i] == records[i]);
                }
            }
            if is_oco2_of(rest, id) {
                let i = choose|i: int| 0 <= i < rest.len() && (#[trigger] rest[i]).oco2_sounding_id == id;
                assert(records[i] == rest[i]);
            }
        }
        assert forall|id: u64| is_oco3_of(records, id) <==> is_oco3_of(rest, id)
            || r.oco3_sounding_ids.contains(id) by {
            if is_oco3_of(records, id) {
                let i = choose|i: int|
                    0 <= i < records.len() && (#[trigger] records[i]).oco3_sounding_ids.contains(id);
                if i < rest.len() {
                    assert(rest[i] == records[i]);
                }
            }
            if is_oco3_of(rest, id) {
                let i = choose|i: int|
                    0 <= i < rest.len() && (#[trigger] rest[i]).oco3_sounding_ids.contains(id);
                assert(records[i] == rest[i]);
            }
        }
    }
}

/// Every group holds an OCO-2 sounding; and where every record lists a match,
/// every group holds an OCO-3 sounding too.
pub proof fn lemma_groups_not_empty(records: Seq<MatchView>)
    ensures
        forall|k: int| 0 <= k < grouped(records).len() ==> (#[trigger] grouped(records)[k]).oco2_ids.len() > 0,
        (forall|i: int| 0 <= i < records.len() ==> (#[trigger] records[i]).fanout() > 0) ==> forall|
            k: int,
        |
            0 <= k < grouped(records).len() ==> (#[trigger] grouped(records)[k]).oco3_ids.len() > 0,
    decreases records.len(),
{
    if records.len() > 0 {
        let rest = records.drop_last();
        let r = records.last();
        let groups = grouped(rest);
        let after = grouped(records);
        let pos = first_sharing(groups, r.oco3_sounding_ids);
        let empty = GroupView { oco2_ids: Seq::empty(), oco3_ids: Seq::empty() };
        lemma_groups_not_empty(rest);
        lemma_with_record(groups, r);
        assert(records[records.len() - 1] == r);
        assert forall|k: int| 0 <= k < after.len() implies (#[trigger] after[k]).oco2_ids.len() > 0 by {
            if k != pos {
                assert(after[k] == groups[k]);
            } else {
                let g = if pos < groups.len() {
                    groups[pos]
                } else {
                    empty
                };
                assert(after[k] == joined(g, r));
                assert(joined(g, r).oco2_ids.contains(r.oco2_sounding_id));
            }
        }
        if forall|i: int| 0 <= i < records.len() ==> (#[trigger] records[i]).fanout() > 0 {
            assert forall|i: int| 0 <= i < rest.len() implies (#[trigger] rest[i]).fanout() > 0 by {
                assert(rest[i] == records[i]);
            }
            assert forall|k: int| 0 <= k < after.len() implies (#[trigger] after[k]).oco3_ids.len()
                > 0 by {
                if k != pos {
                    assert(after[k] == groups[k]);
                } else {
                    let g = if pos < groups.len() {
                        groups[pos]
                    } else {
                        empty
                    };
                    assert(after[k] == joined(g, r));
                    lemma_add_ids(g.oco3_ids, r.oco3_sounding_ids);
                }
            }
        }
    }
}

/// One more record keeps the OCO-2 soundings of the groups apart if and only
/// if they were apart and the OCO-2 sounding of the record is in no
/// group but the one that the record joins.
pub proof fn lemma_step_oco2(groups: Seq<GroupView>, r: MatchView)
    ensures
        oco2_disjoint(with_record(groups, r)) <==> oco2_disjoint(groups) && joins_apart_oco2(
            groups,
            r,
        ),
{
    lemma_with_record(groups, r);
    let pos = first_sharing(groups, r.oco3_sounding_ids);
    let after = with_record(groups, r);
    let empty = GroupView { oco2_ids: Seq::empty(), oco3_ids: Seq::empty() };
    let base = if pos < groups.len() {
        groups[pos]
    } else {
        empty
    };
    assert(after[pos] == joined(base, r));
    if oco2_disjoint(groups) && joins_apart_oco2(groups, r) {
        assert forall|j: int, k: int, id: u64| 0 <= j < k < after.len() implies !(
        #[trigger] after[j].oco2_ids.contains(id) && #[trigger] after[k].oco2_ids.contains(id)) by {
            if after[j].oco2_ids.contains(id) && after[k].oco2_ids.contains(id) {
                if j != pos && k != pos {
                    assert(after[j] == groups[j] && after[k] == groups[k]);
                    assert(groups[j].oco2_ids.contains(id) && groups[k].oco2_ids.contains(id));
                } else {
                    let other = if j == pos {
                        k
                    } else {
                        j
                    };
                    assert(after[other] == groups[other]);
                    assert(groups[other].oco2_ids.contains(id));
                    assert(joined(base, r).oco2_ids.contains(id));
                    if base.oco2_ids.contains(id) {
                        assert(pos < groups.len());
                        assert(groups[pos].oco2_ids.contains(id));
                        if pos < other {
                            assert(!(groups[pos].oco2_ids.contains(id) && groups[other].oco2_ids.contains(
                                id,
                            )));
                        } else {
                            assert(!(groups[other].oco2_ids.contains(id) && groups[pos].oco2_ids.contains(
                                id,
                            )));
                        }
                    } else {
                        assert(id == r.oco2_sounding_id);
                        assert(!groups[other].oco2_ids.contains(r.oco2_sounding_id));
                    }
                }
            }
        }
    }
    if oco2_disjoint(after) {
        assert forall|j: int, k: int, id: u64| 0 <= j < k < groups.len() implies !(
        #[trigger] groups[j].oco2_ids.contains(id) && #[trigger] groups[k].oco2_ids.contains(id)) by {
            if groups[j].oco2_ids.contains(id) && groups[k].oco2_ids.contains(id) {
                assert(joined(groups[j], r).oco2_ids.contains(id));
                assert(joined(groups[k], r).oco2_ids.contains(id));
                assert(after[j].oco2_ids.contains(id));
                assert(after[k].oco2_ids.contains(id));
            }
        }
        assert forall|j: int| 0 <= j < groups.len() && j != pos implies !(#[trigger] groups[j]).oco2_ids.contains(r.oco2_sounding_id) by {
            if groups[j].oco2_ids.contains(r.oco2_sounding_id) {
                let id = r.oco2_sounding_id;
                assert(after[j] == groups[j]);
                assert(joined(base, r).oco2_ids.contains(id));
                assert(after[j].oco2_ids.contains(id) && after[pos].oco2_ids.contains(id));
                if j < pos {
                    assert(!(after[j].oco2_ids.contains(id) && after[pos].oco2_ids.contains(id)));
                } else {
                    assert(!(after[pos].oco2_ids.contains(id) && after[j].oco2_ids.contains(id)));
                }
            }
        }
    }
}

/// No OCO-2 sounding is in two groups if and only if every record, at its
/// turn, finds its OCO-2 sounding in no group but the one that it joins.
pub proof fn lemma_oco2_disjoint(records: Seq<MatchView>)
    ensures
        oco2_disjoint(grouped(records)) <==> always_apart_oco2(records),
    decreases records.len(),
{
    if records.len() > 0 {
        lemma_oco2_disjoint(records.drop_last());
        lemma_step_oco2(grouped(records.drop_last()), records.last());
        lemma_at_every_turn(records, |g: Seq<GroupView>, r: MatchView| joins_apart_oco2(g, r));
    }
}

/// One more record keeps the OCO-3 soundings of the groups apart if and only
/// if they were apart and the record shares an OCO-3 sounding with no
/// group but the one that it joins.
pub proof fn lemma_step_oco3(groups: Seq<GroupView>, r: MatchView)
    ensures
        oco3_disjoint(with_record(groups, r)) <==> oco3_disjoint(groups) && joins_apart_oco3(
            groups,
            r,
        ),
{
    lemma_with_record(groups, r);
    let pos = first_sharing(groups, r.oco3_sounding_ids);
    let after = with_record(groups, r);
    let empty = GroupView { oco2_ids: Seq::empty(), oco3_ids: Seq::empty() };
    let base = if pos < groups.len() {
        groups[pos]
    } else {
        empty
    };
    assert(after[pos] == joined(base, r));
    if oco3_disjoint(groups) && joins_apart_oco3(groups, r) {
        assert forall|j: int, k: int, id: u64| 0 <= j < k < after.len() implies !(
        #[trigger] after[j].oco3_ids.contains(id) && #[trigger] after[k].oco3_ids.contains(id)) by {
            if after[j].oco3_ids.contains(id) && after[k].oco3_ids.contains(id) {
                if j != pos && k != pos {
                    assert(after[j] == groups[j] && after[k] == groups[k]);
                    assert(groups[j].oco3_ids.contains(id) && groups[k].oco3_ids.contains(id));
                } else {
                    let other = if j == pos {
                        k
                    } else {
                        j
                    };
                    assert(after[other] == groups[other]);
                    assert(groups[other].oco3_ids.contains(id));
                    assert(joined(base, r).oco3_ids.contains(id));
                    if base.oco3_ids.contains(id) {
                        assert(pos < groups.len());
                        assert(groups[pos].oco3_ids.contains(id));
                        if pos < other {
                            assert(!(groups[pos].oco3_ids.contains(id) && groups[other].oco3_ids.contains(
                                id,
                            )));
                        } else {
                            assert(!(groups[other].oco3_ids.contains(id) && groups[pos].oco3_ids.contains(
                                id,
                            )));
                        }
                    } else {
                        assert(r.oco3_sounding_ids.contains(id));
                        let w = choose|w: int|
                            0 <= w < r.oco3_sounding_ids.len() && r.oco3_sounding_ids[w] == id;
                        assert(groups[other].oco3_ids.contains(r.oco3_sounding_ids[w]));
                        assert(shares_id(groups[other].oco3_ids, r.oco3_sounding_ids));
                    }
                }
            }
        }
    }
    if oco3_disjoint(after) {
        assert forall|j: int, k: int, id: u64| 0 <= j < k < groups.len() implies !(
        #[trigger] groups[j].oco3_ids.contains(id) && #[trigger] groups[k].oco3_ids.contains(id)) by {
            if groups[j].oco3_ids.contains(id) && groups[k].oco3_ids.contains(id) {
                assert(joined(groups[j], r).oco3_ids.contains(id));
                assert(joined(groups[k], r).oco3_ids.contains(id));
                assert(after[j].oco3_ids.contains(id));
                assert(after[k].oco3_ids.contains(id));
            }
        }
        assert forall|j: int| 0 <= j < groups.len() && j != pos implies !shares_id((#[trigger] groups[j]).oco3_ids, r.oco3_sounding_ids) by {
            if shares_id(groups[j].oco3_ids, r.oco3_sounding_ids) {
                let w = choose|w: int|
                    0 <= w < r.oco3_sounding_ids.len() && groups[j].oco3_ids.contains(
                        #[trigger] r.oco3_sounding_ids[w],
                    );
                let id = r.oco3_sounding_ids[w];
                assert(r.oco3_sounding_ids.contains(id));
                assert(after[j] == groups[j]);
                assert(joined(base, r).oco3_ids.contains(id));
                assert(after[j].oco3_ids.contains(id) && after[pos].oco3_ids.contains(id));
                if j < pos {
                    assert(!(after[j].oco3_ids.contains(id) && after[pos].oco3_ids.contains(id)));
                } else {
                    assert(!(after[pos].oco3_ids.contains(id) && after[j].oco3_ids.contains(id)));
                }
            }
        }
    }
}

/// No OCO-3 sounding is in two groups if and only if no record, at its turn,
/// links two groups: a record that shares soundings with two groups joins the
/// first and leaves the second as it is, and from then on the two overlap.
pub proof fn lemma_oco3_disjoint(records: Seq<MatchView>)
    ensures
        oco3_disjoint(grouped(records)) <==> always_apart_oco3(records),
    decreases records.len(),
{
    if records.len() > 0 {
        lemma_oco3_disjoint(records.drop_last());
        lemma_step_oco3(grouped(records.drop_last()), records.last());
        lemma_at_every_turn(records, |g: Seq<GroupView>, r: MatchView| joins_apart_oco3(g, r));
    }
}

/// Where the OCO-2 sounding identifiers of the records differ from one
/// another, no OCO-2 sounding is in two groups.
pub proof fn lemma_distinct_ids_oco2_disjoint(records: Seq<MatchView>)
    requires
        distinct_oco2_ids(records),
    ensures
        oco2_disjoint(grouped(records)),
{
    let apart = |g: Seq<GroupView>, r: MatchView| joins_apart_oco2(g, r);
    assert forall|n: int| 0 <= n < records.len() implies apart(
        grouped(records.take(n)),
        #[trigger] records[n],
    ) by {
        let before = records.take(n);
        let groups = grouped(before);
        let id = records[n].oco2_sounding_id;
        lemma_groups_cover(before);
        if in_oco2(groups, id) {
            assert(is_oco2_of(before, id));
            let i = choose|i: int| 0 <= i < before.len() && (#[trigger] before[i]).oco2_sounding_id == id;
            assert(before[i] == records[i]);
            assert(records[i].oco2_sounding_id != records[n].oco2_sounding_id);
        }
        assert forall|j: int| 0 <= j < groups.len() implies !(#[trigger] groups[j]).oco2_ids.contains(
            id,
        ) by {
            if groups[j].oco2_ids.contains(id) {
                assert(in_oco2(groups, id));
            }
        }
    }
    lemma_oco2_disjoint(records);
}

/// Grouping is a function of the set of matches: two groupings of one set are
/// the same, group by group and table by table.
pub proof fn lemma_grouping_deterministic(
    v: OcoMatchesView,
    first: OcoMatchGroupsView,
    second: OcoMatchGroupsView,
)
    requires
        first == grouping(v),
        second == grouping(v),
    ensures
        first == second,
{
}

} // verus!

//! The canonical order of match records: ascending by OCO-2 sounding
//! identifier, records with one identifier staying in the order they came in.

use vstd::prelude::*;
use crate::oco::record::Match2to3;
use crate::oco::record::MatchView;
use crate::oco::record::record_views;

verus! {

/// The records are in ascending order of their OCO-2 sounding identifier.
pub open spec fn sorted_by_id(s: Seq<MatchView>) -> bool {
    forall|i: int, j: int| 0 <= i <= j < s.len() ==> s[i].oco2_sounding_id <= s[j].oco2_sounding_id
}

/// The records of `s` whose OCO-2 sounding identifier is `id`, in their order.
pub open spec fn with_id(s: Seq<MatchView>, id: u64) -> Seq<MatchView>
    decreases s.len(),
{
    if s.len() == 0 {
        Seq::empty()
    } else if s.last().oco2_sounding_id == id {
        with_id(s.drop_last(), id).push(s.last())
    } else {
        with_id(s.drop_last(), id)
    }
}

/// `output` holds the records of `input` in canonical order: it is sorted, and
/// for every identifier it holds the same records as `input`, in the same
/// order. There is exactly one such `output` for each `input`.
pub open spec fn stably_sorted(input: Seq<MatchView>, output: Seq<MatchView>) -> bool {
    &&& output.len() == input.len()
    &&& sorted_by_id(output)
    &&& forall|id: u64| with_id(output, id) == with_id(input, id)
}

/// The OCO-2 sounding identifiers of the records differ from one another.
pub open spec fn distinct_oco2_ids(records: Seq<MatchView>) -> bool {
    forall|i: int, j: int|
        0 <= i < j < records.len() ==> (#[trigger] records[i]).oco2_sounding_id != (
        #[trigger] records[j]).oco2_sounding_id
}

/// Selecting by identifier distributes over concatenation.
pub proof fn lemma_with_id_add(a: Seq<MatchView>, b: Seq<MatchView>, id: u64)
    ensures
        with_id(a + b, id) == with_id(a, id) + with_id(b, id),
    decreases b.len(),
{
    if b.len() == 0 {
        assert(a + b =~= a);
        assert(with_id(a, id) + with_id(b, id) =~= with_id(a, id));
    } else {
        assert((a + b).drop_last() =~= a + b.drop_last());
        assert((a + b).last() == b.last());
        lemma_with_id_add(a, b.drop_last(), id);
        if b.last().oco2_sounding_id == id {
            assert(with_id(a, id) + with_id(b.drop_last(), id).push(b.last()) =~= (with_id(a, id)
                + with_id(b.drop_last(), id)).push(b.last()));
        }
    }
}

/// Selecting an identifier that no record carries gives nothing.
pub proof fn lemma_with_id_absent(s: Seq<MatchView>, id: u64)
    requires
        forall|j: int| 0 <= j < s.len() ==> s[j].oco2_sounding_id != id,
    ensures
        with_id(s, id) == Seq::<MatchView>::empty(),
    decreases s.len(),
{
    if s.len() > 0 {
        assert forall|j: int| 0 <= j < s.drop_last().len() implies s.drop_last()[j].oco2_sounding_id
            != id by {
            assert(s.drop_last()[j] == s[j]);
        }
        lemma_with_id_absent(s.drop_last(), id);
    }
}

/// Every selected record is a record of the sequence and carries the identifier.
pub proof fn lemma_with_id_members(s: Seq<MatchView>, id: u64)
    ensures
        forall|k: int|
            0 <= k < with_id(s, id).len() ==> s.contains(#[trigger] with_id(s, id)[k]) && with_id(
                s,
                id,
            )[k].oco2_sounding_id == id,
        forall|j: int|
            0 <= j < s.len() && s[j].oco2_sounding_id == id ==> with_id(s, id).contains(#[trigger] s[j]),
    decreases s.len(),
{
    if s.len() > 0 {
        let rest = s.drop_last();
        lemma_with_id_members(rest, id);
        assert forall|k: int| 0 <= k < with_id(s, id).len() implies s.contains(
            #[trigger] with_id(s, id)[k],
        ) && with_id(s, id)[k].oco2_sounding_id == id by {
            if k < with_id(rest, id).len() {
                let r = with_id(rest, id)[k];
                assert(rest.contains(r));
                let i = choose|i: int| 0 <= i < rest.len() && rest[i] == r;
                assert(s[i] == r);
            } else {
                assert(s[s.len() - 1] == s.last());
            }
        }
        assert forall|j: int| 0 <= j < s.len() && s[j].oco2_sounding_id == id implies with_id(
            s,
            id,
        ).contains(#[trigger] s[j]) by {
            if j < rest.len() {
                assert(rest[j] == s[j]);
                assert(with_id(rest, id).contains(rest[j]));
                let k = choose|k: int| 0 <= k < with_id(rest, id).len() && with_id(rest, id)[k] == rest[j];
                assert(with_id(s, id)[k] == s[j]);
            } else {
                assert(with_id(s, id)[with_id(rest, id).len() as int] == s[j]);
            }
        }
    }
}

/// Putting a record into a sorted sequence behind every record that does not
/// exceed it, and before every record that does, keeps the sequence sorted and
/// selects, for every identifier, what appending the record would select.
pub proof fn lemma_stable_insert(s: Seq<MatchView>, x: MatchView, p: int)
    requires
        sorted_by_id(s),
        0 <= p <= s.len(),
        forall|j: int| p <= j < s.len() ==> s[j].oco2_sounding_id > x.oco2_sounding_id,
        forall|j: int| 0 <= j < p ==> s[j].oco2_sounding_id <= x.oco2_sounding_id,
    ensures
        sorted_by_id(s.insert(p, x)),
        forall|id: u64| with_id(s.insert(p, x), id) == with_id(s.push(x), id),
{
    let t = s.insert(p, x);
    assert forall|i: int, j: int| 0 <= i <= j < t.len() implies t[i].oco2_sounding_id
        <= t[j].oco2_sounding_id by {
        if i < p && j > p {
            assert(t[i] == s[i] && t[j] == s[j - 1]);
        }
    }
    assert forall|id: u64| with_id(t, id) == with_id(s.push(x), id) by {
        let head = s.take(p);
        let tail = s.skip(p);
        let one = Seq::<MatchView>::empty().push(x);
        assert(t =~= head + one + tail);
        assert(s =~= head + tail);
        assert(s.push(x).drop_last() =~= s);
        assert(one.drop_last() =~= Seq::<MatchView>::empty());
        assert(with_id(Seq::<MatchView>::empty(), id) =~= Seq::<MatchView>::empty());
        lemma_with_id_add(head + one, tail, id);
        lemma_with_id_add(head, one, id);
        lemma_with_id_add(head, tail, id);
        if x.oco2_sounding_id == id {
            lemma_with_id_absent(tail, id);
            assert(with_id(one, id) =~= one);
            assert(with_id(head, id) + one + Seq::<MatchView>::empty() =~= (with_id(head, id)
                + Seq::<MatchView>::empty()).push(x));
        } else {
            assert(with_id(one, id) =~= Seq::<MatchView>::empty());
            assert(with_id(head, id) + Seq::<MatchView>::empty() + with_id(tail, id) =~= with_id(
                head,
                id,
            ) + with_id(tail, id));
        }
    }
}

/// The last record of a sorted sequence is the last of the records that carry
/// its identifier, and no record carries a greater one.
proof fn lemma_last_of_sorted(s: Seq<MatchView>)
    requires
        s.len() > 0,
        sorted_by_id(s),
    ensures
        with_id(s, s.last().oco2_sounding_id).len() > 0,
        with_id(s, s.last().oco2_sounding_id).last() == s.last(),
        forall|id: u64| with_id(s, id).len() > 0 ==> id <= s.last().oco2_sounding_id,
{
    assert forall|id: u64| with_id(s, id).len() > 0 implies id <= s.last().oco2_sounding_id by {
        lemma_with_id_members(s, id);
        let r = with_id(s, id)[0];
        assert(s.contains(r));
        let i = choose|i: int| 0 <= i < s.len() && s[i] == r;
        assert(s[i].oco2_sounding_id <= s[s.len() - 1].oco2_sounding_id);
    }
}

/// Two sorted sequences that hold, for every identifier, the same records in
/// the same order are the same sequence.
pub proof fn lemma_sorted_unique(a: Seq<MatchView>, b: Seq<MatchView>)
    requires
        a.len() == b.len(),
        sorted_by_id(a),
        sorted_by_id(b),
        forall|id: u64| with_id(a, id) == with_id(b, id),
    ensures
        a == b,
    decreases a.len(),
{
    if a.len() == 0 {
        assert(a =~= b);
    } else {
        lemma_last_of_sorted(a);
        lemma_last_of_sorted(b);
        let top = a.last().oco2_sounding_id;
        assert(with_id(a, top) == with_id(b, top));
        assert(b.last().oco2_sounding_id == top);
        assert(a.last() == b.last());
        let a0 = a.drop_last();
        let b0 = b.drop_last();
        assert forall|i: int, j: int| 0 <= i <= j < a0.len() implies a0[i].oco2_sounding_id
            <= a0[j].oco2_sounding_id by {
            assert(a0[i] == a[i] && a0[j] == a[j]);
        }
        assert forall|i: int, j: int| 0 <= i <= j < b0.len() implies b0[i].oco2_sounding_id
            <= b0[j].oco2_sounding_id by {
            assert(b0[i] == b[i] && b0[j] == b[j]);
        }
        assert forall|id: u64| with_id(a0, id) == with_id(b0, id) by {
            assert(with_id(a, id) == with_id(b, id));
            if id == top {
                assert(with_id(a0, id) =~= with_id(a, id).drop_last());
                assert(with_id(b0, id) =~= with_id(b, id).drop_last());
            }
        }
        lemma_sorted_unique(a0, b0);
        assert(a =~= a0.push(a.last()));
        assert(b =~= b0.push(b.last()));
    }
}

/// The canonical order of a list of records is unique: whatever brings the
/// records into it arrives at the same list.
pub proof fn lemma_canonical_order_unique(input: Seq<MatchView>, first: Seq<MatchView>, second: Seq<MatchView>)
    requires
        stably_sorted(input, first),
        stably_sorted(input, second),
    ensures
        first == second,
{
    assert forall|id: u64| with_id(first, id) == with_id(second, id) by {
        assert(with_id(first, id) == with_id(input, id));
        assert(with_id(second, id) == with_id(input, id));
    }
    lemma_sorted_unique(first, second);
}

/// A sequence in which two records carry one identifier selects at least two
/// records for that identifier.
proof fn lemma_with_id_two(s: Seq<MatchView>, i: int, j: int)
    requires
        0 <= i < j < s.len(),
        s[i].oco2_sounding_id == s[j].oco2_sounding_id,
    ensures
        with_id(s, s[i].oco2_sounding_id).len() >= 2,
    decreases s.len(),
{
    let id = s[i].oco2_sounding_id;
    let rest = s.drop_last();
    assert(rest[i] == s[i]);
    if j == s.len() - 1 {
        lemma_with_id_members(rest, id);
        assert(with_id(rest, id).contains(rest[i]));
    } else {
        assert(rest[j] == s[j]);
        lemma_with_id_two(rest, i, j);
    }
}

/// The identifiers of the records differ from one another if and only if no
/// identifier selects more than one record.
pub proof fn lemma_distinct_ids(s: Seq<MatchView>)
    ensures
        distinct_oco2_ids(s) <==> forall|id: u64| with_id(s, id).len() <= 1,
    decreases s.len(),
{
    if s.len() > 0 {
        let rest = s.drop_last();
        lemma_distinct_ids(rest);
        if distinct_oco2_ids(s) {
            assert forall|i: int, j: int| 0 <= i < j < rest.len() implies (
            #[trigger] rest[i]).oco2_sounding_id != (#[trigger] rest[j]).oco2_sounding_id by {
                assert(rest[i] == s[i] && rest[j] == s[j]);
            }
            assert forall|id: u64| with_id(s, id).len() <= 1 by {
                assert(with_id(rest, id).len() <= 1);
                if s.last().oco2_sounding_id == id {
                    assert forall|j: int| 0 <= j < rest.len() implies rest[j].oco2_sounding_id
                        != id by {
                        assert(rest[j] == s[j]);
                        assert(s[j].oco2_sounding_id != s[s.len() - 1].oco2_sounding_id);
                    }
                    lemma_with_id_absent(rest, id);
                }
            }
        }
        if forall|id: u64| with_id(s, id).len() <= 1 {
            assert forall|i: int, j: int| 0 <= i < j < s.len() implies (
            #[trigger] s[i]).oco2_sounding_id != (#[trigger] s[j]).oco2_sounding_id by {
                if s[i].oco2_sounding_id == s[j].oco2_sounding_id {
                    lemma_with_id_two(s, i, j);
                    assert(with_id(s, s[i].oco2_sounding_id).len() <= 1);
                }
            }
        }
    }
}

/// Bringing records into canonical order keeps their identifiers distinct.
pub proof fn lemma_sorting_keeps_ids_distinct(input: Seq<MatchView>, output: Seq<MatchView>)
    requires
        stably_sorted(input, output),
        distinct_oco2_ids(input),
    ensures
        distinct_oco2_ids(output),
{
    lemma_distinct_ids(input);
    lemma_distinct_ids(output);
    assert forall|id: u64| with_id(output, id).len() <= 1 by {
        assert(with_id(output, id) == with_id(input, id));
    }
}

/// Bringing records into canonical order neither adds nor loses a record.
pub proof fn lemma_sorting_keeps_records(input: Seq<MatchView>, output: Seq<MatchView>)
    requires
        stably_sorted(input, output),
    ensures
        forall|r: MatchView| output.contains(r) <==> input.contains(r),
{
    assert forall|r: MatchView| output.contains(r) <==> input.contains(r) by {
        let id = r.oco2_sounding_id;
        lemma_with_id_members(input, id);
        lemma_with_id_members(output, id);
        assert(with_id(output, id) == with_id(input, id));
        if output.contains(r) {
            let k = choose|k: int| 0 <= k < output.len() && output[k] == r;
            assert(with_id(output, id).contains(output[k]));
            let l = choose|l: int| 0 <= l < with_id(input, id).len() && with_id(input, id)[l] == r;
            assert(input.contains(with_id(input, id)[l]));
        }
        if input.contains(r) {
            let k = choose|k: int| 0 <= k < input.len() && input[k] == r;
            assert(with_id(input, id).contains(input[k]));
            let l = choose|l: int| 0 <= l < with_id(output, id).len() && with_id(output, id)[l] == r;
            assert(output.contains(with_id(output, id)[l]));
        }
    }
}

/// Records that are in ascending order of their identifiers are in canonical
/// order already: bringing them into it changes nothing.
pub proof fn lemma_sorted_stays(input: Seq<MatchView>, output: Seq<MatchView>)
    requires
        sorted_by_id(input),
        stably_sorted(input, output),
    ensures
        output == input,
{
    lemma_canonical_order_unique(input, input, output);
}

/// The order in which records were produced does not show in their canonical
/// order, provided that their identifiers differ from one another: two lists
/// that hold the same records, each once, have the same canonical order.
pub proof fn lemma_production_order_immaterial(
    a: Seq<MatchView>,
    b: Seq<MatchView>,
    sorted_a: Seq<MatchView>,
    sorted_b: Seq<MatchView>,
)
    requires
        distinct_oco2_ids(a),
        a.to_multiset() == b.to_multiset(),
        stably_sorted(a, sorted_a),
        stably_sorted(b, sorted_b),
    ensures
        sorted_a == sorted_b,
{
    broadcast use vstd::seq_lib::group_to_multiset_ensures;

    assert(a.no_duplicates()) by {
        assert forall|i: int, j: int| 0 <= i < a.len() && 0 <= j < a.len() && i != j implies a[i]
            != a[j] by {
            if i < j {
                assert(a[i].oco2_sounding_id != a[j].oco2_sounding_id);
            } else {
                assert(a[j].oco2_sounding_id != a[i].oco2_sounding_id);
            }
        }
    }
    a.lemma_multiset_has_no_duplicates();
    b.lemma_multiset_has_no_duplicates_conv();
    assert forall|r: MatchView| a.contains(r) <==> b.contains(r) by {
        vstd::seq_lib::to_multiset_contains(a, r);
        vstd::seq_lib::to_multiset_contains(b, r);
    }
    assert forall|i: int, j: int| 0 <= i < j < b.len() implies (#[trigger] b[i]).oco2_sounding_id != (
    #[trigger] b[j]).oco2_sounding_id by {
        assert(b[i] != b[j]);
        assert(b.contains(b[i]) && b.contains(b[j]));
        let p = choose|p: int| 0 <= p < a.len() && a[p] == b[i];
        let q = choose|q: int| 0 <= q < a.len() && a[q] == b[j];
        if p < q {
            assert(a[p].oco2_sounding_id != a[q].oco2_sounding_id);
        } else {
            assert(a[q].oco2_sounding_id != a[p].oco2_sounding_id);
        }
    }
    lemma_distinct_ids(a);
    lemma_distinct_ids(b);
    assert forall|id: u64| with_id(a, id) == with_id(b, id) by {
        let wa = with_id(a, id);
        let wb = with_id(b, id);
        lemma_with_id_members(a, id);
        lemma_with_id_members(b, id);
        assert(wa.len() <= 1 && wb.len() <= 1);
        if wa.len() == 1 {
            let x = wa[0];
            assert(a.contains(x));
            assert(b.contains(x));
            let j = choose|j: int| 0 <= j < b.len() && b[j] == x;
            assert(wb.contains(b[j]));
            assert(wb[0] == x);
        }
        if wb.len() == 1 {
            let y = wb[0];
            assert(b.contains(y));
            assert(a.contains(y));
            let j = choose|j: int| 0 <= j < a.len() && a[j] == y;
            assert(wa.contains(a[j]));
        }
        assert(wa =~= wb);
    }
    assert forall|id: u64| with_id(sorted_a, id) == with_id(sorted_b, id) by {
        assert(with_id(sorted_a, id) == with_id(a, id));
        assert(with_id(sorted_b, id) == with_id(b, id));
    }
    assert(a.len() == b.len()) by {
        assert(a.to_multiset().len() == a.len());
        assert(b.to_multiset().len() == b.len());
    }
    lemma_sorted_unique(sorted_a, sorted_b);
}

/// Brings the records into canonical order.
pub fn sort_by_sounding_id(records: Vec<Match2to3>) -> (out: Vec<Match2to3>)
    ensures
        stably_sorted(record_views(records@), record_views(out@)),
{
    let ghost orig = record_views(records@);
    let ghost total = records@.len() as int;
    let mut pending = records;
    // Turn the list over, so that taking from its end yields the records in
    // the order in which they were given.
    let mut stack: Vec<Match2to3> = Vec::new();
    while pending.len() > 0
        invariant
            pending@.len() + stack@.len() == total,
            total == orig.len(),
            forall|i: int| 0 <= i < pending@.len() ==> (#[trigger] pending@[i])@ == orig[i],
            forall|i: int| 0 <= i < stack@.len() ==> (#[trigger] stack@[i])@ == orig[total - 1 - i],
        decreases pending@.len(),
    {
        let x = pending.pop().unwrap();
        stack.push(x);
    }
    let mut out: Vec<Match2to3> = Vec::new();
    assert(orig.take(0) =~= Seq::<MatchView>::empty());
    assert(record_views(out@) =~= Seq::<MatchView>::empty());
    while stack.len() > 0
        invariant
            stack@.len() + out@.len() == total,
            total == orig.len(),
            forall|i: int| 0 <= i < stack@.len() ==> (#[trigger] stack@[i])@ == orig[total - 1 - i],
            sorted_by_id(record_views(out@)),
            forall|id: u64|
                with_id(record_views(out@), id) == with_id(orig.take(out@.len() as int), id),
        decreases stack@.len(),
    {
        let ghost done = out@.len() as int;
        let x = stack.pop().unwrap();
        assert(x@ == orig[done]);
        let mut p: usize = out.len();
        while p > 0 && out[p - 1].oco2_sounding_id > x.oco2_sounding_id
            invariant
                p <= out@.len(),
                forall|j: int|
                    p <= j < out@.len() ==> (#[trigger] out@[j]).oco2_sounding_id > x.oco2_sounding_id,
            decreases p,
        {
            p = p - 1;
        }
        let ghost before = record_views(out@);
        let ghost xv = x@;
        out.insert(p, x);
        proof {
            assert(record_views(out@) =~= before.insert(p as int, xv));
            assert forall|j: int| 0 <= j < p implies before[j].oco2_sounding_id
                <= xv.oco2_sounding_id by {
                assert(before[p - 1].oco2_sounding_id <= xv.oco2_sounding_id);
            }
            lemma_stable_insert(before, xv, p as int);
            let prefix = orig.take(done);
            let next = orig.take(done + 1);
            assert(next.drop_last() =~= prefix);
            assert(next.last() == xv);
            assert(before.push(xv).drop_last() =~= before);
            assert forall|id: u64| with_id(record_views(out@), id) == with_id(next, id) by {
                assert(with_id(before, id) == with_id(prefix, id));
                assert(with_id(before.insert(p as int, xv), id) == with_id(before.push(xv), id));
                assert(before.push(xv).last() == xv);
            }
        }
    }
    assert(orig.take(total) =~= orig);
    out
}

} // verus!

//! A set of sounding identifiers that remembers the order in which its
//! members joined.

use std::collections::HashSet;
use vstd::prelude::*;

verus! {

/// The list `ids` with `id` at its end, unless the list holds `id` already.
pub open spec fn add_id(ids: Seq<u64>, id: u64) -> Seq<u64> {
    if ids.contains(id) {
        ids
    } else {
        ids.push(id)
    }
}

/// The list `ids` after adding the identifiers of `row` one by one, first to last.
pub open spec fn add_ids(ids: Seq<u64>, row: Seq<u64>) -> Seq<u64>
    decreases row.len(),
{
    if row.len() == 0 {
        ids
    } else {
        add_id(add_ids(ids, row.drop_last()), row.last())
    }
}

/// Some identifier of `row` is a member of `ids`.
pub open spec fn shares_id(ids: Seq<u64>, row: Seq<u64>) -> bool {
    exists|j: int| 0 <= j < row.len() && ids.contains(#[trigger] row[j])
}

/// Adding an identifier keeps the members and adds that identifier.
pub proof fn lemma_add_id(ids: Seq<u64>, id: u64)
    ensures
        forall|x: u64| add_id(ids, id).contains(x) <==> ids.contains(x) || x == id,
        ids.no_duplicates() ==> add_id(ids, id).no_duplicates(),
{
    if !ids.contains(id) {
        let t = ids.push(id);
        assert(t[ids.len() as int] == id);
        assert forall|x: u64| t.contains(x) <==> ids.contains(x) || x == id by {
            if ids.contains(x) {
                let i = choose|i: int| 0 <= i < ids.len() && ids[i] == x;
                assert(t[i] == x);
            }
            if t.contains(x) {
                let i = choose|i: int| 0 <= i < t.len() && t[i] == x;
                if i < ids.len() {
                    assert(ids[i] == x);
                }
            }
        }
    }
}

/// Adding a row keeps the members and adds the identifiers of the row.
pub proof fn lemma_add_ids(ids: Seq<u64>, row: Seq<u64>)
    ensures
        forall|x: u64| add_ids(ids, row).contains(x) <==> ids.contains(x) || row.contains(x),
        ids.no_duplicates() ==> add_ids(ids, row).no_duplicates(),
        ids.len() <= add_ids(ids, row).len(),
        row.len() > 0 ==> add_ids(ids, row).len() > 0,
    decreases row.len(),
{
    if row.len() > 0 {
        let rest = row.drop_last();
        lemma_add_ids(ids, rest);
        lemma_add_id(add_ids(ids, rest), row.last());
        assert forall|x: u64| add_ids(ids, row).contains(x) <==> ids.contains(x) || row.contains(
            x,
        ) by {
            if rest.contains(x) {
                let i = choose|i: int| 0 <= i < rest.len() && rest[i] == x;
                assert(row[i] == x);
            }
            if row.contains(x) {
                let i = choose|i: int| 0 <= i < row.len() && row[i] == x;
                if i < rest.len() {
                    assert(rest[i] == x);
                }
            }
            assert(row[row.len() - 1] == row.last());
        }
    }
}

/// A set of sounding identifiers, listed in the order in which they joined.
pub struct IdSet {
    ids: Vec<u64>,
    members: HashSet<u64>,
}

impl View for IdSet {
    type V = Seq<u64>;

    /// The members, in the order in which they joined.
    closed spec fn view(&self) -> Seq<u64> {
        self.ids@
    }
}

impl IdSet {
    /// The list and the index of members agree.
    pub closed spec fn wf(&self) -> bool {
        forall|x: u64| self.members@.contains(x) <==> self.ids@.contains(x)
    }

    /// The empty set.
    pub fn new() -> (s: IdSet)
        ensures
            s.wf(),
            s@ == Seq::<u64>::empty(),
    {
        IdSet { ids: Vec::new(), members: HashSet::new() }
    }

    /// The number of members.
    pub fn len(&self) -> (n: usize)
        ensures
            n == self@.len(),
    {
        self.ids.len()
    }

    /// The member that joined as number `i`.
    pub fn get(&self, i: usize) -> (id: u64)
        requires
            i < self@.len(),
        ensures
            id == self@[i as int],
    {
        self.ids[i]
    }

    /// The members, in the order in which they joined.
    pub fn ids(&self) -> (v: &Vec<u64>)
        ensures
            v@ == self@,
    {
        &self.ids
    }

    /// Whether `id` is a member.
    pub fn contains(&self, id: u64) -> (b: bool)
        requires
            self.wf(),
        ensures
            b == self@.contains(id),
    {
        broadcast use vstd::std_specs::hash::group_hash_axioms;

        self.members.contains(&id)
    }

    /// Makes `id` a member, unless it is one already.
    pub fn insert(&mut self, id: u64)
        requires
            old(self).wf(),
        ensures
            final(self).wf(),
            final(self)@ == add_id(old(self)@, id),
    {
        broadcast use vstd::std_specs::hash::group_hash_axioms;

        if !self.members.contains(&id) {
            proof {
                lemma_add_id(self.ids@, id);
            }
            self.members.insert(id);
            self.ids.push(id);
        }
    }

    /// Makes every identifier of `row` a member, first to last.
    pub fn extend(&mut self, row: &Vec<u64>)
        requires
            old(self).wf(),
        ensures
            final(self).wf(),
            final(self)@ == add_ids(old(self)@, row@),
    {
        let mut j: usize = 0;
        while j < row.len()
            invariant
                j <= row@.len(),
                self.wf(),
                self@ == add_ids(old(self)@, row@.take(j as int)),
            decreases row@.len() - j,
        {
            proof {
                let next = row@.take(j as int + 1);
                assert(next.drop_last() =~= row@.take(j as int));
                assert(next.last() == row@[j as int]);
            }
            self.insert(row[j]);
            j = j + 1;
        }
        assert(row@.take(row@.len() as int) =~= row@);
    }

    /// Whether some identifier of `row` is a member.
    pub fn shares(&self, row: &Vec<u64>) -> (b: bool)
        requires
            self.wf(),
        ensures
            b == shares_id(self@, row@),
    {
        let mut j: usize = 0;
        while j < row.len()
            invariant
                j <= row@.len(),
                self.wf(),
                forall|k: int| 0 <= k < j ==> !self@.contains(#[trigger] row@[k]),
            decreases row@.len() - j,
        {
            if self.contains(row[j]) {
                return true;
            }
            j = j + 1;
        }
        false
    }
}

} // verus!

//! How often each target was asked for.
use vstd::prelude::*;

use crate::text::same_str;

verus! {

/// The counts by target.
pub struct TargetCounts {
    entries: Vec<(String, u64)>,
}

/// The entries as texts and counts.
pub open spec fn entry_views(entries: Seq<(String, u64)>) -> Seq<(Seq<char>, u64)> {
    entries.map_values(|e: (String, u64)| (e.0@, e.1))
}

/// No target occurs twice.
pub open spec fn distinct_targets(entries: Seq<(Seq<char>, u64)>) -> bool {
    forall|i: int, j: int|
        0 <= i < j < entries.len() ==> (#[trigger] entries[i]).0 != (#[trigger] entries[j]).0
}

/// The entries as a map.
pub open spec fn count_map(entries: Seq<(Seq<char>, u64)>) -> Map<Seq<char>, u64>
    decreases entries.len(),
{
    if entries.len() == 0 {
        Map::empty()
    } else {
        count_map(entries.drop_last()).insert(entries.last().0, entries.last().1)
    }
}

proof fn lemma_count_map(entries: Seq<(Seq<char>, u64)>)
    requires
        distinct_targets(entries),
    ensures
        count_map(entries).dom().finite(),
        count_map(entries).dom().len() == entries.len(),
        forall|i: int|
            0 <= i < entries.len() ==> count_map(entries).dom().contains((#[trigger] entries[i]).0)
                && count_map(entries)[entries[i].0] == entries[i].1,
        forall|k: Seq<char>| #[trigger]
            count_map(entries).dom().contains(k) ==> exists|i: int|
                0 <= i < entries.len() && (#[trigger] entries[i]).0 == k,
    decreases entries.len(),
{
    if entries.len() > 0 {
        let before = entries.drop_last();
        assert forall|i: int, j: int| 0 <= i < j < before.len() implies (#[trigger] before[i]).0 != (
        #[trigger] before[j]).0 by {
            assert(before[i] == entries[i] && before[j] == entries[j]);
        }
        lemma_count_map(before);
        let last = entries.len() - 1;
        assert(!count_map(before).dom().contains(entries[last].0)) by {
            if count_map(before).dom().contains(entries[last].0) {
                let i = choose|i: int|
                    0 <= i < before.len() && (#[trigger] before[i]).0 == entries[last].0;
                assert(before[i] == entries[i]);
            }
        }
        assert forall|i: int| 0 <= i < entries.len() implies count_map(entries).dom().contains(
            (#[trigger] entries[i]).0,
        ) && count_map(entries)[entries[i].0] == entries[i].1 by {
            if i < last {
                assert(before[i] == entries[i]);
            }
        }
        assert forall|k: Seq<char>| #[trigger]
            count_map(entries).dom().contains(k) implies exists|i: int|
            0 <= i < entries.len() && (#[trigger] entries[i]).0 == k by {
            if k == entries[last].0 {
                assert(entries[last].0 == k);
            } else {
                let i = choose|i: int| 0 <= i < before.len() && (#[trigger] before[i]).0 == k;
                assert(entries[i].0 == k);
            }
        }
    }
}

impl View for TargetCounts {
    type V = Map<Seq<char>, u64>;

    closed spec fn view(&self) -> Map<Seq<char>, u64> {
        count_map(entry_views(self.entries@))
    }
}

impl TargetCounts {
    #[verifier::type_invariant]
    spec fn well_formed(self) -> bool {
        distinct_targets(entry_views(self.entries@))
    }

    /// No counts.
    pub fn new() -> (r: Self)
        ensures
            r@ == Map::<Seq<char>, u64>::empty(),
    {
        TargetCounts { entries: Vec::new() }
    }

    fn position(&self, target: &str) -> (r: Option<usize>)
        ensures
            match r {
                Some(i) => i < self.entries@.len() && self.entries@[i as int].0@ == target@,
                None => forall|i: int|
                    0 <= i < self.entries@.len() ==> (#[trigger] self.entries@[i]).0@ != target@,
            },
    {
        for i in 0..self.entries.len()
            invariant
                forall|j: int| 0 <= j < i ==> (#[trigger] self.entries@[j]).0@ != target@,
        {
            if same_str(self.entries[i].0.as_str(), target) {
                return Some(i);
            }
        }
        None
    }

    /// The counts with one target's set.
    pub fn with(self, target: String, count: u64) -> (r: Self)
        ensures
            r@ == self@.insert(target@, count),
    {
        proof {
            use_type_invariant(&self);
            lemma_count_map(entry_views(self.entries@));
        }
        let ghost before = entry_views(self.entries@);
        let at = self.position(target.as_str());
        let mut entries = self.entries;
        match at {
            Some(i) => {
                assert(before[i as int].0 == target@);
                entries.set(i, (target, count));
                proof {
                    let after = entry_views(entries@);
                    assert(after =~= before.update(i as int, (target@, count)));
                    lemma_count_map(after);
                    assert forall|k: Seq<char>| count_map(after).dom().contains(k)
                        == count_map(before).dom().contains(k) && (count_map(after).dom().contains(k)
                        && k != target@ ==> count_map(after)[k] == count_map(before)[k]) by {
                        if count_map(after).dom().contains(k) {
                            let j = choose|j: int|
                                0 <= j < after.len() && (#[trigger] after[j]).0 == k;
                            assert(before[j].0 == k);
                        }
                        if count_map(before).dom().contains(k) {
                            let j = choose|j: int|
                                0 <= j < before.len() && (#[trigger] before[j]).0 == k;
                            assert(after[j].0 == k);
                        }
                    }
                    assert(after[i as int].0 == target@);
                    assert(count_map(after) =~= count_map(before).insert(target@, count));
                }
            },
            None => {
                entries.push((target, count));
                proof {
                    let after = entry_views(entries@);
                    assert(after =~= before.push((target@, count)));
                    assert(after.drop_last() =~= before);
                    assert forall|i: int, j: int| 0 <= i < j < after.len() implies (
                    #[trigger] after[i]).0 != (#[trigger] after[j]).0 by {
                        assert(before[i] == after[i]);
                        if j < before.len() {
                            assert(before[j] == after[j]);
                        } else {
                            assert(before[i].0 == self.entries@[i].0@);
                        }
                    }
                }
            },
        }
        TargetCounts { entries }
    }

    /// The count of a target.
    pub fn get(&self, target: &str) -> (r: Option<u64>)
        ensures
            r == (if self@.dom().contains(target@) {
                Some(self@[target@])
            } else {
                None
            }),
    {
        proof {
            use_type_invariant(self);
            lemma_count_map(entry_views(self.entries@));
        }
        let ghost views = entry_views(self.entries@);
        match self.position(target) {
            Some(i) => {
                assert(views[i as int].0 == target@);
                Some(self.entries[i].1)
            },
            None => {
                proof {
                    if self@.dom().contains(target@) {
                        let i = choose|i: int|
                            0 <= i < views.len() && (#[trigger] views[i]).0 == target@;
                        assert(self.entries@[i].0@ == target@);
                    }
                }
                None
            },
        }
    }

    /// How many targets there are.
    pub fn len(&self) -> (r: usize)
        ensures
            r == self@.dom().len(),
    {
        proof {
            use_type_invariant(self);
            lemma_count_map(entry_views(self.entries@));
        }
        self.entries.len()
    }

    /// The targets and their counts.
    pub fn entries(&self) -> (r: &Vec<(String, u64)>)
        ensures
            distinct_targets(entry_views(r@)),
            count_map(entry_views(r@)) == self@,
    {
        proof {
            use_type_invariant(self);
        }
        &self.entries
    }
}

/// A count that was set is read back, and the others stay as they are.
pub proof fn law_counts_are_read_back(
    before: TargetCounts,
    target: String,
    count: u64,
    after: TargetCounts,
    other: &str,
    r: Option<u64>,
    was: Option<u64>,
)
    requires
        call_ensures(TargetCounts::with, (before, target, count), after),
        call_ensures(TargetCounts::get, (&after, other), r),
        call_ensures(TargetCounts::get, (&before, other), was),
    ensures
        other@ == target@ ==> r == Some(count),
        other@ != target@ ==> r == was,
{
}

} // verus!

//! The map from column names to the numeric widths that were asked for.

use vstd::prelude::*;
use crate::schema::NumericType;

verus! {

/// One entry of the map: a column's name and the width asked for it.
#[derive(Debug)]
pub struct OverrideEntry {
    pub name: String,
    pub numeric: NumericType,
}

/// Whether some entry of `entries` before `end` bears `name`.
pub open spec fn names_before(entries: Seq<OverrideEntry>, end: int, name: Seq<char>) -> bool {
    exists|i: int| 0 <= i < end && i < entries.len() && (#[trigger] entries[i]).name@ == name
}

/// Whether no two entries bear the same name.
pub open spec fn distinct_names(entries: Seq<OverrideEntry>) -> bool {
    forall|i: int, j: int|
        0 <= i < j < entries.len() ==> (#[trigger] entries[i]).name@ != (#[trigger] entries[j]).name@
}

/// The position of the entry that bears `name`, where there is one.
pub open spec fn position_of(entries: Seq<OverrideEntry>, name: Seq<char>) -> int {
    choose|i: int| 0 <= i < entries.len() && (#[trigger] entries[i]).name@ == name
}

/// The map that a list of entries with distinct names stands for.
pub open spec fn entries_map(entries: Seq<OverrideEntry>) -> Map<Seq<char>, NumericType> {
    Map::new(
        |name: Seq<char>| names_before(entries, entries.len() as int, name),
        |name: Seq<char>| entries[position_of(entries, name)].numeric,
    )
}

/// A map from column names to numeric widths, in which each name occurs once.
#[derive(Debug)]
pub struct TypeOverrides {
    entries: Vec<OverrideEntry>,
}

impl View for TypeOverrides {
    type V = Map<Seq<char>, NumericType>;

    closed spec fn view(&self) -> Map<Seq<char>, NumericType> {
        entries_map(self.entries@)
    }
}

impl TypeOverrides {
    /// Whether each name occurs once. Every map that this module hands out is
    /// well formed, and every method keeps it so.
    pub closed spec fn wf(&self) -> bool {
        distinct_names(self.entries@)
    }

    /// The map without entries.
    pub fn new() -> (r: TypeOverrides)
        ensures
            r.wf(),
            r@ == Map::<Seq<char>, NumericType>::empty(),
    {
        let r = TypeOverrides { entries: Vec::new() };
        assert(r@ =~= Map::<Seq<char>, NumericType>::empty());
        r
    }

    /// The number of columns that have an entry.
    pub fn len(&self) -> (n: usize)
        requires
            self.wf(),
        ensures
            self@.dom().finite(),
            n == self@.len(),
    {
        proof {
            lemma_map_size(self.entries@);
        }
        self.entries.len()
    }

    /// Whether the map has no entry.
    pub fn is_empty(&self) -> (b: bool)
        ensures
            b == (self@ == Map::<Seq<char>, NumericType>::empty()),
    {
        let b = self.entries.len() == 0;
        proof {
            if b {
                assert(self@ =~= Map::<Seq<char>, NumericType>::empty());
            } else {
                assert(self@.contains_key(self.entries@[0].name@));
            }
        }
        b
    }

    fn find(&self, name: &String) -> (r: Option<usize>)
        ensures
            match r {
                Some(i) => i < self.entries@.len() && self.entries@[i as int].name@ == name@,
                None => !names_before(self.entries@, self.entries@.len() as int, name@),
            },
    {
        let mut i: usize = 0;
        while i < self.entries.len()
            invariant
                i <= self.entries@.len(),
                !names_before(self.entries@, i as int, name@),
            decreases self.entries@.len() - i,
        {
            if self.entries[i].name == *name {
                return Some(i);
            }
            i += 1;
        }
        None
    }

    /// The width asked for the column `name`, if any was.
    pub fn get(&self, name: &str) -> (r: Option<NumericType>)
        requires
            self.wf(),
        ensures
            r == (if self@.contains_key(name@) {
                Some(self@[name@])
            } else {
                None
            }),
    {
        let key = name.to_owned();
        match self.find(&key) {
            Some(i) => {
                proof {
                    let p = position_of(self.entries@, name@);
                    assert(self.entries@[i as int].name@ == name@);
                    assert(p == i);
                }
                Some(self.entries[i].numeric)
            },
            None => None,
        }
    }

    /// Whether the column `name` has an entry.
    pub fn contains(&self, name: &str) -> (b: bool)
        requires
            self.wf(),
        ensures
            b == self@.contains_key(name@),
    {
        self.get(name).is_some()
    }

    /// Sets the width asked for column `name`, and returns the width that the
    /// column had before, if it had one.
    pub fn insert(&mut self, name: String, numeric: NumericType) -> (r: Option<NumericType>)
        requires
            old(self).wf(),
        ensures
            final(self).wf(),
            final(self)@ == old(self)@.insert(name@, numeric),
            r == (if old(self)@.contains_key(name@) {
                Some(old(self)@[name@])
            } else {
                None
            }),
    {
        let ghost before = self.entries@;
        match self.find(&name) {
            Some(i) => {
                let previous = self.entries[i].numeric;
                proof {
                    assert(before[i as int].name@ == name@);
                    assert(position_of(before, name@) == i);
                }
                self.entries.set(i, OverrideEntry { name, numeric });
                proof {
                    let after = self.entries@;
                    assert(distinct_names(after)) by {
                        assert forall|a: int, b: int| 0 <= a < b < after.len() implies (
                        #[trigger] after[a]).name@ != (#[trigger] after[b]).name@ by {
                            assert(before[a].name@ == after[a].name@);
                            assert(before[b].name@ == after[b].name@);
                        }
                    }
                    lemma_map_after_replace(before, after, i as int, numeric);
                }
                Some(previous)
            },
            None => {
                self.entries.push(OverrideEntry { name, numeric });
                proof {
                    let after = self.entries@;
                    assert(distinct_names(after)) by {
                        assert forall|a: int, b: int| 0 <= a < b < after.len() implies (
                        #[trigger] after[a]).name@ != (#[trigger] after[b]).name@ by {
                            assert(before[a].name@ == after[a].name@);
                            if b < before.len() {
                                assert(before[b].name@ == after[b].name@);
                            }
                        }
                    }
                    lemma_map_after_push(before, after);
                }
                None
            },
        }
    }
}

/// In a list with distinct names, the entry found under a name is the one that
/// bears it.
pub proof fn lemma_position_unique(entries: Seq<OverrideEntry>, i: int)
    requires
        distinct_names(entries),
        0 <= i < entries.len(),
    ensures
        position_of(entries, entries[i].name@) == i,
        entries_map(entries).contains_key(entries[i].name@),
        entries_map(entries)[entries[i].name@] == entries[i].numeric,
{
    let p = position_of(entries, entries[i].name@);
    assert(entries[i].name@ == entries[i].name@);
    assert(0 <= p < entries.len() && entries[p].name@ == entries[i].name@);
    if p < i {
        assert(entries[p].name@ != entries[i].name@);
    }
    if i < p {
        assert(entries[i].name@ != entries[p].name@);
    }
}

/// A list with distinct names stands for a map of as many entries.
pub proof fn lemma_map_size(entries: Seq<OverrideEntry>)
    requires
        distinct_names(entries),
    ensures
        entries_map(entries).dom().finite(),
        entries_map(entries).len() == entries.len(),
    decreases entries.len(),
{
    if entries.len() == 0 {
        assert(entries_map(entries) =~= Map::<Seq<char>, NumericType>::empty());
    } else {
        let before = entries.drop_last();
        assert forall|i: int, j: int| 0 <= i < j < before.len() implies (
        #[trigger] before[i]).name@ != (#[trigger] before[j]).name@ by {
            assert(entries[i].name@ != entries[j].name@);
        }
        lemma_map_size(before);
        lemma_map_after_push(before, entries);
    }
}

proof fn lemma_map_after_replace(
    before: Seq<OverrideEntry>,
    after: Seq<OverrideEntry>,
    i: int,
    numeric: NumericType,
)
    requires
        distinct_names(before),
        distinct_names(after),
        0 <= i < before.len(),
        after.len() == before.len(),
        after[i].name@ == before[i].name@,
        after[i].numeric == numeric,
        forall|k: int| 0 <= k < before.len() && k != i ==> after[k] == before[k],
    ensures
        entries_map(after) =~= entries_map(before).insert(before[i].name@, numeric),
{
    let name = before[i].name@;
    let target = entries_map(before).insert(name, numeric);
    assert forall|n: Seq<char>| entries_map(after).contains_key(n) implies target.contains_key(
        n,
    ) && target[n] == entries_map(after)[n] by {
        let k = choose|k: int| 0 <= k < after.len() && (#[trigger] after[k]).name@ == n;
        lemma_position_unique(after, k);
        if k != i {
            assert(before[k].name@ == n);
            lemma_position_unique(before, k);
        }
    }
    assert forall|n: Seq<char>| target.contains_key(n) implies entries_map(after).contains_key(
        n,
    ) by {
        if n == name {
            assert(after[i].name@ == n);
        } else {
            let k = choose|k: int| 0 <= k < before.len() && (#[trigger] before[k]).name@ == n;
            assert(after[k].name@ == n);
        }
    }
}

proof fn lemma_map_after_push(before: Seq<OverrideEntry>, after: Seq<OverrideEntry>)
    requires
        distinct_names(before),
        distinct_names(after),
        after.len() == before.len() + 1,
        forall|k: int| 0 <= k < before.len() ==> after[k] == before[k],
    ensures
        entries_map(after) =~= entries_map(before).insert(
            after[before.len() as int].name@,
            after[before.len() as int].numeric,
        ),
        !entries_map(before).contains_key(after[before.len() as int].name@),
{
    let last = before.len() as int;
    let name = after[last].name@;
    let target = entries_map(before).insert(name, after[last].numeric);
    if entries_map(before).contains_key(name) {
        let k = choose|k: int| 0 <= k < before.len() && (#[trigger] before[k]).name@ == name;
        assert(after[k].name@ != after[last].name@);
    }
    assert forall|n: Seq<char>| entries_map(after).contains_key(n) implies target.contains_key(
        n,
    ) && target[n] == entries_map(after)[n] by {
        let k = choose|k: int| 0 <= k < after.len() && (#[trigger] after[k]).name@ == n;
        lemma_position_unique(after, k);
        if k != last {
            assert(before[k].name@ == n);
            lemma_position_unique(before, k);
        }
    }
    assert forall|n: Seq<char>| target.contains_key(n) implies entries_map(after).contains_key(
        n,
    ) by {
        if n == name {
            assert(after[last].name@ == n);
        } else {
            let k = choose|k: int| 0 <= k < before.len() && (#[trigger] before[k]).name@ == n;
            assert(after[k].name@ == n);
        }
    }
}

} // verus!

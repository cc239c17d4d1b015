//! Counting how often each message occurs, in the order of first occurrence.

use vstd::prelude::*;

verus! {

/// The index of the first entry of `tally` whose key is `key`, or the length
/// of `tally` where no entry has that key.
pub open spec fn key_index(tally: Seq<(Seq<char>, nat)>, key: Seq<char>) -> int
    decreases tally.len(),
{
    if tally.len() == 0 {
        0
    } else if tally[0].0 == key {
        0
    } else {
        1 + key_index(tally.drop_first(), key)
    }
}

/// How often `key` was counted: the count of its entry, or zero without one.
pub open spec fn count_of(tally: Seq<(Seq<char>, nat)>, key: Seq<char>) -> nat {
    let at = key_index(tally, key);
    if 0 <= at < tally.len() {
        tally[at].1
    } else {
        0
    }
}

/// `tally` after `key` was counted once more: its entry's count goes up by
/// one, or a new entry with count one joins at the end.
pub open spec fn tally_add(tally: Seq<(Seq<char>, nat)>, key: Seq<char>) -> Seq<(Seq<char>, nat)> {
    let at = key_index(tally, key);
    if 0 <= at < tally.len() {
        tally.update(at, (key, tally[at].1 + 1))
    } else {
        tally.push((key, 1))
    }
}

/// No two entries have the same key.
pub open spec fn distinct_keys(tally: Seq<(Seq<char>, nat)>) -> bool {
    forall|i: int, j: int| 0 <= i < j < tally.len() ==> (#[trigger] tally[i]).0 != (#[trigger] tally[j]).0
}

/// Every count is at least one.
pub open spec fn positive_counts(tally: Seq<(Seq<char>, nat)>) -> bool {
    forall|i: int| 0 <= i < tally.len() ==> (#[trigger] tally[i]).1 >= 1
}

/// No count is above `bound`.
pub open spec fn counts_within(tally: Seq<(Seq<char>, nat)>, bound: nat) -> bool {
    forall|i: int| 0 <= i < tally.len() ==> (#[trigger] tally[i]).1 <= bound
}

/// `key_index` lies within the tally, no entry before it has the key, and
/// where it is a position of the tally, the entry there has the key.
pub proof fn lemma_key_index(tally: Seq<(Seq<char>, nat)>, key: Seq<char>)
    ensures
        0 <= key_index(tally, key) <= tally.len(),
        forall|j: int| 0 <= j < key_index(tally, key) ==> (#[trigger] tally[j]).0 != key,
        key_index(tally, key) < tally.len() ==> tally[key_index(tally, key)].0 == key,
    decreases tally.len(),
{
    if tally.len() != 0 && tally[0].0 != key {
        let rest = tally.drop_first();
        lemma_key_index(rest, key);
        assert forall|j: int| 0 <= j < key_index(tally, key) implies (#[trigger] tally[j]).0
            != key by {
            if j > 0 {
                assert(tally[j] == rest[j - 1]);
            }
        }
    }
}

/// An index with no entry of the key before it, and with such an entry at it
/// unless it is the length of the tally, is `key_index`.
pub proof fn lemma_key_index_is(tally: Seq<(Seq<char>, nat)>, key: Seq<char>, at: int)
    requires
        0 <= at <= tally.len(),
        forall|j: int| 0 <= j < at ==> (#[trigger] tally[j]).0 != key,
        at < tally.len() ==> tally[at].0 == key,
    ensures
        key_index(tally, key) == at,
    decreases tally.len(),
{
    if tally.len() != 0 && at != 0 {
        let rest = tally.drop_first();
        assert forall|j: int| 0 <= j < at - 1 implies (#[trigger] rest[j]).0 != key by {
            assert(rest[j] == tally[j + 1]);
        }
        lemma_key_index_is(rest, key, at - 1);
    }
}

/// Counting a key raises its count by one and leaves every other count as it was.
pub proof fn lemma_tally_add_counts(tally: Seq<(Seq<char>, nat)>, key: Seq<char>, other: Seq<char>)
    ensures
        count_of(tally_add(tally, key), other) == count_of(tally, other) + if other == key {
            1nat
        } else {
            0nat
        },
{
    let added = tally_add(tally, key);
    let at = key_index(tally, key);
    lemma_key_index(tally, key);
    lemma_key_index(tally, other);
    let other_at = key_index(tally, other);
    if other == key {
        lemma_key_index_is(added, key, at);
    } else if other_at < tally.len() {
        lemma_key_index_is(added, other, other_at);
    } else {
        assert forall|j: int| 0 <= j < added.len() implies (#[trigger] added[j]).0 != other by {
            if j < tally.len() && j != at {
                assert(added[j] == tally[j]);
            }
        }
        lemma_key_index_is(added, other, added.len() as int);
    }
}

/// Counting a key keeps the keys distinct and the counts positive, and
/// raises the greatest count by one at most.
pub proof fn lemma_tally_add_keeps(tally: Seq<(Seq<char>, nat)>, key: Seq<char>, bound: nat)
    requires
        distinct_keys(tally),
        positive_counts(tally),
        counts_within(tally, bound),
    ensures
        distinct_keys(tally_add(tally, key)),
        positive_counts(tally_add(tally, key)),
        counts_within(tally_add(tally, key), bound + 1),
{
    let added = tally_add(tally, key);
    let at = key_index(tally, key);
    lemma_key_index(tally, key);
    assert forall|i: int, j: int| 0 <= i < j < added.len() implies (#[trigger] added[i]).0 != (
    #[trigger] added[j]).0 by {
        if at < tally.len() {
            assert(added[i].0 == tally[i].0);
            assert(added[j].0 == tally[j].0);
        } else if j < tally.len() {
            assert(added[i] == tally[i]);
            assert(added[j] == tally[j]);
        } else {
            assert(added[i] == tally[i]);
        }
    }
    assert forall|i: int| 0 <= i < added.len() implies 1 <= (#[trigger] added[i]).1 <= bound
        + 1 by {
        if i < tally.len() && i != at {
            assert(added[i] == tally[i]);
        }
    }
}

/// One message and how often it was counted.
#[derive(Debug, Clone, PartialEq, Eq)]
pub struct TallyEntry {
    pub key: String,
    pub count: usize,
}

/// Messages with their counts, in the order in which each message was first
/// counted. No message has two entries.
#[derive(Debug, Clone, PartialEq, Eq)]
pub struct Tally {
    entries: Vec<TallyEntry>,
}

impl View for Tally {
    type V = Seq<(Seq<char>, nat)>;

    closed spec fn view(&self) -> Seq<(Seq<char>, nat)> {
        Seq::new(
            self.entries@.len(),
            |i: int| (self.entries@[i].key@, self.entries@[i].count as nat),
        )
    }
}

impl Tally {
    /// The keys are distinct and every count is positive.
    pub open spec fn wf(&self) -> bool {
        distinct_keys(self@) && positive_counts(self@)
    }

    /// A tally without entries.
    pub fn new() -> (tally: Tally)
        ensures
            tally@ == Seq::<(Seq<char>, nat)>::empty(),
            tally.wf(),
    {
        let tally = Tally { entries: Vec::new() };
        assert(tally@ =~= Seq::<(Seq<char>, nat)>::empty());
        tally
    }

    /// The number of entries.
    pub fn len(&self) -> (n: usize)
        ensures
            n == self@.len(),
    {
        self.entries.len()
    }

    /// Whether there is no entry.
    pub fn is_empty(&self) -> (empty: bool)
        ensures
            empty == (self@.len() == 0),
    {
        self.entries.len() == 0
    }

    /// The key of entry `i`.
    pub fn key(&self, i: usize) -> (key: &String)
        requires
            i < self@.len(),
        ensures
            key@ == self@[i as int].0,
    {
        &self.entries[i].key
    }

    /// The count of entry `i`.
    pub fn count(&self, i: usize) -> (count: usize)
        requires
            i < self@.len(),
        ensures
            count == self@[i as int].1,
    {
        self.entries[i].count
    }

    /// The index of the entry for `key`, or the number of entries where there is none.
    pub fn position(&self, key: &String) -> (at: usize)
        ensures
            at == key_index(self@, key@),
    {
        let mut at: usize = 0;
        while at < self.entries.len() && self.entries[at].key != *key
            invariant
                at <= self@.len(),
                self@.len() == self.entries@.len(),
                forall|j: int| 0 <= j < at ==> (#[trigger] self@[j]).0 != key@,
            decreases self.entries.len() - at,
        {
            at += 1;
        }
        proof {
            lemma_key_index_is(self@, key@, at as int);
        }
        at
    }

    /// How often `key` was counted.
    pub fn count_of(&self, key: &str) -> (count: usize)
        ensures
            count == count_of(self@, key@),
    {
        let owned = key.to_owned();
        let at = self.position(&owned);
        if at < self.entries.len() {
            self.entries[at].count
        } else {
            0
        }
    }

    /// Counts `key` once more.
    pub fn record(&mut self, key: String)
        requires
            old(self).wf(),
            count_of(old(self)@, key@) < usize::MAX,
        ensures
            final(self)@ == tally_add(old(self)@, key@),
            final(self).wf(),
    {
        let at = self.position(&key);
        proof {
            lemma_tally_add_keeps(self@, key@, usize::MAX as nat);
        }
        if at < self.entries.len() {
            let count = self.entries[at].count;
            self.entries.set(at, TallyEntry { key, count: count + 1 });
        } else {
            self.entries.push(TallyEntry { key, count: 1 });
        }
        assert(self@ =~= tally_add(old(self)@, key@));
    }
}

} // verus!

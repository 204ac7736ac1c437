//! Amounts by worker: an association list with unique worker ids, in the
//! order in which the workers first appear.

use crate::text::str_eq;
use vstd::prelude::*;
use vstd::string::*;

verus! {

/// Amounts by worker id, as a sequence of pairs without repeated ids.
pub type Tally = Seq<(Seq<char>, u64)>;

/// Whether the tally holds an amount for `key`.
pub open spec fn has_key(tally: Tally, key: Seq<char>) -> bool {
    exists|i: int| 0 <= i < tally.len() && (#[trigger] tally[i]).0 == key
}

/// The position of `key` in the tally.
pub open spec fn key_index(tally: Tally, key: Seq<char>) -> int {
    choose|i: int| 0 <= i < tally.len() && (#[trigger] tally[i]).0 == key
}

/// No worker id occurs twice.
pub open spec fn unique_keys(tally: Tally) -> bool {
    forall|i: int, j: int| 0 <= i < j < tally.len() ==> (#[trigger] tally[i]).0 != (#[trigger] tally[j]).0
}

/// The amount for `key`, if the tally holds one.
pub open spec fn lookup(tally: Tally, key: Seq<char>) -> Option<u64> {
    if has_key(tally, key) {
        Some(tally[key_index(tally, key)].1)
    } else {
        None
    }
}

/// The amount for `key`, zero if the tally holds none.
pub open spec fn amount_for(tally: Tally, key: Seq<char>) -> u64 {
    match lookup(tally, key) {
        Some(amount) => amount,
        None => 0,
    }
}

/// The sum of all amounts.
pub open spec fn tally_total(tally: Tally) -> nat
    decreases tally.len(),
{
    if tally.len() == 0 {
        0
    } else {
        tally_total(tally.drop_last()) + tally.last().1 as nat
    }
}

/// The tally with `amount` set for `key`: in its place if the key is there,
/// else at the end.
pub open spec fn with_amount(tally: Tally, key: Seq<char>, amount: u64) -> Tally {
    if has_key(tally, key) {
        tally.update(key_index(tally, key), (key, amount))
    } else {
        tally.push((key, amount))
    }
}

/// The sum of two amounts, capped at `u64::MAX`.
pub open spec fn capped_sum(a: u64, b: u64) -> u64 {
    if a + b > u64::MAX {
        u64::MAX
    } else {
        (a + b) as u64
    }
}

/// The tally with `amount` added for `key`, the sum capped at `u64::MAX`.
pub open spec fn credited(tally: Tally, key: Seq<char>, amount: u64) -> Tally {
    with_amount(tally, key, capped_sum(amount_for(tally, key), amount))
}

/// With unique ids, the position of an id is the one place that holds it.
pub proof fn lemma_key_index(tally: Tally, i: int)
    requires
        unique_keys(tally),
        0 <= i < tally.len(),
    ensures
        has_key(tally, tally[i].0),
        key_index(tally, tally[i].0) == i,
        lookup(tally, tally[i].0) == Some(tally[i].1),
{
    let k = key_index(tally, tally[i].0);
    if k < i {
        assert(tally[k].0 != tally[i].0);
    } else if i < k {
        assert(tally[i].0 != tally[k].0);
    }
}

/// Setting an amount keeps the ids unique.
pub proof fn lemma_with_amount_unique(tally: Tally, key: Seq<char>, amount: u64)
    requires
        unique_keys(tally),
    ensures
        unique_keys(with_amount(tally, key, amount)),
        lookup(with_amount(tally, key, amount), key) == Some(amount),
        forall|other: Seq<char>|
            other != key ==> lookup(with_amount(tally, key, amount), other) == lookup(tally, other),
{
    let next = with_amount(tally, key, amount);
    if has_key(tally, key) {
        let k = key_index(tally, key);
        assert forall|i: int, j: int| 0 <= i < j < next.len() implies (#[trigger] next[i]).0 != (
        #[trigger] next[j]).0 by {
            assert(tally[i].0 != tally[j].0);
        }
        assert(next[k].0 == key);
        lemma_key_index(next, k);
    } else {
        assert forall|i: int, j: int| 0 <= i < j < next.len() implies (#[trigger] next[i]).0 != (
        #[trigger] next[j]).0 by {
            if j < tally.len() {
                assert(tally[i].0 != tally[j].0);
            } else {
                assert(tally[i].0 != key);
            }
        }
        assert(next[tally.len() as int].0 == key);
        lemma_key_index(next, tally.len() as int);
    }
    assert forall|other: Seq<char>| other != key implies lookup(next, other) == lookup(
        tally,
        other,
    ) by {
        if has_key(tally, other) {
            let o = key_index(tally, other);
            assert(next[o] == tally[o]);
            lemma_key_index(tally, o);
            lemma_key_index(next, o);
        } else if has_key(next, other) {
            let o = key_index(next, other);
            assert(o < tally.len());
            assert(tally[o].0 == other);
        }
    }
}

/// Replacing the amount at a position changes the total by the difference.
pub proof fn lemma_total_update(tally: Tally, i: int, entry: (Seq<char>, u64))
    requires
        0 <= i < tally.len(),
    ensures
        tally_total(tally.update(i, entry)) == tally_total(tally) - tally[i].1 + entry.1,
        tally[i].1 <= tally_total(tally),
    decreases tally.len(),
{
    let next = tally.update(i, entry);
    if i == tally.len() - 1 {
        assert(next.drop_last() =~= tally.drop_last());
    } else {
        assert(next.drop_last() =~= tally.drop_last().update(i, entry));
        lemma_total_update(tally.drop_last(), i, entry);
    }
}

/// Appending an amount adds it to the total.
pub proof fn lemma_total_push(tally: Tally, entry: (Seq<char>, u64))
    ensures
        tally_total(tally.push(entry)) == tally_total(tally) + entry.1,
{
    assert(tally.push(entry).drop_last() =~= tally);
}

/// Removing a position takes its amount off the total.
pub proof fn lemma_total_remove(tally: Tally, i: int)
    requires
        0 <= i < tally.len(),
    ensures
        tally_total(tally.remove(i)) == tally_total(tally) - tally[i].1,
    decreases tally.len(),
{
    let next = tally.remove(i);
    if i == tally.len() - 1 {
        assert(next =~= tally.drop_last());
    } else {
        assert(next.drop_last() =~= tally.drop_last().remove(i));
        assert(next.last() == tally.last());
        lemma_total_remove(tally.drop_last(), i);
    }
}

/// The total of a tally is at most its length times the largest amount.
pub proof fn lemma_total_bound(tally: Tally)
    ensures
        tally_total(tally) <= tally.len() * u64::MAX,
    decreases tally.len(),
{
    if tally.len() > 0 {
        lemma_total_bound(tally.drop_last());
        assert((tally.len() - 1) * u64::MAX + u64::MAX == tally.len() * u64::MAX)
            by (nonlinear_arith);
    }
}

/// Crediting adds the amount to the total, unless the sum is capped.
pub proof fn lemma_credited_total(tally: Tally, key: Seq<char>, amount: u64)
    requires
        unique_keys(tally),
        amount_for(tally, key) + amount <= u64::MAX,
    ensures
        tally_total(credited(tally, key, amount)) == tally_total(tally) + amount,
{
    if has_key(tally, key) {
        let k = key_index(tally, key);
        lemma_total_update(tally, k, (key, capped_sum(tally[k].1, amount)));
    } else {
        lemma_total_push(tally, (key, amount));
    }
}

/// One worker's amount.
#[derive(Debug)]
pub struct RewardEntry {
    /// The worker's id.
    pub worker_id: String,
    /// The amount in satoshis.
    pub amount: u64,
}

/// Amounts by worker.
#[derive(Debug)]
pub struct RewardMap {
    entries: Vec<RewardEntry>,
}

impl View for RewardMap {
    type V = Seq<(Seq<char>, u64)>;

    /// The amounts by worker id, in the order in which the workers first appeared.
    closed spec fn view(&self) -> Tally {
        self.entries@.map_values(|e: RewardEntry| (e.worker_id@, e.amount))
    }
}

impl RewardMap {
    /// No worker id occurs twice.
    pub open spec fn wf(&self) -> bool {
        unique_keys(self@)
    }

    /// An empty map.
    pub fn new() -> (r: Self)
        ensures
            r.wf(),
            r@ == Seq::<(Seq<char>, u64)>::empty(),
    {
        let r = RewardMap { entries: Vec::new() };
        assert(r@ =~= Seq::<(Seq<char>, u64)>::empty());
        r
    }

    /// The number of workers.
    pub fn len(&self) -> (r: usize)
        ensures
            r == self@.len(),
    {
        self.entries.len()
    }

    /// Whether the map holds no worker.
    pub fn is_empty(&self) -> (r: bool)
        ensures
            r == (self@.len() == 0),
    {
        self.entries.len() == 0
    }

    /// The worker id at a position.
    pub fn worker_at(&self, i: usize) -> (r: &str)
        requires
            i < self@.len(),
        ensures
            r@ == self@[i as int].0,
    {
        self.entries[i].worker_id.as_str()
    }

    /// The amount at a position.
    pub fn amount_at(&self, i: usize) -> (r: u64)
        requires
            i < self@.len(),
        ensures
            r == self@[i as int].1,
    {
        self.entries[i].amount
    }

    fn find(&self, worker_id: &str) -> (r: Option<usize>)
        requires
            self.wf(),
        ensures
            match r {
                Some(i) => i < self@.len() && has_key(self@, worker_id@) && key_index(
                    self@,
                    worker_id@,
                ) == i,
                None => !has_key(self@, worker_id@),
            },
    {
        let mut i: usize = 0;
        while i < self.entries.len()
            invariant
                i <= self.entries@.len(),
                self@.len() == self.entries@.len(),
                unique_keys(self@),
                forall|j: int| 0 <= j < i ==> (#[trigger] self@[j]).0 != worker_id@,
            decreases self.entries@.len() - i,
        {
            if str_eq(self.entries[i].worker_id.as_str(), worker_id) {
                proof {
                    assert(self@[i as int].0 == worker_id@);
                    lemma_key_index(self@, i as int);
                }
                return Some(i);
            }
            i += 1;
        }
        None
    }

    /// The amount of a worker, if the map holds one.
    pub fn get(&self, worker_id: &str) -> (r: Option<u64>)
        requires
            self.wf(),
        ensures
            r == lookup(self@, worker_id@),
    {
        match self.find(worker_id) {
            Some(i) => Some(self.entries[i].amount),
            None => None,
        }
    }

    /// Adds an amount for a worker; the worker's sum is capped at `u64::MAX`.
    pub fn credit(&mut self, worker_id: &str, amount: u64)
        requires
            old(self).wf(),
        ensures
            final(self).wf(),
            final(self)@ == credited(old(self)@, worker_id@, amount),
    {
        let ghost before = self@;
        proof {
            lemma_with_amount_unique(
                before,
                worker_id@,
                capped_sum(amount_for(before, worker_id@), amount),
            );
        }
        match self.find(worker_id) {
            Some(i) => {
                let sum = self.entries[i].amount.saturating_add(amount);
                self.entries[i].amount = sum;
                assert(self@ =~= credited(before, worker_id@, amount));
            },
            None => {
                self.entries.push(RewardEntry { worker_id: String::from_str(worker_id), amount });
                assert(self@ =~= credited(before, worker_id@, amount));
            },
        }
    }

    /// The sum of all amounts.
    pub fn total(&self) -> (r: u128)
        ensures
            r == tally_total(self@),
    {
        let mut sum: u128 = 0;
        let mut i: usize = 0;
        assert(self@.subrange(0, 0) =~= Seq::<(Seq<char>, u64)>::empty());
        while i < self.entries.len()
            invariant
                i <= self.entries@.len(),
                self@.len() == self.entries@.len(),
                sum == tally_total(self@.subrange(0, i as int)),
            decreases self.entries@.len() - i,
        {
            let ghost longer = self@.subrange(0, i + 1);
            assert(longer.drop_last() =~= self@.subrange(0, i as int));
            assert(longer.last() == self@[i as int]);
            proof {
                lemma_total_bound(longer);
                assert(longer.len() * u64::MAX <= usize::MAX * u64::MAX) by (nonlinear_arith)
                    requires
                        longer.len() <= usize::MAX,
                ;
            }
            sum += self.entries[i].amount as u128;
            i += 1;
        }
        assert(self@.subrange(0, self@.len() as int) =~= self@);
        sum
    }
}

} // verus!

use vstd::prelude::*;

use crate::account::{AccountId, Balance};

verus! {

/// A map keyed by account, kept as a list of distinct keys with their values.
pub struct AccountMap<V> {
    entries: Vec<(AccountId, V)>,
    contents: Ghost<Map<AccountId, V>>,
}

/// A balance table: absent accounts hold zero.
pub type BalanceTable = AccountMap<Balance>;

/// The amount that `m` records for `k`, zero where it records none.
pub open spec fn amount_in(m: Map<AccountId, Balance>, k: AccountId) -> Balance {
    if m.contains_key(k) {
        m[k]
    } else {
        0
    }
}

impl<V: Copy> View for AccountMap<V> {
    type V = Map<AccountId, V>;

    closed spec fn view(&self) -> Map<AccountId, V> {
        self.contents@
    }
}

impl<V: Copy> AccountMap<V> {
    /// The list holds each key once, and exactly the keys of the map with
    /// their values.
    pub closed spec fn wf(&self) -> bool {
        &&& forall|i: int, j: int|
            0 <= i < j < self.entries@.len() ==> self.entries@[i].0 != self.entries@[j].0
        &&& forall|i: int|
            0 <= i < self.entries@.len() ==> {
                &&& self.contents@.contains_key(#[trigger] self.entries@[i].0)
                &&& self.contents@[self.entries@[i].0] == self.entries@[i].1
            }
        &&& forall|k: AccountId| #[trigger]
            self.contents@.contains_key(k) ==> exists|i: int|
                0 <= i < self.entries@.len() && self.entries@[i].0 == k
    }

    pub fn new() -> (r: Self)
        ensures
            r.wf(),
            r@ == Map::<AccountId, V>::empty(),
    {
        AccountMap { entries: Vec::new(), contents: Ghost(Map::empty()) }
    }

    fn find(&self, k: AccountId) -> (r: Option<usize>)
        requires
            self.wf(),
        ensures
            match r {
                Some(i) => i < self.entries@.len() && self.entries@[i as int].0 == k,
                None => !self@.contains_key(k),
            },
    {
        let mut i: usize = 0;
        while i < self.entries.len()
            invariant
                self.wf(),
                i <= self.entries@.len(),
                forall|j: int| 0 <= j < i ==> self.entries@[j].0 != k,
            decreases self.entries@.len() - i,
        {
            if self.entries[i].0 == k {
                return Some(i);
            }
            i += 1;
        }
        None
    }

    /// The value recorded for `k`, if any.
    pub fn get(&self, k: AccountId) -> (r: Option<V>)
        requires
            self.wf(),
        ensures
            r == (if self@.contains_key(k) {
                Some(self@[k])
            } else {
                None
            }),
    {
        match self.find(k) {
            Some(i) => Some(self.entries[i].1),
            None => None,
        }
    }

    /// Records `v` for `k`, replacing what was there.
    pub fn insert(&mut self, k: AccountId, v: V)
        requires
            old(self).wf(),
        ensures
            final(self).wf(),
            final(self)@ == old(self)@.insert(k, v),
    {
        let ghost idx: int;
        match self.find(k) {
            Some(i) => {
                self.entries.set(i, (k, v));
                proof {
                    idx = i as int;
                }
            },
            None => {
                self.entries.push((k, v));
                proof {
                    idx = self.entries@.len() - 1;
                }
            },
        }
        self.contents = Ghost(self.contents@.insert(k, v));
        assert(self.entries@[idx].0 == k);
        assert forall|k2: AccountId| #[trigger] self.contents@.contains_key(k2) implies exists|i: int|
            0 <= i < self.entries@.len() && self.entries@[i].0 == k2 by {
            if k2 != k {
                let j = choose|j: int|
                    0 <= j < old(self).entries@.len() && old(self).entries@[j].0 == k2;
                assert(self.entries@[j].0 == k2);
            }
        }
    }

    /// A copy of the map.
    pub fn duplicate(&self) -> (r: Self)
        requires
            self.wf(),
        ensures
            r.wf(),
            r@ == self@,
    {
        let mut entries: Vec<(AccountId, V)> = Vec::new();
        let mut i: usize = 0;
        while i < self.entries.len()
            invariant
                i <= self.entries@.len(),
                entries@ == self.entries@.take(i as int),
            decreases self.entries@.len() - i,
        {
            entries.push(self.entries[i]);
            i += 1;
            assert(entries@ =~= self.entries@.take(i as int));
        }
        assert(entries@ =~= self.entries@);
        let r = AccountMap { entries, contents: Ghost(self.contents@) };
        assert(r.entries@ == self.entries@);
        assert(r.contents@ == self.contents@);
        r
    }
}

/// `m` after `value` moves from `from` to `to`: nothing changes when the two
/// are the same account.
pub open spec fn moved(
    m: Map<AccountId, Balance>,
    from: AccountId,
    to: AccountId,
    value: Balance,
) -> Map<AccountId, Balance> {
    if from == to {
        m
    } else {
        m.insert(from, (amount_in(m, from) - value) as Balance).insert(
            to,
            (amount_in(m, to) + value) as Balance,
        )
    }
}

/// The sum of the amounts in a list of entries.
pub open spec fn sum_entries(s: Seq<(AccountId, Balance)>) -> int
    decreases s.len(),
{
    if s.len() == 0 {
        0
    } else {
        sum_entries(s.drop_last()) + s.last().1
    }
}

proof fn lemma_sum_update(s: Seq<(AccountId, Balance)>, i: int, x: (AccountId, Balance))
    requires
        0 <= i < s.len(),
    ensures
        sum_entries(s.update(i, x)) == sum_entries(s) - s[i].1 + x.1,
    decreases s.len(),
{
    if i == s.len() - 1 {
        assert(s.update(i, x).drop_last() =~= s.drop_last());
    } else {
        assert(s.update(i, x).drop_last() =~= s.drop_last().update(i, x));
        lemma_sum_update(s.drop_last(), i, x);
    }
}

proof fn lemma_sum_one(s: Seq<(AccountId, Balance)>, i: int)
    requires
        0 <= i < s.len(),
    ensures
        s[i].1 <= sum_entries(s),
        sum_entries(s) >= 0,
    decreases s.len(),
{
    lemma_sum_nonneg(s.drop_last());
    if i < s.len() - 1 {
        lemma_sum_one(s.drop_last(), i);
    }
}

proof fn lemma_sum_nonneg(s: Seq<(AccountId, Balance)>)
    ensures
        sum_entries(s) >= 0,
    decreases s.len(),
{
    if s.len() > 0 {
        lemma_sum_nonneg(s.drop_last());
    }
}

proof fn lemma_sum_two(s: Seq<(AccountId, Balance)>, i: int, j: int)
    requires
        0 <= i < s.len(),
        0 <= j < s.len(),
        i != j,
    ensures
        s[i].1 + s[j].1 <= sum_entries(s),
    decreases s.len(),
{
    if i < s.len() - 1 && j < s.len() - 1 {
        lemma_sum_two(s.drop_last(), i, j);
    } else if i == s.len() - 1 {
        lemma_sum_one(s.drop_last(), j);
    } else {
        lemma_sum_one(s.drop_last(), i);
    }
}

impl AccountMap<Balance> {
    /// The sum of all recorded balances.
    pub closed spec fn total(&self) -> int {
        sum_entries(self.entries@)
    }

    /// An empty table holds nothing in total.
    pub proof fn lemma_empty_total(&self)
        requires
            self.wf(),
            self@ == Map::<AccountId, Balance>::empty(),
        ensures
            self.total() == 0,
    {
        if self.entries@.len() > 0 {
            assert(self.contents@.contains_key(self.entries@[0].0));
        }
    }

    /// No balance exceeds the total, and two distinct accounts hold no more
    /// than the total together.
    pub proof fn lemma_within_total(&self, a: AccountId, b: AccountId)
        requires
            self.wf(),
        ensures
            0 <= amount_in(self@, a) <= self.total(),
            a != b ==> amount_in(self@, a) + amount_in(self@, b) <= self.total(),
    {
        if self.entries@.len() > 0 {
            lemma_sum_one(self.entries@, 0);
        }
        if self@.contains_key(a) {
            let i = choose|i: int| 0 <= i < self.entries@.len() && self.entries@[i].0 == a;
            lemma_sum_one(self.entries@, i);
            if a != b && self@.contains_key(b) {
                let j = choose|j: int| 0 <= j < self.entries@.len() && self.entries@[j].0 == b;
                lemma_sum_two(self.entries@, i, j);
            }
        }
        if a != b && self@.contains_key(b) {
            let j = choose|j: int| 0 <= j < self.entries@.len() && self.entries@[j].0 == b;
            lemma_sum_one(self.entries@, j);
        }
    }

    /// Records `v` for `k`; the total changes by the difference.
    pub fn set_amount(&mut self, k: AccountId, v: Balance)
        requires
            old(self).wf(),
        ensures
            final(self).wf(),
            final(self)@ == old(self)@.insert(k, v),
            final(self).total() == old(self).total() - amount_in(old(self)@, k) + v,
    {
        let ghost idx: int;
        match self.find(k) {
            Some(i) => {
                proof {
                    lemma_sum_update(self.entries@, i as int, (k, v));
                }
                self.entries.set(i, (k, v));
                proof {
                    idx = i as int;
                }
            },
            None => {
                assert(self.entries@.push((k, v)).drop_last() =~= self.entries@);
                self.entries.push((k, v));
                proof {
                    idx = self.entries@.len() - 1;
                }
            },
        }
        self.contents = Ghost(self.contents@.insert(k, v));
        assert(self.entries@[idx].0 == k);
        assert forall|k2: AccountId| #[trigger] self.contents@.contains_key(k2) implies exists|i: int|
            0 <= i < self.entries@.len() && self.entries@[i].0 == k2 by {
            if k2 != k {
                let j = choose|j: int|
                    0 <= j < old(self).entries@.len() && old(self).entries@[j].0 == k2;
                assert(self.entries@[j].0 == k2);
            }
        }
    }

    /// The balance of `k`, zero where none is recorded.
    pub fn amount(&self, k: AccountId) -> (r: Balance)
        requires
            self.wf(),
        ensures
            r == amount_in(self@, k),
    {
        match self.get(k) {
            Some(b) => b,
            None => 0,
        }
    }

    /// Moves `value` from `from` to `to`, and returns what `from` holds after.
    pub fn move_amount(&mut self, from: AccountId, to: AccountId, value: Balance) -> (r: Balance)
        requires
            old(self).wf(),
            amount_in(old(self)@, from) >= value,
            from != to ==> amount_in(old(self)@, to) + value <= Balance::MAX,
        ensures
            final(self).wf(),
            final(self)@ == moved(old(self)@, from, to, value),
            final(self).total() == old(self).total(),
            r == amount_in(final(self)@, from),
    {
        if from == to {
            return self.amount(from);
        }
        let from_balance = self.amount(from);
        let to_balance = self.amount(to);
        self.set_amount(from, from_balance - value);
        self.set_amount(to, to_balance + value);
        from_balance - value
    }
}

/// A copy of `v`, element for element.
pub fn copy_vec<T: Copy>(v: &Vec<T>) -> (r: Vec<T>)
    ensures
        r@ == v@,
{
    let mut r: Vec<T> = Vec::new();
    let mut i: usize = 0;
    while i < v.len()
        invariant
            i <= v@.len(),
            r@ == v@.take(i as int),
        decreases v@.len() - i,
    {
        r.push(v[i]);
        i += 1;
        assert(r@ =~= v@.take(i as int));
    }
    assert(r@ =~= v@);
    r
}

} // verus!

use vstd::prelude::*;

use crate::account::AccountId;

verus! {

/// The number of vaults with an id below `n` that `reg` records for `owner`.
pub open spec fn owned_below(reg: Map<u8, AccountId>, owner: AccountId, n: nat) -> nat
    decreases n,
{
    if n == 0 {
        0
    } else {
        let k = (n - 1) as u8;
        owned_below(reg, owner, (n - 1) as nat) + if reg.contains_key(k) && reg[k] == owner {
            1nat
        } else {
            0nat
        }
    }
}

/// The number of vaults that `reg` records for `owner`.
pub open spec fn vaults_owned(reg: Map<u8, AccountId>, owner: AccountId) -> nat {
    owned_below(reg, owner, 256)
}

/// Registering a new vault for `owner` adds one to `owner`'s count and leaves
/// every other count alone.
pub proof fn lemma_owned_insert(
    reg: Map<u8, AccountId>,
    k: u8,
    owner: AccountId,
    who: AccountId,
    n: nat,
)
    requires
        !reg.contains_key(k),
        n <= 256,
    ensures
        owned_below(reg.insert(k, owner), who, n) == owned_below(reg, who, n) + if k < n && who
            == owner {
            1nat
        } else {
            0nat
        },
    decreases n,
{
    if n > 0 {
        lemma_owned_insert(reg, k, owner, who, (n - 1) as nat);
    }
}

/// Removing a registered vault takes one from its owner's count and leaves
/// every other count alone.
pub proof fn lemma_owned_remove(reg: Map<u8, AccountId>, k: u8, who: AccountId, n: nat)
    requires
        reg.contains_key(k),
        n <= 256,
    ensures
        owned_below(reg, who, n) == owned_below(reg.remove(k), who, n) + if k < n && reg[k]
            == who {
            1nat
        } else {
            0nat
        },
    decreases n,
{
    if n > 0 {
        lemma_owned_remove(reg, k, who, (n - 1) as nat);
    }
}

/// The number of vaults with an id below `n` that `reg` records.
pub open spec fn registered_below(reg: Map<u8, AccountId>, n: nat) -> nat
    decreases n,
{
    if n == 0 {
        0
    } else {
        registered_below(reg, (n - 1) as nat) + if reg.contains_key((n - 1) as u8) {
            1nat
        } else {
            0nat
        }
    }
}

/// The number of open vaults.
pub open spec fn vault_count(reg: Map<u8, AccountId>) -> nat {
    registered_below(reg, 256)
}

/// Registering a new vault adds one to the number of open vaults.
pub proof fn lemma_count_insert(reg: Map<u8, AccountId>, k: u8, owner: AccountId, n: nat)
    requires
        !reg.contains_key(k),
        n <= 256,
    ensures
        registered_below(reg.insert(k, owner), n) == registered_below(reg, n) + if k < n {
            1nat
        } else {
            0nat
        },
    decreases n,
{
    if n > 0 {
        lemma_count_insert(reg, k, owner, (n - 1) as nat);
    }
}

/// Removing a registered vault takes one from the number of open vaults.
pub proof fn lemma_count_remove(reg: Map<u8, AccountId>, k: u8, n: nat)
    requires
        reg.contains_key(k),
        n <= 256,
    ensures
        registered_below(reg, n) == registered_below(reg.remove(k), n) + if k < n {
            1nat
        } else {
            0nat
        },
    decreases n,
{
    if n > 0 {
        lemma_count_remove(reg, k, (n - 1) as nat);
    }
}

/// The vaults that are open, by id.
pub struct VaultRegistry {
    slots: Vec<Option<AccountId>>,
}

impl View for VaultRegistry {
    type V = Map<u8, AccountId>;

    closed spec fn view(&self) -> Map<u8, AccountId> {
        Map::new(|k: u8| self.slots@[k as int].is_some(), |k: u8| self.slots@[k as int]->Some_0)
    }
}

impl VaultRegistry {
    pub closed spec fn wf(&self) -> bool {
        self.slots@.len() == 256
    }

    pub fn new() -> (r: Self)
        ensures
            r.wf(),
            r@ == Map::<u8, AccountId>::empty(),
    {
        let mut slots: Vec<Option<AccountId>> = Vec::new();
        let mut i: usize = 0;
        while i < 256
            invariant
                i <= 256,
                slots@.len() == i,
                forall|j: int| 0 <= j < i ==> slots@[j].is_none(),
            decreases 256 - i,
        {
            slots.push(None);
            i += 1;
        }
        let r = VaultRegistry { slots };
        assert(r@ =~= Map::<u8, AccountId>::empty());
        r
    }

    /// The owner of vault `k`, if it is open.
    pub fn get(&self, k: u8) -> (r: Option<AccountId>)
        requires
            self.wf(),
        ensures
            r == (if self@.contains_key(k) {
                Some(self@[k])
            } else {
                None
            }),
    {
        self.slots[k as usize]
    }

    pub fn contains(&self, k: u8) -> (r: bool)
        requires
            self.wf(),
        ensures
            r == self@.contains_key(k),
    {
        self.slots[k as usize].is_some()
    }

    pub fn insert(&mut self, k: u8, owner: AccountId)
        requires
            old(self).wf(),
        ensures
            final(self).wf(),
            final(self)@ == old(self)@.insert(k, owner),
    {
        self.slots.set(k as usize, Some(owner));
        assert(self@ =~= old(self)@.insert(k, owner));
    }

    pub fn remove(&mut self, k: u8)
        requires
            old(self).wf(),
        ensures
            final(self).wf(),
            final(self)@ == old(self)@.remove(k),
    {
        self.slots.set(k as usize, None);
        assert(self@ =~= old(self)@.remove(k));
    }
}

} // verus!

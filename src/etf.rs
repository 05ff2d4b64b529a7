use vstd::prelude::*;

use crate::account::{AccountId, Balance};
use crate::basket::{
    basket_sum, lemma_fits_down, lemma_shifted_amounts, lemma_sum_distinct, shift_fits, shifted,
};
use crate::ledger::{amount_in, copy_vec, moved, AccountMap, BalanceTable};
use crate::registry::{
    lemma_count_insert, lemma_count_remove, lemma_owned_insert, lemma_owned_remove, registered_below,
    vault_count, vaults_owned, VaultRegistry,
};
use crate::remote::{RemoteCall, TokenCall};

verus! {

/// Pool shares minted for each open vault.
pub const SHARES: Balance = 100;

/// Why a vault-pool operation was refused.
#[derive(Debug, Clone, Copy, PartialEq, Eq, Structural)]
pub enum ContractError {
    /// A balance is below what the operation takes from it.
    InsufficientBalance,
    /// The token is not part of the basket.
    UnsupportedToken,
    /// The caller may not do this.
    TransferFailed,
    /// Reserved for a failed close.
    CloseVaultFailed,
    /// The vault id given is already registered.
    VaultAlreadyExists,
    /// No vault is registered under the id given.
    VaultNotFound,
    /// A balance, the supply or a counter would leave its range.
    Overflow,
}

/// Notification that a vault was opened.
#[derive(Debug, Clone, Copy)]
pub struct VaultOpened {
    pub vault: u8,
    pub owner: AccountId,
}

/// Notification that a vault was closed.
#[derive(Debug, Clone, Copy)]
pub struct VaultClosed {
    pub vault: u8,
    pub owner: AccountId,
}

/// The state of a vault pool.
pub struct PoolState {
    /// The id that the next vault gets.
    pub counter: u8,
    /// The basket: tokens, and the amount of each that a vault locks.
    pub tokens: Seq<AccountId>,
    pub amounts: Seq<Balance>,
    /// The owner of each open vault.
    pub vaults: Map<u8, AccountId>,
    /// The number of open vaults of each owner.
    pub owned: Map<AccountId, u8>,
    /// Collateral held, by token, and pool shares, by holder, in one table.
    pub balances: Map<AccountId, Balance>,
    pub total_supply: Balance,
}

/// The number of open vaults that `m` records for `o`, zero where none.
pub open spec fn owned_count(m: Map<AccountId, u8>, o: AccountId) -> u8 {
    if m.contains_key(o) {
        m[o]
    } else {
        0
    }
}

/// What holds of a pool in every reachable state.
pub open spec fn pool_inv(s: PoolState) -> bool {
    &&& s.tokens.len() == s.amounts.len()
    &&& forall|k: u8| #[trigger] s.vaults.contains_key(k) ==> k < s.counter
    &&& forall|o: AccountId| #[trigger] owned_count(s.owned, o) == vaults_owned(s.vaults, o)
    &&& s.total_supply == SHARES * vault_count(s.vaults)
}

/// The balances after the whole basket is locked in.
pub open spec fn locked(s: PoolState) -> Map<AccountId, Balance> {
    shifted(s.balances, s.tokens, s.amounts, s.tokens.len(), true)
}

/// Why `open_vault` fails, if it does.
pub open spec fn open_error(s: PoolState, caller: AccountId, owner: AccountId, vault: u8) -> Option<
    ContractError,
> {
    if s.vaults.contains_key(vault) {
        Some(ContractError::VaultAlreadyExists)
    } else if exists|i: int|
        0 <= i < s.tokens.len() && (#[trigger] amount_in(s.balances, s.tokens[i])) < s.amounts[i] {
        Some(ContractError::InsufficientBalance)
    } else if !shift_fits(s.balances, s.tokens, s.amounts, s.tokens.len(), true) || s.counter == 255
        || owned_count(s.owned, owner) == 255 || amount_in(locked(s), caller) + SHARES
        > Balance::MAX || s.total_supply + SHARES > Balance::MAX {
        Some(ContractError::Overflow)
    } else {
        None
    }
}

/// The pool after `open_vault` succeeds.
pub open spec fn after_open(s: PoolState, caller: AccountId, owner: AccountId) -> PoolState {
    PoolState {
        counter: (s.counter + 1) as u8,
        vaults: s.vaults.insert(s.counter, owner),
        owned: s.owned.insert(owner, (owned_count(s.owned, owner) + 1) as u8),
        balances: locked(s).insert(caller, (amount_in(locked(s), caller) + SHARES) as Balance),
        total_supply: (s.total_supply + SHARES) as Balance,
        ..s
    }
}

/// The transfers that bring a basket in from `caller`.
pub open spec fn open_calls(s: PoolState, caller: AccountId, contract: AccountId) -> Seq<RemoteCall> {
    Seq::new(
        s.tokens.len(),
        |i: int| RemoteCall::transfer_from_spec(s.tokens[i], caller, contract, s.amounts[i]),
    )
}

/// The balances after `caller` gives up the shares of one vault.
pub open spec fn burned(s: PoolState, caller: AccountId) -> Map<AccountId, Balance> {
    s.balances.insert(caller, (amount_in(s.balances, caller) - SHARES) as Balance)
}

/// Why `close_vault` fails, if it does.
pub open spec fn close_error(s: PoolState, caller: AccountId, vault: u8) -> Option<ContractError> {
    if !s.vaults.contains_key(vault) {
        Some(ContractError::VaultNotFound)
    } else if amount_in(s.balances, caller) < SHARES {
        Some(ContractError::InsufficientBalance)
    } else if !shift_fits(burned(s, caller), s.tokens, s.amounts, s.tokens.len(), false) {
        Some(ContractError::InsufficientBalance)
    } else {
        None
    }
}

/// The pool after `close_vault` succeeds.
pub open spec fn after_close(s: PoolState, caller: AccountId, vault: u8) -> PoolState {
    let owner = s.vaults[vault];
    PoolState {
        vaults: s.vaults.remove(vault),
        owned: s.owned.insert(owner, (owned_count(s.owned, owner) - 1) as u8),
        balances: shifted(burned(s, caller), s.tokens, s.amounts, s.tokens.len(), false),
        total_supply: (s.total_supply - SHARES) as Balance,
        ..s
    }
}

/// The transfers that hand a basket back to `caller`.
pub open spec fn close_calls(s: PoolState, caller: AccountId, contract: AccountId) -> Seq<RemoteCall> {
    Seq::new(
        s.tokens.len(),
        |i: int| RemoteCall::transfer_from_spec(s.tokens[i], contract, caller, s.amounts[i]),
    )
}

/// Why a transfer of pool shares fails, if it does.
pub open spec fn transfer_error(s: PoolState, from: AccountId, to: AccountId, value: Balance) -> Option<
    ContractError,
> {
    if amount_in(s.balances, from) < value {
        Some(ContractError::InsufficientBalance)
    } else if from != to && amount_in(s.balances, to) + value > Balance::MAX {
        Some(ContractError::Overflow)
    } else {
        None
    }
}

/// The pool after a transfer of pool shares succeeds.
pub open spec fn after_transfer(s: PoolState, from: AccountId, to: AccountId, value: Balance) -> PoolState {
    PoolState { balances: moved(s.balances, from, to, value), ..s }
}

/// A successful open keeps the pool's invariant.
pub proof fn lemma_open_keeps_inv(s: PoolState, caller: AccountId, owner: AccountId, vault: u8)
    requires
        pool_inv(s),
        open_error(s, caller, owner, vault).is_none(),
    ensures
        pool_inv(after_open(s, caller, owner)),
{
    let t = after_open(s, caller, owner);
    assert(!s.vaults.contains_key(s.counter));
    lemma_count_insert(s.vaults, s.counter, owner, 256);
    assert forall|o: AccountId| #[trigger] owned_count(t.owned, o) == vaults_owned(t.vaults, o) by {
        lemma_owned_insert(s.vaults, s.counter, owner, o, 256);
        assert(owned_count(s.owned, o) == vaults_owned(s.vaults, o));
    }
}

/// A successful close keeps the pool's invariant.
pub proof fn lemma_close_keeps_inv(s: PoolState, caller: AccountId, vault: u8)
    requires
        pool_inv(s),
        close_error(s, caller, vault).is_none(),
    ensures
        pool_inv(after_close(s, caller, vault)),
{
    let t = after_close(s, caller, vault);
    let owner = s.vaults[vault];
    lemma_count_remove(s.vaults, vault, 256);
    lemma_owned_remove(s.vaults, vault, owner, 256);
    assert(owned_count(s.owned, owner) == vaults_owned(s.vaults, owner));
    assert forall|o: AccountId| #[trigger] owned_count(t.owned, o) == vaults_owned(t.vaults, o) by {
        lemma_owned_remove(s.vaults, vault, o, 256);
        assert(owned_count(s.owned, o) == vaults_owned(s.vaults, o));
    }
}

/// A pool that mints shares against locked baskets of other tokens.
pub struct EtfEscrow {
    vaults_quantity: u8,
    required_tokens: Vec<AccountId>,
    required_balances: Vec<Balance>,
    vaults: VaultRegistry,
    vaults_quantity_per_owner: AccountMap<u8>,
    balances: BalanceTable,
    total_supply: Balance,
}

impl View for EtfEscrow {
    type V = PoolState;

    closed spec fn view(&self) -> PoolState {
        PoolState {
            counter: self.vaults_quantity,
            tokens: self.required_tokens@,
            amounts: self.required_balances@,
            vaults: self.vaults@,
            owned: self.vaults_quantity_per_owner@,
            balances: self.balances@,
            total_supply: self.total_supply,
        }
    }
}

impl EtfEscrow {
    /// A well-formed pool satisfies the pool invariant.
    pub proof fn lemma_wf_inv(&self)
        requires
            self.wf(),
        ensures
            pool_inv(self@),
    {
    }

    pub closed spec fn wf(&self) -> bool {
        &&& self.vaults.wf()
        &&& self.vaults_quantity_per_owner.wf()
        &&& self.balances.wf()
        &&& pool_inv(self@)
    }

    /// A pool with no vault open, whose vaults each lock `required_balances[i]`
    /// of `required_tokens[i]`.
    pub fn new(required_tokens: Vec<AccountId>, required_balances: Vec<Balance>) -> (r: Self)
        requires
            required_tokens@.len() == required_balances@.len(),
        ensures
            r.wf(),
            r@.counter == 0,
            r@.tokens == required_tokens@,
            r@.amounts == required_balances@,
            r@.vaults == Map::<u8, AccountId>::empty(),
            r@.owned == Map::<AccountId, u8>::empty(),
            r@.balances == Map::<AccountId, Balance>::empty(),
            r@.total_supply == 0,
    {
        let r = EtfEscrow {
            vaults_quantity: 0,
            required_tokens,
            required_balances,
            vaults: VaultRegistry::new(),
            vaults_quantity_per_owner: AccountMap::new(),
            balances: BalanceTable::new(),
            total_supply: 0,
        };
        assert forall|o: AccountId| #[trigger] owned_count(r@.owned, o) == vaults_owned(r@.vaults, o) by {
            lemma_none_owned(r@.vaults, o, 256);
        }
        proof {
            lemma_none_registered(r@.vaults, 256);
        }
        r
    }

    pub fn get_required_tokens(&self) -> (r: Vec<AccountId>)
        ensures
            r@ == self@.tokens,
    {
        copy_vec(&self.required_tokens)
    }

    pub fn get_required_balances(&self) -> (r: Vec<Balance>)
        ensures
            r@ == self@.amounts,
    {
        copy_vec(&self.required_balances)
    }

    /// The owner of vault `vault`, if it is open.
    pub fn get_vault_owner(&self, vault: u8) -> (r: Option<AccountId>)
        requires
            self.wf(),
        ensures
            r == (if self@.vaults.contains_key(vault) {
                Some(self@.vaults[vault])
            } else {
                None
            }),
    {
        self.vaults.get(vault)
    }

    pub fn get_vaults_quantity_per_owner(&self, owner: AccountId) -> (r: u8)
        requires
            self.wf(),
        ensures
            r == owned_count(self@.owned, owner),
            r == vaults_owned(self@.vaults, owner),
    {
        match self.vaults_quantity_per_owner.get(owner) {
            Some(n) => n,
            None => 0,
        }
    }

    /// The id that the next vault gets.
    pub fn get_vaults_quantity(&self) -> (r: u8)
        ensures
            r == self@.counter,
    {
        self.vaults_quantity
    }

    pub fn get_balance(&self, owner: AccountId) -> (r: Balance)
        requires
            self.wf(),
        ensures
            r == amount_in(self@.balances, owner),
    {
        self.balances.amount(owner)
    }

    pub fn balance_of(&self, owner: AccountId) -> (r: Balance)
        requires
            self.wf(),
        ensures
            r == amount_in(self@.balances, owner),
    {
        self.balances.amount(owner)
    }

    pub fn total_supply(&self) -> (r: Balance)
        ensures
            r == self@.total_supply,
    {
        self.total_supply
    }

    /// The pool has no owner of its own: this answers the caller.
    pub fn get_owner(&self, caller: AccountId) -> (r: AccountId)
        ensures
            r == caller,
    {
        caller
    }

    /// Opens a vault for `owner`: locks one basket, brought in from `caller`
    /// to `contract`, and credits `caller` with `SHARES` pool shares. The new
    /// vault's id is the pool's counter; `vault` only has to be free.
    pub fn open_vault(
        &mut self,
        caller: AccountId,
        contract: AccountId,
        owner: AccountId,
        vault: u8,
    ) -> (r: Result<(u8, Vec<RemoteCall>), ContractError>)
        requires
            old(self).wf(),
        ensures
            final(self).wf(),
            match open_error(old(self)@, caller, owner, vault) {
                Some(e) => r == Err::<(u8, Vec<RemoteCall>), ContractError>(e) && final(self)@
                    == old(self)@,
                None => {
                    &&& r.is_ok()
                    &&& r->Ok_0.0 == old(self)@.counter
                    &&& !old(self)@.vaults.contains_key(old(self)@.counter)
                    &&& r->Ok_0.1@ == open_calls(old(self)@, caller, contract)
                    &&& final(self)@ == after_open(old(self)@, caller, owner)
                },
            },
    {
        let ghost s = self@;
        if self.vaults.contains(vault) {
            return Err(ContractError::VaultAlreadyExists);
        }
        let n = self.required_tokens.len();
        let mut i: usize = 0;
        while i < n
            invariant
                self@ == s,
                n == s.tokens.len(),
                self.wf(),
                i <= n,
                !s.vaults.contains_key(vault),
                forall|j: int| 0 <= j < i ==> #[trigger] amount_in(s.balances, s.tokens[j]) >= s.amounts[j],
            decreases n - i,
        {
            if self.balances.amount(self.required_tokens[i]) < self.required_balances[i] {
                assert(amount_in(s.balances, s.tokens[i as int]) < s.amounts[i as int]);
                assert(open_error(s, caller, owner, vault) == Some(ContractError::InsufficientBalance));
                return Err(ContractError::InsufficientBalance);
            }
            i += 1;
        }
        let mut scratch = self.balances.duplicate();
        let mut calls: Vec<RemoteCall> = Vec::new();
        i = 0;
        while i < n
            invariant
                self@ == s,
                n == s.tokens.len(),
                self.wf(),
                i <= n,
                scratch.wf(),
                scratch@ == shifted(s.balances, s.tokens, s.amounts, i as nat, true),
                shift_fits(s.balances, s.tokens, s.amounts, i as nat, true),
                calls@ == open_calls(s, caller, contract).take(i as int),
                !s.vaults.contains_key(vault),
                open_error(s, caller, owner, vault) != Some(ContractError::VaultAlreadyExists),
                open_error(s, caller, owner, vault) != Some(ContractError::InsufficientBalance),
            decreases n - i,
        {
            let token = self.required_tokens[i];
            let amount = self.required_balances[i];
            let cur = scratch.amount(token);
            match cur.checked_add(amount) {
                Some(v) => {
                    scratch.insert(token, v);
                },
                None => {
                    proof {
                        if shift_fits(s.balances, s.tokens, s.amounts, s.tokens.len(), true) {
                            lemma_fits_prefix(s.balances, s.tokens, s.amounts, (i + 1) as nat, s.tokens.len(), true);
                        }
                    }
                    return Err(ContractError::Overflow);
                },
            }
            calls.push(RemoteCall { token, call: TokenCall::TransferFrom { from: caller, to: contract, value: amount } });
            i += 1;
            assert(calls@ =~= open_calls(s, caller, contract).take(i as int));
        }
        assert(calls@ =~= open_calls(s, caller, contract));
        if self.vaults_quantity == 255 {
            return Err(ContractError::Overflow);
        }
        let owned = self.get_vaults_quantity_per_owner(owner);
        if owned == 255 {
            return Err(ContractError::Overflow);
        }
        let shares = scratch.amount(caller);
        if shares > Balance::MAX - SHARES || self.total_supply > Balance::MAX - SHARES {
            return Err(ContractError::Overflow);
        }
        scratch.insert(caller, shares + SHARES);
        let id = self.vaults_quantity;
        self.vaults.insert(id, owner);
        self.vaults_quantity = id + 1;
        self.vaults_quantity_per_owner.insert(owner, owned + 1);
        self.balances = scratch;
        self.total_supply = self.total_supply + SHARES;
        proof {
            lemma_open_keeps_inv(s, caller, owner, vault);
        }
        assert(self@ == after_open(s, caller, owner));
        Ok((id, calls))
    }

    /// Closes vault `vault`: takes `SHARES` pool shares from `caller`, hands
    /// one basket back from `contract` to `caller`, and takes the vault off its
    /// owner's count.
    pub fn close_vault(&mut self, caller: AccountId, contract: AccountId, vault: u8) -> (r: Result<
        Vec<RemoteCall>,
        ContractError,
    >)
        requires
            old(self).wf(),
        ensures
            final(self).wf(),
            match close_error(old(self)@, caller, vault) {
                Some(e) => r == Err::<Vec<RemoteCall>, ContractError>(e) && final(self)@ == old(
                    self,
                )@,
                None => {
                    &&& r.is_ok()
                    &&& r->Ok_0@ == close_calls(old(self)@, caller, contract)
                    &&& final(self)@ == after_close(old(self)@, caller, vault)
                },
            },
    {
        let ghost s = self@;
        let owner = match self.vaults.get(vault) {
            Some(o) => o,
            None => {
                return Err(ContractError::VaultNotFound);
            },
        };
        let shares = self.balances.amount(caller);
        if shares < SHARES {
            return Err(ContractError::InsufficientBalance);
        }
        proof {
            lemma_count_remove(s.vaults, vault, 256);
        }
        assert(self.total_supply >= SHARES);
        let mut scratch = self.balances.duplicate();
        scratch.insert(caller, shares - SHARES);
        let n = self.required_tokens.len();
        let mut calls: Vec<RemoteCall> = Vec::new();
        let mut i: usize = 0;
        while i < n
            invariant
                self@ == s,
                n == s.tokens.len(),
                self.wf(),
                i <= n,
                scratch.wf(),
                s.vaults.contains_key(vault),
                amount_in(s.balances, caller) >= SHARES,
                s.total_supply >= SHARES,
                scratch@ == shifted(burned(s, caller), s.tokens, s.amounts, i as nat, false),
                shift_fits(burned(s, caller), s.tokens, s.amounts, i as nat, false),
                calls@ == close_calls(s, caller, contract).take(i as int),
            decreases n - i,
        {
            let token = self.required_tokens[i];
            let amount = self.required_balances[i];
            let cur = scratch.amount(token);
            if cur < amount {
                proof {
                    if shift_fits(burned(s, caller), s.tokens, s.amounts, s.tokens.len(), false) {
                        lemma_fits_prefix(burned(s, caller), s.tokens, s.amounts, (i + 1) as nat, s.tokens.len(), false);
                    }
                    assert(!shift_fits(burned(s, caller), s.tokens, s.amounts, (i + 1) as nat, false));
                    assert(!shift_fits(burned(s, caller), s.tokens, s.amounts, s.tokens.len(), false));
                }
                return Err(ContractError::InsufficientBalance);
            }
            scratch.insert(token, cur - amount);
            calls.push(RemoteCall { token, call: TokenCall::TransferFrom { from: contract, to: caller, value: amount } });
            i += 1;
            assert(calls@ =~= close_calls(s, caller, contract).take(i as int));
        }
        assert(calls@ =~= close_calls(s, caller, contract));
        let owned = self.get_vaults_quantity_per_owner(owner);
        proof {
            lemma_owned_remove(s.vaults, vault, owner, 256);
        }
        self.vaults.remove(vault);
        self.vaults_quantity_per_owner.insert(owner, owned - 1);
        self.balances = scratch;
        self.total_supply = self.total_supply - SHARES;
        proof {
            lemma_close_keeps_inv(s, caller, vault);
        }
        assert(self@ == after_close(s, caller, vault));
        Ok(calls)
    }

    /// Moves `value` pool shares from `caller` to `to`, and returns what
    /// `caller` holds after.
    pub fn transfer(&mut self, caller: AccountId, to: AccountId, value: Balance) -> (r: Result<
        Balance,
        ContractError,
    >)
        requires
            old(self).wf(),
        ensures
            final(self).wf(),
            final(self)@.total_supply == old(self)@.total_supply,
            match transfer_error(old(self)@, caller, to, value) {
                Some(e) => r == Err::<Balance, ContractError>(e) && final(self)@ == old(self)@,
                None => {
                    &&& final(self)@ == after_transfer(old(self)@, caller, to, value)
                    &&& r == Ok::<Balance, ContractError>(amount_in(final(self)@.balances, caller))
                },
            },
    {
        self.transfer_from(caller, to, value)
    }

    /// Moves `value` pool shares from `from` to `to`, and returns what `from`
    /// holds after. No allowance is consulted.
    pub fn transfer_from(&mut self, from: AccountId, to: AccountId, value: Balance) -> (r: Result<
        Balance,
        ContractError,
    >)
        requires
            old(self).wf(),
        ensures
            final(self).wf(),
            final(self)@.total_supply == old(self)@.total_supply,
            match transfer_error(old(self)@, from, to, value) {
                Some(e) => r == Err::<Balance, ContractError>(e) && final(self)@ == old(self)@,
                None => {
                    &&& final(self)@ == after_transfer(old(self)@, from, to, value)
                    &&& r == Ok::<Balance, ContractError>(amount_in(final(self)@.balances, from))
                },
            },
    {
        let from_balance = self.balances.amount(from);
        if from_balance < value {
            return Err(ContractError::InsufficientBalance);
        }
        if from != to && self.balances.amount(to) > Balance::MAX - value {
            return Err(ContractError::Overflow);
        }
        let ghost s = self@;
        let left = self.balances.move_amount(from, to, value);
        assert(self@ == after_transfer(s, from, to, value));
        Ok(left)
    }
}

/// An empty registry records no vault for anyone.
proof fn lemma_none_owned(reg: Map<u8, AccountId>, o: AccountId, n: nat)
    requires
        reg == Map::<u8, AccountId>::empty(),
    ensures
        crate::registry::owned_below(reg, o, n) == 0,
    decreases n,
{
    if n > 0 {
        lemma_none_owned(reg, o, (n - 1) as nat);
    }
}

/// An empty registry holds no vault.
proof fn lemma_none_registered(reg: Map<u8, AccountId>, n: nat)
    requires
        reg == Map::<u8, AccountId>::empty(),
    ensures
        registered_below(reg, n) == 0,
    decreases n,
{
    if n > 0 {
        lemma_none_registered(reg, (n - 1) as nat);
    }
}

/// A shift that fits over `n` entries fits over each shorter prefix.
proof fn lemma_fits_prefix(
    bal: Map<AccountId, Balance>,
    tokens: Seq<AccountId>,
    amounts: Seq<Balance>,
    m: nat,
    n: nat,
    up: bool,
)
    requires
        m <= n,
        shift_fits(bal, tokens, amounts, n, up),
    ensures
        shift_fits(bal, tokens, amounts, m, up),
    decreases n - m,
{
    if m < n {
        lemma_fits_prefix(bal, tokens, amounts, m + 1, n, up);
    }
}

/// Opening a vault and at once closing it again, by the same caller, closes
/// without error and gives back every balance, collateral and shares alike,
/// and the total supply, as they were before the open.
pub proof fn lemma_open_close_restores(
    s: PoolState,
    caller: AccountId,
    owner: AccountId,
    vault: u8,
)
    requires
        pool_inv(s),
        open_error(s, caller, owner, vault).is_none(),
    ensures
        close_error(after_open(s, caller, owner), caller, s.counter).is_none(),
        forall|k: AccountId|
            #[trigger] amount_in(
                after_close(after_open(s, caller, owner), caller, s.counter).balances,
                k,
            ) == amount_in(s.balances, k),
        after_close(after_open(s, caller, owner), caller, s.counter).total_supply
            == s.total_supply,
{
    let n = s.tokens.len();
    let s1 = after_open(s, caller, owner);
    let b = burned(s1, caller);
    lemma_shifted_amounts(s.balances, s.tokens, s.amounts, n, true);
    assert forall|k: AccountId| #[trigger] amount_in(b, k) == amount_in(locked(s), k) by {}
    assert forall|k: AccountId| #[trigger] amount_in(b, k) >= basket_sum(s.tokens, s.amounts, k, n) by {
        assert(amount_in(locked(s), k) == amount_in(s.balances, k) + basket_sum(
            s.tokens,
            s.amounts,
            k,
            n,
        ));
    }
    lemma_fits_down(b, s.tokens, s.amounts, n);
    lemma_shifted_amounts(b, s.tokens, s.amounts, n, false);
    assert forall|k: AccountId| #[trigger]
        amount_in(after_close(s1, caller, s.counter).balances, k) == amount_in(s.balances, k) by {
        assert(amount_in(b, k) == amount_in(locked(s), k));
        assert(amount_in(locked(s), k) == amount_in(s.balances, k) + basket_sum(
            s.tokens,
            s.amounts,
            k,
            n,
        ));
    }
}

/// Where the vault id given is free but some token of the basket is held
/// below what a vault locks, opening fails with `InsufficientBalance`, and
/// (by `open_vault`'s contract) nothing changes.
pub proof fn lemma_open_insufficient(
    s: PoolState,
    caller: AccountId,
    owner: AccountId,
    vault: u8,
    i: int,
)
    requires
        0 <= i < s.tokens.len(),
        !s.vaults.contains_key(vault),
        amount_in(s.balances, s.tokens[i]) < s.amounts[i],
    ensures
        open_error(s, caller, owner, vault) == Some(ContractError::InsufficientBalance),
{
}

/// A pool whose basket is 40 of `x`, with 40 of `x` on record and no vault
/// open.
pub open spec fn forty_pool(x: AccountId) -> PoolState {
    PoolState {
        counter: 0,
        tokens: seq![x],
        amounts: seq![40],
        vaults: Map::empty(),
        owned: Map::empty(),
        balances: Map::empty().insert(x, 40),
        total_supply: 0,
    }
}

/// Worked example of the collateral rule: in `forty_pool(x)`, opening
/// succeeds, the counter becomes 1, the caller holds 100 shares and the
/// record of `x` becomes 80.
#[verifier::spinoff_prover]
pub proof fn lemma_open_accumulates(x: AccountId, caller: AccountId, owner: AccountId, vault: u8)
    requires
        x != caller,
    ensures
        open_error(forty_pool(x), caller, owner, vault).is_none(),
        after_open(forty_pool(x), caller, owner).counter == 1,
        amount_in(after_open(forty_pool(x), caller, owner).balances, caller) == 100,
        amount_in(after_open(forty_pool(x), caller, owner).balances, x) == 80,
        after_open(forty_pool(x), caller, owner).total_supply == 100,
{
    let s = forty_pool(x);
    assert(shifted(s.balances, s.tokens, s.amounts, 0, true) == s.balances);
    assert(s.tokens.len() == 1);
    assert(amount_in(s.balances, s.tokens[0]) == 40);
    assert(shift_fits(s.balances, s.tokens, s.amounts, 0, true));
    assert(shift_fits(s.balances, s.tokens, s.amounts, 1, true));
    assert(locked(s) =~= s.balances.insert(x, 80));
    assert forall|i: int| 0 <= i < s.tokens.len() implies (#[trigger] amount_in(
        s.balances,
        s.tokens[i],
    )) >= s.amounts[i] by {
        assert(i == 0);
    }
}

/// Closing a registered vault succeeds when the caller holds a vault's worth
/// of shares and, for a basket of distinct tokens none of which is the
/// caller, the pool holds at least one basket of each token. The caller then
/// holds `SHARES` fewer shares, each basket token's record drops by its
/// amount, and every other balance stays.
pub proof fn lemma_close_succeeds(s: PoolState, caller: AccountId, vault: u8)
    requires
        pool_inv(s),
        s.vaults.contains_key(vault),
        amount_in(s.balances, caller) >= SHARES,
        forall|i: int, j: int| 0 <= i < j < s.tokens.len() ==> s.tokens[i] != s.tokens[j],
        forall|i: int| 0 <= i < s.tokens.len() ==> s.tokens[i] != caller,
        forall|i: int|
            0 <= i < s.tokens.len() ==> (#[trigger] amount_in(s.balances, s.tokens[i]))
                >= s.amounts[i],
    ensures
        close_error(s, caller, vault).is_none(),
        amount_in(after_close(s, caller, vault).balances, caller) == amount_in(s.balances, caller)
            - SHARES,
        forall|i: int|
            0 <= i < s.tokens.len() ==> #[trigger] amount_in(
                after_close(s, caller, vault).balances,
                s.tokens[i],
            ) == amount_in(s.balances, s.tokens[i]) - s.amounts[i],
        forall|k: AccountId|
            k != caller && (forall|i: int| 0 <= i < s.tokens.len() ==> s.tokens[i] != k)
                ==> #[trigger] amount_in(after_close(s, caller, vault).balances, k) == amount_in(
                s.balances,
                k,
            ),
{
    let n = s.tokens.len();
    let b = burned(s, caller);
    assert forall|k: AccountId| #[trigger] amount_in(b, k) >= basket_sum(s.tokens, s.amounts, k, n) by {
        lemma_sum_distinct(s.tokens, s.amounts, k, n);
        if exists|i: int| 0 <= i < n && s.tokens[i] == k {
            let i = choose|i: int| 0 <= i < n && s.tokens[i] == k;
            assert(amount_in(s.balances, s.tokens[i]) >= s.amounts[i]);
        }
    }
    lemma_fits_down(b, s.tokens, s.amounts, n);
    lemma_shifted_amounts(b, s.tokens, s.amounts, n, false);
    assert(basket_sum(s.tokens, s.amounts, caller, n) == 0) by {
        lemma_sum_distinct(s.tokens, s.amounts, caller, n);
    }
    assert forall|i: int| 0 <= i < n implies #[trigger] amount_in(
        after_close(s, caller, vault).balances,
        s.tokens[i],
    ) == amount_in(s.balances, s.tokens[i]) - s.amounts[i] by {
        lemma_sum_distinct(s.tokens, s.amounts, s.tokens[i], n);
    }
    assert forall|k: AccountId|
        k != caller && (forall|i: int| 0 <= i < s.tokens.len() ==> s.tokens[i] != k) implies #[trigger] amount_in(
        after_close(s, caller, vault).balances,
        k,
    ) == amount_in(s.balances, k) by {
        lemma_sum_distinct(s.tokens, s.amounts, k, n);
    }
}

} // verus!

use vstd::prelude::*;

use crate::account::{AccountId, Balance};
use crate::ledger::{amount_in, moved, BalanceTable};

verus! {

/// Why a token operation was refused.
#[derive(Debug, Clone, Copy, PartialEq, Eq, Structural)]
pub enum Error {
    /// The sender holds less than the amount asked for.
    InsufficientBalance,
}

/// The state of a token ledger.
pub struct TokenState {
    pub owner: AccountId,
    pub total_supply: Balance,
    pub balances: Map<AccountId, Balance>,
}

/// Why a transfer fails, if it does.
pub open spec fn token_transfer_error(
    s: TokenState,
    from: AccountId,
    to: AccountId,
    value: Balance,
) -> Option<Error> {
    if amount_in(s.balances, from) < value {
        Some(Error::InsufficientBalance)
    } else {
        None
    }
}

/// A plain fungible token: a balance table with an owner who may mint.
pub struct FungibleToken {
    owner: AccountId,
    total_supply: Balance,
    balances: BalanceTable,
}

impl View for FungibleToken {
    type V = TokenState;

    closed spec fn view(&self) -> TokenState {
        TokenState { owner: self.owner, total_supply: self.total_supply, balances: self.balances@ }
    }
}

impl FungibleToken {
    /// The balances add up to the total supply.
    pub closed spec fn wf(&self) -> bool {
        &&& self.balances.wf()
        &&& self.balances.total() == self.total_supply as int
    }

    /// A token whose whole supply `total_supply` belongs to its owner `caller`.
    pub fn new(caller: AccountId, total_supply: Balance) -> (r: Self)
        ensures
            r.wf(),
            r@.owner == caller,
            r@.total_supply == total_supply,
            r@.balances == Map::<AccountId, Balance>::empty().insert(caller, total_supply),
    {
        let mut balances = BalanceTable::new();
        proof {
            balances.lemma_empty_total();
        }
        balances.set_amount(caller, total_supply);
        FungibleToken { owner: caller, total_supply, balances }
    }

    /// Creates `value` new tokens for `to`. Only the owner may mint.
    pub fn mint_to(&mut self, caller: AccountId, to: AccountId, value: Balance)
        requires
            old(self).wf(),
            caller == old(self)@.owner,
            old(self)@.total_supply + value <= Balance::MAX,
        ensures
            final(self).wf(),
            final(self)@ == (TokenState {
                balances: old(self)@.balances.insert(
                    to,
                    (amount_in(old(self)@.balances, to) + value) as Balance,
                ),
                total_supply: (old(self)@.total_supply + value) as Balance,
                ..old(self)@
            }),
    {
        let to_balance = self.balances.amount(to);
        proof {
            self.balances.lemma_within_total(to, to);
        }
        self.balances.set_amount(to, to_balance + value);
        self.total_supply = self.total_supply + value;
    }

    pub fn total_supply(&self) -> (r: Balance)
        ensures
            r == self@.total_supply,
    {
        self.total_supply
    }

    pub fn balance_of(&self, account: AccountId) -> (r: Balance)
        requires
            self.wf(),
        ensures
            r == amount_in(self@.balances, account),
    {
        self.balances.amount(account)
    }

    pub fn get_owner(&self) -> (r: AccountId)
        ensures
            r == self@.owner,
    {
        self.owner
    }

    /// Moves `value` from `caller` to `to`, and returns what `caller` holds
    /// after.
    pub fn transfer(&mut self, caller: AccountId, to: AccountId, value: Balance) -> (r: Result<
        Balance,
        Error,
    >)
        requires
            old(self).wf(),
        ensures
            final(self).wf(),
            final(self)@.total_supply == old(self)@.total_supply,
            match token_transfer_error(old(self)@, caller, to, value) {
                Some(e) => r == Err::<Balance, Error>(e) && final(self)@ == old(self)@,
                None => {
                    &&& final(self)@ == (TokenState {
                        balances: moved(old(self)@.balances, caller, to, value),
                        ..old(self)@
                    })
                    &&& r == Ok::<Balance, Error>(amount_in(final(self)@.balances, caller))
                },
            },
    {
        self.transfer_from(caller, to, value)
    }

    /// Moves `value` from `from` to `to`, and returns what `from` holds
    /// after. No allowance is consulted.
    pub fn transfer_from(&mut self, from: AccountId, to: AccountId, value: Balance) -> (r: Result<
        Balance,
        Error,
    >)
        requires
            old(self).wf(),
        ensures
            final(self).wf(),
            final(self)@.total_supply == old(self)@.total_supply,
            match token_transfer_error(old(self)@, from, to, value) {
                Some(e) => r == Err::<Balance, Error>(e) && final(self)@ == old(self)@,
                None => {
                    &&& final(self)@ == (TokenState {
                        balances: moved(old(self)@.balances, from, to, value),
                        ..old(self)@
                    })
                    &&& r == Ok::<Balance, Error>(amount_in(final(self)@.balances, from))
                },
            },
    {
        let from_balance = self.balances.amount(from);
        if from_balance < value {
            return Err(Error::InsufficientBalance);
        }
        proof {
            self.balances.lemma_within_total(from, to);
        }
        let left = self.balances.move_amount(from, to, value);
        Ok(left)
    }
}

} // verus!

use vstd::prelude::*;

use crate::account::{AccountId, Balance};
use crate::ledger::{amount_in, copy_vec, BalanceTable};
use crate::remote::{RemoteCall, TokenCall};

verus! {

/// Why an escrow operation was refused.
#[derive(Debug, Clone, Copy, PartialEq, Eq, Structural)]
pub enum EscrowError {
    /// The escrow holds less of the token than asked for.
    InsufficientBalance,
    /// The token is not on the escrow's whitelist.
    UnsupportedToken,
    /// The caller is not the admin.
    TransferFailed,
    /// The new balance would not fit in a `Balance`.
    Overflow,
}

/// Notification of a deposit.
#[derive(Debug, Clone, Copy)]
pub struct Deposit {
    pub token: AccountId,
    pub amount: Balance,
}

/// Notification of a sweep of every balance to the admin.
#[derive(Debug, Clone, Copy)]
pub struct WithdrawAll {}

/// Notification of a withdrawal.
#[derive(Debug, Clone, Copy)]
pub struct Withdrawal {
    pub token: AccountId,
    pub amount: Balance,
}

/// The transfers that a sweep of `tokens` to `to` asks for, in whitelist
/// order: one for each token that holds a positive balance in `bal`, at its
/// first place in the list.
pub open spec fn sweep_calls(
    tokens: Seq<AccountId>,
    bal: Map<AccountId, Balance>,
    to: AccountId,
) -> Seq<RemoteCall>
    decreases tokens.len(),
{
    if tokens.len() == 0 {
        Seq::empty()
    } else {
        let prev = tokens.drop_last();
        let t = tokens.last();
        let calls = sweep_calls(prev, bal, to);
        if amount_in(bal, t) > 0 && !prev.contains(t) {
            calls.push(RemoteCall::transfer_spec(t, to, amount_in(bal, t)))
        } else {
            calls
        }
    }
}

/// A single-admin escrow of whitelisted tokens.
pub struct Escrow {
    tokens: Vec<AccountId>,
    balances: BalanceTable,
    admin: AccountId,
}

impl Escrow {
    /// The whitelist, in order.
    pub closed spec fn tokens_spec(&self) -> Seq<AccountId> {
        self.tokens@
    }

    /// The recorded balance of each token.
    pub closed spec fn balances_spec(&self) -> Map<AccountId, Balance> {
        self.balances@
    }

    pub closed spec fn admin_spec(&self) -> AccountId {
        self.admin
    }

    pub closed spec fn wf(&self) -> bool {
        self.balances.wf()
    }

    /// The recorded balance of `token`, zero where none is recorded.
    pub open spec fn balance_spec(&self, token: AccountId) -> Balance {
        amount_in(self.balances_spec(), token)
    }

    /// An escrow of `supported_tokens` with no balances, administered by
    /// `caller`.
    pub fn new(caller: AccountId, supported_tokens: Vec<AccountId>) -> (r: Self)
        ensures
            r.wf(),
            r.tokens_spec() == supported_tokens@,
            r.balances_spec() == Map::<AccountId, Balance>::empty(),
            r.admin_spec() == caller,
    {
        Escrow { tokens: supported_tokens, balances: BalanceTable::new(), admin: caller }
    }

    pub fn get_tokens(&self) -> (r: Vec<AccountId>)
        ensures
            r@ == self.tokens_spec(),
    {
        copy_vec(&self.tokens)
    }

    pub fn get_balance(&self, token: AccountId) -> (r: Balance)
        requires
            self.wf(),
        ensures
            r == self.balance_spec(token),
    {
        match self.balances.get(token) {
            Some(b) => b,
            None => 0,
        }
    }

    fn is_supported(&self, token: AccountId) -> (r: bool)
        ensures
            r == self.tokens_spec().contains(token),
    {
        let mut i: usize = 0;
        while i < self.tokens.len()
            invariant
                i <= self.tokens@.len(),
                forall|j: int| 0 <= j < i ==> self.tokens@[j] != token,
            decreases self.tokens@.len() - i,
        {
            if self.tokens[i] == token {
                assert(self.tokens@[i as int] == token);
                return true;
            }
            i += 1;
        }
        false
    }

    /// Credits `amount` of `token` to the escrow, and asks for the transfer
    /// that pulls it from `caller` into `contract`, the escrow's own account.
    pub fn deposit(
        &mut self,
        caller: AccountId,
        contract: AccountId,
        token: AccountId,
        amount: Balance,
    ) -> (r: Result<
        RemoteCall,
        EscrowError,
    >)
        requires
            old(self).wf(),
        ensures
            final(self).wf(),
            final(self).tokens_spec() == old(self).tokens_spec(),
            final(self).admin_spec() == old(self).admin_spec(),
            !old(self).tokens_spec().contains(token) ==> r == Err::<RemoteCall, EscrowError>(
                EscrowError::UnsupportedToken,
            ),
            old(self).tokens_spec().contains(token) && old(self).balance_spec(token) + amount
                > Balance::MAX ==> r == Err::<RemoteCall, EscrowError>(EscrowError::Overflow),
            r.is_err() ==> final(self).balances_spec() == old(self).balances_spec(),
            old(self).tokens_spec().contains(token) && old(self).balance_spec(token) + amount
                <= Balance::MAX ==> {
                &&& r == Ok::<RemoteCall, EscrowError>(
                    RemoteCall::transfer_from_spec(token, caller, contract, amount),
                )
                &&& final(self).balances_spec() == old(self).balances_spec().insert(
                    token,
                    (old(self).balance_spec(token) + amount) as Balance,
                )
            },
    {
        if !self.is_supported(token) {
            return Err(EscrowError::UnsupportedToken);
        }
        let balance = self.get_balance(token);
        let new_balance = match balance.checked_add(amount) {
            Some(b) => b,
            None => {
                return Err(EscrowError::Overflow);
            },
        };
        self.balances.insert(token, new_balance);
        Ok(
            RemoteCall {
                token,
                call: TokenCall::TransferFrom { from: caller, to: contract, value: amount },
            },
        )
    }

    /// Pays `amount` of `token` out to the admin.
    pub fn withdraw(&mut self, caller: AccountId, token: AccountId, amount: Balance) -> (r: Result<
        RemoteCall,
        EscrowError,
    >)
        requires
            old(self).wf(),
        ensures
            final(self).wf(),
            final(self).tokens_spec() == old(self).tokens_spec(),
            final(self).admin_spec() == old(self).admin_spec(),
            caller != old(self).admin_spec() ==> r == Err::<RemoteCall, EscrowError>(
                EscrowError::TransferFailed,
            ),
            caller == old(self).admin_spec() && !old(self).tokens_spec().contains(token) ==> r
                == Err::<RemoteCall, EscrowError>(EscrowError::UnsupportedToken),
            caller == old(self).admin_spec() && old(self).tokens_spec().contains(token)
                && old(self).balance_spec(token) < amount ==> r == Err::<RemoteCall, EscrowError>(
                EscrowError::InsufficientBalance,
            ),
            r.is_err() ==> final(self).balances_spec() == old(self).balances_spec(),
            caller == old(self).admin_spec() && old(self).tokens_spec().contains(token)
                && old(self).balance_spec(token) >= amount ==> {
                &&& r == Ok::<RemoteCall, EscrowError>(
                    RemoteCall::transfer_spec(token, caller, amount),
                )
                &&& final(self).balances_spec() == old(self).balances_spec().insert(
                    token,
                    (old(self).balance_spec(token) - amount) as Balance,
                )
            },
    {
        if caller != self.admin {
            return Err(EscrowError::TransferFailed);
        }
        if !self.is_supported(token) {
            return Err(EscrowError::UnsupportedToken);
        }
        let balance = self.get_balance(token);
        if balance < amount {
            return Err(EscrowError::InsufficientBalance);
        }
        self.balances.insert(token, balance - amount);
        Ok(RemoteCall { token, call: TokenCall::Transfer { to: caller, value: amount } })
    }

    /// Pays every whitelisted balance out to the admin and zeroes it.
    pub fn withdraw_all(&mut self, caller: AccountId) -> (r: Result<Vec<RemoteCall>, EscrowError>)
        requires
            old(self).wf(),
        ensures
            final(self).wf(),
            final(self).tokens_spec() == old(self).tokens_spec(),
            final(self).admin_spec() == old(self).admin_spec(),
            caller != old(self).admin_spec() ==> {
                &&& r.is_err() && r->Err_0 == EscrowError::TransferFailed
                &&& final(self).balances_spec() == old(self).balances_spec()
            },
            caller == old(self).admin_spec() ==> {
                &&& r.is_ok()
                &&& r->Ok_0@ == sweep_calls(
                    old(self).tokens_spec(),
                    old(self).balances_spec(),
                    caller,
                )
                &&& forall|t: AccountId|
                    #[trigger] final(self).balance_spec(t) == if old(self).tokens_spec().contains(
                        t,
                    ) {
                        0
                    } else {
                        old(self).balance_spec(t)
                    }
            },
    {
        if caller != self.admin {
            return Err(EscrowError::TransferFailed);
        }
        let ghost old_bal = self.balances@;
        let mut calls: Vec<RemoteCall> = Vec::new();
        let mut i: usize = 0;
        while i < self.tokens.len()
            invariant
                self.wf(),
                self.tokens@ == old(self).tokens@,
                self.admin == old(self).admin,
                old_bal == old(self).balances@,
                i <= self.tokens@.len(),
                calls@ == sweep_calls(self.tokens@.take(i as int), old_bal, caller),
                forall|t: AccountId|
                    #[trigger] amount_in(self.balances@, t) == if self.tokens@.take(
                        i as int,
                    ).contains(t) {
                        0
                    } else {
                        amount_in(old_bal, t)
                    },
            decreases self.tokens@.len() - i,
        {
            let token = self.tokens[i];
            let ghost prev = self.tokens@.take(i as int);
            let ghost next = self.tokens@.take(i + 1);
            assert(next.drop_last() =~= prev);
            assert(next.last() == token);
            assert forall|t: AccountId| #[trigger] next.contains(t) == (prev.contains(t) || t == token) by {
                if prev.contains(t) {
                    let j = choose|j: int| 0 <= j < prev.len() && prev[j] == t;
                    assert(next[j] == t);
                }
                if next.contains(t) && t != token {
                    let j = choose|j: int| 0 <= j < next.len() && next[j] == t;
                    assert(prev[j] == t);
                }
                if t == token {
                    assert(next[i as int] == t);
                }
            }
            let ghost before = self.balances@;
            let balance = self.get_balance(token);
            if balance > 0 {
                calls.push(RemoteCall { token, call: TokenCall::Transfer { to: caller, value: balance } });
                self.balances.insert(token, 0);
            }
            assert forall|t: AccountId| #[trigger] amount_in(self.balances@, t) == if next.contains(t) {
                0
            } else {
                amount_in(old_bal, t)
            } by {
                assert(amount_in(before, t) == if prev.contains(t) {
                    0
                } else {
                    amount_in(old_bal, t)
                });
            }
            i += 1;
        }
        assert(self.tokens@.take(self.tokens@.len() as int) =~= self.tokens@);
        Ok(calls)
    }

    pub fn get_admin(&self) -> (r: AccountId)
        ensures
            r == self.admin_spec(),
    {
        self.admin
    }

    /// Hands the admin role to `new_admin`; does nothing unless `caller` is
    /// the admin.
    pub fn set_admin(&mut self, caller: AccountId, new_admin: AccountId)
        requires
            old(self).wf(),
        ensures
            final(self).wf(),
            final(self).tokens_spec() == old(self).tokens_spec(),
            final(self).balances_spec() == old(self).balances_spec(),
            final(self).admin_spec() == if caller == old(self).admin_spec() {
                new_admin
            } else {
                old(self).admin_spec()
            },
    {
        if caller == self.admin {
            self.admin = new_admin;
        }
    }
}

} // verus!

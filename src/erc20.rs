use vstd::prelude::*;

use crate::account::{AccountId, Balance};
use crate::etf::{ContractError, EtfEscrow};
use crate::fungible_token::{Error, FungibleToken};

verus! {

/// The interface of a token ledger: the calls that other contracts make on
/// it. The caller of a mutating call is passed in by the host.
pub trait Erc20: Sized {
    type Error;

    /// The ledger is in a state that its operations accept.
    spec fn well_formed(&self) -> bool;

    fn balance_of(&self, owner: AccountId) -> (r: Balance)
        requires
            self.well_formed(),
    ;

    fn total_supply(&self) -> (r: Balance);

    fn transfer(&mut self, caller: AccountId, to: AccountId, value: Balance) -> (r: Result<
        Balance,
        Self::Error,
    >)
        requires
            old(self).well_formed(),
        ensures
            final(self).well_formed(),
    ;

    fn get_owner(&self, caller: AccountId) -> (r: AccountId);

    fn transfer_from(&mut self, from: AccountId, to: AccountId, value: Balance) -> (r: Result<
        Balance,
        Self::Error,
    >)
        requires
            old(self).well_formed(),
        ensures
            final(self).well_formed(),
    ;
}

impl Erc20 for FungibleToken {
    type Error = Error;

    open spec fn well_formed(&self) -> bool {
        self.wf()
    }

    fn balance_of(&self, owner: AccountId) -> (r: Balance) {
        FungibleToken::balance_of(self, owner)
    }

    fn total_supply(&self) -> (r: Balance) {
        FungibleToken::total_supply(self)
    }

    fn transfer(&mut self, caller: AccountId, to: AccountId, value: Balance) -> (r: Result<
        Balance,
        Error,
    >) {
        FungibleToken::transfer(self, caller, to, value)
    }

    fn get_owner(&self, _caller: AccountId) -> (r: AccountId) {
        FungibleToken::get_owner(self)
    }

    fn transfer_from(&mut self, from: AccountId, to: AccountId, value: Balance) -> (r: Result<
        Balance,
        Error,
    >) {
        FungibleToken::transfer_from(self, from, to, value)
    }
}

impl Erc20 for EtfEscrow {
    type Error = ContractError;

    open spec fn well_formed(&self) -> bool {
        self.wf()
    }

    fn balance_of(&self, owner: AccountId) -> (r: Balance) {
        EtfEscrow::balance_of(self, owner)
    }

    fn total_supply(&self) -> (r: Balance) {
        EtfEscrow::total_supply(self)
    }

    fn transfer(&mut self, caller: AccountId, to: AccountId, value: Balance) -> (r: Result<
        Balance,
        ContractError,
    >) {
        EtfEscrow::transfer(self, caller, to, value)
    }

    fn get_owner(&self, caller: AccountId) -> (r: AccountId) {
        EtfEscrow::get_owner(self, caller)
    }

    fn transfer_from(&mut self, from: AccountId, to: AccountId, value: Balance) -> (r: Result<
        Balance,
        ContractError,
    >) {
        EtfEscrow::transfer_from(self, from, to, value)
    }
}

} // verus!

use vstd::prelude::*;
use vstd::string::StringSliceAdditionalSpecFns;

use crate::account::{AccountId, Balance};
use crate::selector::{calculate_selector, selector_of};

verus! {

/// A call of the token interface on another ledger.
#[derive(Clone, Copy, Debug)]
pub enum TokenCall {
    /// `transfer(to, value)`, made by this contract.
    Transfer { to: AccountId, value: Balance },
    /// `transfer_from(from, to, value)`, made by this contract.
    TransferFrom { from: AccountId, to: AccountId, value: Balance },
}

/// A call that an operation asks the host to make on the ledger `token`,
/// with no native value attached and no gas limit. If the call traps, the
/// whole operation is undone by the host.
#[derive(Clone, Copy, Debug)]
pub struct RemoteCall {
    pub token: AccountId,
    pub call: TokenCall,
}

/// The UTF-8 name of the entry point that `call` addresses.
pub open spec fn entry_point_of(call: TokenCall) -> Seq<u8> {
    match call {
        TokenCall::Transfer { .. } => "transfer".spec_bytes(),
        TokenCall::TransferFrom { .. } => "transfer_from".spec_bytes(),
    }
}

impl RemoteCall {
    /// A `transfer` of `value` to `to` on the ledger `token`.
    pub open spec fn transfer_spec(token: AccountId, to: AccountId, value: Balance) -> RemoteCall {
        RemoteCall { token, call: TokenCall::Transfer { to, value } }
    }

    /// A `transfer_from` of `value` from `from` to `to` on the ledger `token`.
    pub open spec fn transfer_from_spec(
        token: AccountId,
        from: AccountId,
        to: AccountId,
        value: Balance,
    ) -> RemoteCall {
        RemoteCall { token, call: TokenCall::TransferFrom { from, to, value } }
    }

    /// The name of the entry point to call.
    pub fn entry_point(&self) -> (r: &'static str)
        ensures
            r.spec_bytes() == entry_point_of(self.call),
    {
        match self.call {
            TokenCall::Transfer { .. } => "transfer",
            TokenCall::TransferFrom { .. } => "transfer_from",
        }
    }

    /// The selector that routes the call on the remote ledger.
    pub fn selector(&self) -> (r: [u8; 4])
        ensures
            r@ == selector_of(entry_point_of(self.call)),
    {
        calculate_selector(self.entry_point())
    }
}

} // verus!

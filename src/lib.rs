//! Escrow and vault-pool accounting for a token ledger host.
//!
//! The library holds the bookkeeping of a multi-token escrow, of a vault pool
//! that mints shares against a fixed basket of collateral, and of plain
//! fungible token ledgers. Calls into other token contracts are not made here:
//! each operation returns the remote calls it needs as values, and the host
//! glue performs them.

mod account;
pub mod aleph_xtf;
mod basket;
mod erc20;
mod escrow;
mod etf;
pub mod fungible_token;
mod ledger;
mod registry;
mod remote;
mod selector;

pub use account::{AccountId, Balance};
pub use aleph_xtf::AlephXtf;
pub use basket::{
    basket_sum, lemma_fits_down, lemma_shifted_amounts, lemma_sum_distinct, shift_fits, shifted,
};
pub use erc20::Erc20;
pub use escrow::{sweep_calls, Deposit, Escrow, EscrowError, WithdrawAll, Withdrawal};
pub use etf::{
    after_close, after_open, after_transfer, burned, close_calls, close_error, forty_pool,
    lemma_close_keeps_inv, lemma_close_succeeds, lemma_open_accumulates, lemma_open_close_restores,
    lemma_open_insufficient, lemma_open_keeps_inv, locked, open_calls, open_error, owned_count,
    pool_inv, transfer_error, ContractError, EtfEscrow, PoolState, VaultClosed, VaultOpened, SHARES,
};
pub use fungible_token::{token_transfer_error, FungibleToken, TokenState};
pub use ledger::{amount_in, copy_vec, moved, sum_entries, AccountMap, BalanceTable};
pub use registry::{
    lemma_count_insert, lemma_count_remove, lemma_owned_insert, lemma_owned_remove, owned_below,
    registered_below, vault_count, vaults_owned, VaultRegistry,
};
pub use remote::{entry_point_of, RemoteCall, TokenCall};
pub use selector::{blake2b_256_of, calculate_selector, selector_from_digest, selector_of};

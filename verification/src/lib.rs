//! A share-based reward-distribution ledger.
//!
//! The ledger pools deposited token balances, mints proportional shares to a
//! designated recipient, and lets shareholders redeem (burn) their shares for
//! a pro-rata slice of every pooled reward token. Account and token
//! identities are plain `u64` handles; the host that embeds the ledger maps
//! its own identifiers to handles and performs all outward calls (token
//! transfers, registry lookups) that the ledger's results describe.

use vstd::prelude::*;

mod codec;
mod contract;
mod laws;
mod math;
mod store;

pub use codec::{dec_u128_of, json_string_bytes, parse_u128_decimal, unused_of};
pub use contract::{BurnOutcome, BurnReceipt, Contract, Error, ResolveReceipt, GAS_FOR_BURN,
    GAS_FOR_FT_TRANSFER, GAS_FOR_FT_TRANSFER_CALL, GAS_FOR_NFT_CHECK, GAS_FOR_RESOLVE_TRANSFER};
pub use laws::{lemma_conservation, lemma_full_burn_exhausts, lemma_no_value_creation,
    lemma_proportional_payout, lemma_proportional_sequential,
    lemma_burn_is_model_step, lemma_simulation_matches_burn, lemma_valid_burns_step,
    pool_after_burns, sum_of, total_disbursed, valid_burns};
pub use math::{payout, payout_int, payout_seq, pool_after};
pub use store::{balance_of, distinct_keys, has_key, index_of_key, sorted_keys, sum_amounts,
    value_of};

verus! {

/// Identifies one of the ledger's persisted sections; the host keys its
/// storage by these when saving and restoring a [`store`]-backed state.
#[derive(Clone, Copy, PartialEq, Eq, Structural, Debug)]
pub enum StorageKey {
    Accounts,
    Deposits,
    Rewards,
    TokenWhitelist,
}

} // verus!

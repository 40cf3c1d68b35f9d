//! The ledger and its operations.
//!
//! The contract pools deposited reward tokens, mints shares against them,
//! moves shares from the privileged principals to holders, and redeems
//! (burns) shares for a pro-rata slice of every pooled reward token.
//!
//! Every operation takes the calling principal and the relevant host facts
//! (attached security deposit, prepaid execution budget, outside call
//! results) as plain arguments and returns either a receipt describing the
//! outward calls and events the host must issue, or an error, in which case
//! the ledger is unchanged — mirroring a host that rolls an aborted
//! transaction back.

use vstd::prelude::*;
use crate::codec::parse_unused_amount;
use crate::math::{payout, payout_amount, payout_seq, pool_after};
use crate::store::{balance_of, distinct_keys, has_key, index_of_key, sorted_keys, sum_amounts,
    value_of, lemma_sorted_implies_distinct, lemma_sum_nonneg, lemma_sum_push,
    lemma_two_values_le_sum, lemma_value_le_sum, clone_entries, clone_ids, ids_contains, map_get,
    map_get_present,
    map_insert_sorted, map_push_fresh, map_remove, map_set};

verus! {

/// Execution budget consumed by the burn entry point itself.
pub const GAS_FOR_BURN: u64 = 5_000_000_000_000;

/// Execution budget for the badge-registry lookup a burn dispatches.
pub const GAS_FOR_NFT_CHECK: u64 = 5_000_000_000_000;

/// Execution budget for one outbound token transfer.
pub const GAS_FOR_FT_TRANSFER: u64 = 10_000_000_000_000;

/// Execution budget a transfer-with-payload must leave to its receiver.
pub const GAS_FOR_FT_TRANSFER_CALL: u64 = 60_000_000_000_000;

/// Execution budget reserved for resolving a transfer-with-payload.
pub const GAS_FOR_RESOLVE_TRANSFER: u64 = 5_000_000_000_000;

/// Why an operation was refused; the ledger is unchanged in every case.
#[derive(Clone, Copy, PartialEq, Eq, Structural, Debug)]
pub enum Error {
    /// The caller is not the owner.
    NotOwner,
    /// The caller is not the distributing validator.
    NotValidator,
    /// The call did not attach exactly one minimal currency unit.
    OneYoctoRequired,
    /// The prepaid execution budget cannot cover one transfer per reward token.
    NotEnoughGas,
    /// The amount must be positive.
    ZeroAmount,
    /// The token is not whitelisted for deposits.
    TokenNotWhitelisted,
    /// The token has no entry in the map the operation draws from.
    UnknownToken,
    /// Minting needs at least one pending deposit.
    NoDeposits,
    /// The account holds no shares.
    NoBalance,
    /// The owner's account entry is missing where the operation must credit it.
    NoOwnerAccount,
    /// The account's balance does not cover the requested amount.
    InsufficientFunds,
    /// A reward pool exists but no shares are outstanding, so no claim can
    /// be priced until the next mint.
    NoTotalShares,
    /// Removing a reward entry that already reached zero.
    ZeroReward,
    /// A balance, pool amount or score would exceed the 128-bit range.
    Overflow,
}

/// What a completed burn did; the host reports `removed` — the share amount
/// the caller originally held — back to the caller, dispatches one transfer
/// per payout entry, emits a burn event for `burned` and, when a penalty
/// was taken, a transfer event for it, and chains a score report when one
/// is present.
pub struct BurnReceipt {
    /// The caller's whole balance, as the burn's synchronous phase removed
    /// it from the ledger.
    pub removed: u128,
    /// The slice of `removed` redirected to the owner (zero without penalty).
    pub penalty: u128,
    /// `removed - penalty`: the shares actually retired.
    pub burned: u128,
    /// Per reward token, the amount to transfer to the caller, in pool order.
    pub payouts: Vec<(u64, u128)>,
    /// A `(badge, credit)` score report to chain after the designated
    /// token's transfer settles.
    pub score_report: Option<(u64, u128)>,
}

/// The synchronous result of a burn request.
pub enum BurnOutcome {
    /// The burn completed in one step.
    Done(BurnReceipt),
    /// The synchronous phase committed: the caller's whole balance is
    /// removed from the ledger and held in flight. The host must ask the
    /// badge registry for the caller's primary badge and hand the answer,
    /// together with this removed balance, to [`Contract::on_burn`].
    AwaitNftCheck {
        /// The balance removed from the caller, to be carried into the
        /// continuation.
        removed: u128,
    },
}

/// The outcome of resolving a transfer-with-payload.
pub struct ResolveReceipt {
    /// How much of the transferred amount the receiver kept.
    pub used: u128,
    /// The amount moved back from receiver to sender, present exactly when
    /// a positive unused amount was reported (a refund event is emitted
    /// even when the refundable balance was zero).
    pub refund: Option<u128>,
}

/// Why a plain share movement from `sender` to `receiver` is refused, if it
/// is: a self-transfer only when crediting would overflow, any other when
/// the sender has no entry or too small a balance.
pub open spec fn move_error(
    accounts: Seq<(u64, u128)>,
    sender: u64,
    receiver: u64,
    amount: u128,
) -> Option<Error> {
    if sender == receiver {
        if balance_of(accounts, sender) + amount > u128::MAX {
            Option::Some(Error::Overflow)
        } else {
            Option::None
        }
    } else if !has_key(accounts, sender) {
        Option::Some(Error::NoBalance)
    } else if value_of(accounts, sender) < amount {
        Option::Some(Error::InsufficientFunds)
    } else {
        Option::None
    }
}

/// `post` is `pre` with `amount` shares moved from `sender` to `receiver`:
/// the receiver's entry is created at zero when absent, the share total and
/// everything else is untouched.
pub open spec fn shares_moved(
    pre: Contract,
    post: Contract,
    sender: u64,
    receiver: u64,
    amount: u128,
) -> bool {
    &&& pre.same_identities(post)
    &&& post.same_pools(pre)
    &&& post.same_whitelist(pre)
    &&& post.shares == pre.shares
    &&& post.pending_burns == pre.pending_burns
    &&& has_key(post.accounts@, receiver)
    &&& (sender == receiver ==> {
        &&& value_of(post.accounts@, receiver) == balance_of(pre.accounts@, receiver)
        &&& forall|k: u64|
            k != receiver ==> (has_key(post.accounts@, k) <==> has_key(pre.accounts@, k))
        &&& forall|k: u64|
            k != receiver && has_key(pre.accounts@, k) ==> value_of(post.accounts@, k) == value_of(
                pre.accounts@,
                k,
            )
    })
    &&& (sender != receiver ==> {
        &&& value_of(post.accounts@, receiver) == balance_of(pre.accounts@, receiver) + amount
        &&& has_key(post.accounts@, sender)
        &&& value_of(post.accounts@, sender) == value_of(pre.accounts@, sender) - amount
        &&& forall|k: u64|
            k != receiver && k != sender ==> (has_key(post.accounts@, k) <==> has_key(
                pre.accounts@,
                k,
            ))
        &&& forall|k: u64|
            k != receiver && k != sender && has_key(pre.accounts@, k) ==> value_of(
                post.accounts@,
                k,
            ) == value_of(pre.accounts@, k)
    })
}

/// A pool with `a` units of token `t` folded in: added to the token's entry
/// when one exists, else appended as a new entry.
pub open spec fn merge_entry(pool: Seq<(u64, u128)>, t: u64, a: u128) -> Seq<(u64, u128)> {
    if has_key(pool, t) {
        pool.update(index_of_key(pool, t), (t, (value_of(pool, t) + a) as u128))
    } else {
        pool.push((t, a))
    }
}

/// Whether folding `a` units of token `t` into the pool stays within the
/// 128-bit range.
pub open spec fn entry_fits(pool: Seq<(u64, u128)>, t: u64, a: u128) -> bool {
    balance_of(pool, t) + a <= u128::MAX
}

/// The pool with every pending deposit folded in, first entry first.
pub open spec fn merge_all(pool: Seq<(u64, u128)>, deposits: Seq<(u64, u128)>) -> Seq<(u64, u128)>
    decreases deposits.len(),
{
    if deposits.len() == 0 {
        pool
    } else {
        merge_all(merge_entry(pool, deposits[0].0, deposits[0].1), deposits.drop_first())
    }
}

/// Whether folding every pending deposit in stays within the 128-bit range
/// at each step.
pub open spec fn merge_fits(pool: Seq<(u64, u128)>, deposits: Seq<(u64, u128)>) -> bool
    decreases deposits.len(),
{
    deposits.len() == 0 || (entry_fits(pool, deposits[0].0, deposits[0].1) && merge_fits(
        merge_entry(pool, deposits[0].0, deposits[0].1),
        deposits.drop_first(),
    ))
}

/// How much of a transfer the receiver reported unused: everything when the
/// outward call failed outright, nothing when the call succeeded but its
/// report cannot be read (no refund is owed on an unreadable claim), else
/// the reported number capped at the transferred amount.
pub open spec fn reported_unused(transfer_result: Option<Vec<u8>>, amount: u128) -> u128 {
    match transfer_result {
        Option::None => amount,
        Option::Some(bytes) => crate::codec::unused_of(bytes@, amount),
    }
}

/// The share-accounting ledger.
pub struct Contract {
    /// The owner: may deposit, mint, manage the whitelist and withdraw.
    pub owner: u64,
    /// The validator: may distribute shares to holders.
    pub validator: u64,
    /// The badge registry queried before a non-owner burn.
    pub rewarder: u64,
    /// The reward token whose disbursement additionally reports a score.
    pub score_token: u64,
    /// The badge collection the registry tracks (kept for the host's use).
    pub nft_registry: u64,
    /// Account id to share balance; keys strictly increasing.
    pub accounts: Vec<(u64, u128)>,
    /// Token id to amount deposited but not yet folded into the pool.
    pub deposits: Vec<(u64, u128)>,
    /// Token id to undistributed pooled amount.
    pub rewards: Vec<(u64, u128)>,
    /// Total claim units outstanding; always the sum of all balances plus
    /// the balances in flight between a burn's two phases.
    pub shares: u128,
    /// Balances a burn's synchronous phase has removed and whose
    /// asynchronous continuation has not yet retired: the committed
    /// intermediate state of the two-phase burn, carried here so that
    /// conservation can be stated while a badge check is outstanding.
    pub pending_burns: u128,
    /// Tokens eligible for deposit.
    pub token_whitelist: Vec<u64>,
}

impl Contract {
    /// The ledger's invariant: ordered distinct accounts, distinct pool
    /// keys, and conservation — balances, together with what burns hold in
    /// flight between their two phases, sum exactly to the outstanding
    /// shares. When no burn is in flight the balances alone sum to the
    /// shares.
    pub open spec fn wf(self) -> bool {
        &&& sorted_keys(self.accounts@)
        &&& distinct_keys(self.deposits@)
        &&& distinct_keys(self.rewards@)
        &&& sum_amounts(self.accounts@) + self.pending_burns == self.shares
    }

    /// The configured principals and designated tokens are unchanged.
    pub open spec fn same_identities(self, other: Contract) -> bool {
        &&& self.owner == other.owner
        &&& self.validator == other.validator
        &&& self.rewarder == other.rewarder
        &&& self.score_token == other.score_token
        &&& self.nft_registry == other.nft_registry
    }

    /// Balances, the share total, and the in-flight burns are unchanged.
    pub open spec fn same_balances(self, other: Contract) -> bool {
        self.accounts@ == other.accounts@ && self.shares == other.shares && self.pending_burns
            == other.pending_burns
    }

    /// Pending deposits and the reward pool are unchanged.
    pub open spec fn same_pools(self, other: Contract) -> bool {
        self.deposits@ == other.deposits@ && self.rewards@ == other.rewards@
    }

    /// The deposit whitelist is unchanged.
    pub open spec fn same_whitelist(self, other: Contract) -> bool {
        self.token_whitelist@ == other.token_whitelist@
    }

    /// Sets up an empty ledger: no shares, no pools, and a zero-balance
    /// account entry for the owner.
    pub fn new(
        owner: u64,
        validator: u64,
        score_token: u64,
        nft_registry: u64,
        rewarder: u64,
        token_whitelist: Vec<u64>,
    ) -> (c: Contract)
        ensures
            c.wf(),
            c.owner == owner,
            c.validator == validator,
            c.rewarder == rewarder,
            c.score_token == score_token,
            c.nft_registry == nft_registry,
            c.accounts@ == seq![(owner, 0u128)],
            c.deposits@ == Seq::<(u64, u128)>::empty(),
            c.rewards@ == Seq::<(u64, u128)>::empty(),
            c.shares == 0,
            c.pending_burns == 0,
            c.token_whitelist@ == token_whitelist@,
    {
        let mut accounts: Vec<(u64, u128)> = Vec::new();
        accounts.push((owner, 0));
        proof {
            assert(accounts@ =~= seq![(owner, 0u128)]);
            lemma_sum_push(Seq::<(u64, u128)>::empty(), (owner, 0u128));
            assert(accounts@ =~= Seq::<(u64, u128)>::empty().push((owner, 0u128)));
            assert(sum_amounts(Seq::<(u64, u128)>::empty()) == 0);
        }
        let c = (Contract {
            owner,
            validator,
            rewarder,
            score_token,
            nft_registry,
            accounts,
            deposits: Vec::new(),
            rewards: Vec::new(),
            shares: 0,
            pending_burns: 0,
            token_whitelist,
        });
        c
    }

    /// The total shares outstanding.
    pub fn ft_total_supply(&self) -> (r: u128)
        ensures
            r == self.shares,
    {
        self.shares
    }

    /// An account's share balance; zero when the account has no entry.
    pub fn ft_balance_of(&self, account_id: u64) -> (r: u128)
        requires
            self.wf(),
        ensures
            r == balance_of(self.accounts@, account_id),
    {
        proof {
            lemma_sorted_implies_distinct(self.accounts@);
        }
        match map_get(&self.accounts, account_id) {
            Some(a) => a,
            None => 0,
        }
    }

    /// The tokens currently eligible for deposit.
    pub fn get_whitelisted_tokens(&self) -> (r: Vec<u64>)
        ensures
            r@ == self.token_whitelist@,
    {
        clone_ids(&self.token_whitelist)
    }

    /// Every reward token with its undistributed pool amount, in pool order.
    pub fn get_undistributed_rewards(&self) -> (r: Vec<(u64, u128)>)
        ensures
            r@ == self.rewards@,
    {
        clone_entries(&self.rewards)
    }

    /// Every pending deposit with its accumulated amount.
    pub fn get_deposits(&self) -> (r: Vec<(u64, u128)>)
        ensures
            r@ == self.deposits@,
    {
        clone_entries(&self.deposits)
    }

    /// Moves `amount` shares from `sender` to `receiver` in the order the
    /// ledger records it: the receiver's entry is created and credited
    /// first, then the sender's is debited.
    fn move_shares(&mut self, sender: u64, receiver: u64, amount: u128) -> (r: Result<(), Error>)
        requires
            old(self).wf(),
        ensures
            final(self).wf(),
            r == (match move_error(old(self).accounts@, sender, receiver, amount) {
                Option::Some(e) => Err::<(), Error>(e),
                Option::None => Ok(()),
            }),
            r is Err ==> *final(self) == *old(self),
            r is Ok ==> shares_moved(*old(self), *final(self), sender, receiver, amount),
    {
        proof {
            lemma_sorted_implies_distinct(self.accounts@);
        }
        if sender == receiver {
            let bal = match map_get(&self.accounts, sender) {
                Some(b) => b,
                None => 0,
            };
            if amount > u128::MAX - bal {
                return Err(Error::Overflow);
            }
        } else {
            match map_get(&self.accounts, sender) {
                Some(b) => {
                    if b < amount {
                        return Err(Error::InsufficientFunds);
                    }
                },
                None => {
                    return Err(Error::NoBalance);
                },
            }
        }
        let receiver_present = match map_get(&self.accounts, receiver) {
            Some(_) => true,
            None => false,
        };
        if !receiver_present {
            map_insert_sorted(&mut self.accounts, receiver, 0);
        }
        let rv = map_get_present(&self.accounts, receiver);
        proof {
            if sender != receiver {
                lemma_two_values_le_sum(self.accounts@, receiver, sender);
            }
        }
        map_set(&mut self.accounts, receiver, rv + amount);
        let sv = map_get_present(&self.accounts, sender);
        map_set(&mut self.accounts, sender, sv - amount);
        Ok(())
    }

    /// Hands out `amount` shares: moves them from the distributing
    /// validator, the only principal allowed to call this, to `receiver_id`.
    /// The call must attach exactly one minimal currency unit, and the host
    /// emits a transfer event on success.
    pub fn ft_transfer(
        &mut self,
        caller: u64,
        attached_yocto: u128,
        receiver_id: u64,
        amount: u128,
        _memo: Option<String>,
    ) -> (r: Result<(), Error>)
        requires
            old(self).wf(),
        ensures
            final(self).wf(),
            r == (if attached_yocto != 1 {
                Err::<(), Error>(Error::OneYoctoRequired)
            } else if caller != old(self).validator {
                Err::<(), Error>(Error::NotValidator)
            } else if amount == 0 {
                Err::<(), Error>(Error::ZeroAmount)
            } else {
                match move_error(old(self).accounts@, caller, receiver_id, amount) {
                    Option::Some(e) => Err::<(), Error>(e),
                    Option::None => Ok(()),
                }
            }),
            r is Err ==> *final(self) == *old(self),
            r is Ok ==> shares_moved(*old(self), *final(self), caller, receiver_id, amount),
    {
        if attached_yocto != 1 {
            return Err(Error::OneYoctoRequired);
        }
        if caller != self.validator {
            return Err(Error::NotValidator);
        }
        if amount == 0 {
            return Err(Error::ZeroAmount);
        }
        self.move_shares(caller, receiver_id, amount)
    }

    /// Pushes `amount` shares from the owner into another contract,
    /// `receiver_id`, with a message payload; only the owner may call this.
    /// On success the host must forward the payload to the receiver with the
    /// returned execution budget and resolve the refund protocol through
    /// [`Contract::ft_resolve_transfer`] once the receiver reports back.
    pub fn ft_transfer_call(
        &mut self,
        caller: u64,
        attached_yocto: u128,
        prepaid_gas: u64,
        receiver_id: u64,
        amount: u128,
        _memo: Option<String>,
        _msg: &String,
    ) -> (r: Result<u64, Error>)
        requires
            old(self).wf(),
        ensures
            final(self).wf(),
            r == (if attached_yocto != 1 {
                Err::<u64, Error>(Error::OneYoctoRequired)
            } else if prepaid_gas <= GAS_FOR_FT_TRANSFER_CALL {
                Err::<u64, Error>(Error::NotEnoughGas)
            } else if caller != old(self).owner {
                Err::<u64, Error>(Error::NotOwner)
            } else if amount == 0 {
                Err::<u64, Error>(Error::ZeroAmount)
            } else {
                match move_error(old(self).accounts@, caller, receiver_id, amount) {
                    Option::Some(e) => Err::<u64, Error>(e),
                    Option::None => Ok((prepaid_gas - GAS_FOR_FT_TRANSFER_CALL) as u64),
                }
            }),
            r is Err ==> *final(self) == *old(self),
            r is Ok ==> shares_moved(*old(self), *final(self), caller, receiver_id, amount),
    {
        if attached_yocto != 1 {
            return Err(Error::OneYoctoRequired);
        }
        if prepaid_gas <= GAS_FOR_FT_TRANSFER_CALL {
            return Err(Error::NotEnoughGas);
        }
        if caller != self.owner {
            return Err(Error::NotOwner);
        }
        if amount == 0 {
            return Err(Error::ZeroAmount);
        }
        let receiver_gas = prepaid_gas - GAS_FOR_FT_TRANSFER_CALL;
        match self.move_shares(caller, receiver_id, amount) {
            Ok(()) => Ok(receiver_gas),
            Err(e) => Err(e),
        }
    }

    /// Accepts a deposit notification: token `token_id` reports that
    /// `sender_id` transferred `amount` in. Only the owner may deposit, only
    /// whitelisted tokens are accepted, and the whole amount is recorded as
    /// pending — the returned unused portion is always zero.
    pub fn ft_on_transfer(
        &mut self,
        token_id: u64,
        sender_id: u64,
        amount: u128,
        _msg: &String,
    ) -> (r: Result<u128, Error>)
        requires
            old(self).wf(),
        ensures
            final(self).wf(),
            r == (if sender_id != old(self).owner {
                Err::<u128, Error>(Error::NotOwner)
            } else if !old(self).token_whitelist@.contains(token_id) {
                Err::<u128, Error>(Error::TokenNotWhitelisted)
            } else if balance_of(old(self).deposits@, token_id) + amount > u128::MAX {
                Err::<u128, Error>(Error::Overflow)
            } else {
                Ok(0u128)
            }),
            r is Err ==> *final(self) == *old(self),
            r is Ok ==> final(self).deposits@ == merge_entry(old(self).deposits@, token_id, amount)
                && old(self).same_identities(*final(self)) && final(self).same_balances(*old(self))
                && final(self).same_whitelist(*old(self)) && final(self).rewards@ == old(
                self,
            ).rewards@,
    {
        if sender_id != self.owner {
            return Err(Error::NotOwner);
        }
        if !ids_contains(&self.token_whitelist, token_id) {
            return Err(Error::TokenNotWhitelisted);
        }
        match map_get(&self.deposits, token_id) {
            Some(v) => {
                match v.checked_add(amount) {
                    Some(nv) => {
                        map_set(&mut self.deposits, token_id, nv);
                        Ok(0)
                    },
                    None => Err(Error::Overflow),
                }
            },
            None => {
                map_push_fresh(&mut self.deposits, token_id, amount);
                Ok(0)
            },
        }
    }

    /// Settles a transfer-with-payload after the receiver reported back.
    /// A positive reported unused amount is reversed from receiver to
    /// sender, capped by the receiver's remaining balance. A failed call
    /// counts as nothing used and is reversed in full; a call that succeeded
    /// with an unreadable report conservatively counts as fully used, and no
    /// refund moves. Returns how much of the transfer the receiver kept.
    pub fn ft_resolve_transfer(
        &mut self,
        sender_id: u64,
        receiver_id: u64,
        amount: u128,
        transfer_result: Option<Vec<u8>>,
    ) -> (r: Result<ResolveReceipt, Error>)
        requires
            old(self).wf(),
        ensures
            final(self).wf(),
            ({
                let unused = reported_unused(transfer_result, amount);
                if unused == 0 {
                    &&& r matches Ok(rec) && rec.used == amount && rec.refund is None
                    &&& *final(self) == *old(self)
                } else if !has_key(old(self).accounts@, receiver_id) || !has_key(
                    old(self).accounts@,
                    sender_id,
                ) {
                    &&& r == Err::<ResolveReceipt, Error>(Error::NoBalance)
                    &&& *final(self) == *old(self)
                } else {
                    let refund: u128 = if value_of(old(self).accounts@, receiver_id) < unused {
                        value_of(old(self).accounts@, receiver_id)
                    } else {
                        unused
                    };
                    &&& r matches Ok(rec) && rec.used == amount - refund && rec.refund == Some(
                        refund,
                    )
                    &&& shares_moved(*old(self), *final(self), receiver_id, sender_id, refund)
                }
            }),
    {
        proof {
            lemma_sorted_implies_distinct(self.accounts@);
        }
        let unused = match &transfer_result {
            Some(bytes) => parse_unused_amount(bytes, amount),
            None => amount,
        };
        if unused == 0 {
            return Ok(ResolveReceipt { used: amount, refund: None });
        }
        let receiver_balance = match map_get(&self.accounts, receiver_id) {
            Some(b) => b,
            None => {
                return Err(Error::NoBalance);
            },
        };
        let sender_present = match map_get(&self.accounts, sender_id) {
            Some(_) => true,
            None => false,
        };
        if !sender_present {
            return Err(Error::NoBalance);
        }
        let refund = if receiver_balance < unused {
            receiver_balance
        } else {
            unused
        };
        proof {
            if sender_id != receiver_id {
                lemma_two_values_le_sum(self.accounts@, receiver_id, sender_id);
            }
        }
        map_set(&mut self.accounts, receiver_id, receiver_balance - refund);
        let sv = map_get_present(&self.accounts, sender_id);
        map_set(&mut self.accounts, sender_id, sv + refund);
        Ok(ResolveReceipt { used: amount - refund, refund: Some(refund) })
    }

    /// Redeems the caller's whole balance for a pro-rata slice of every
    /// pooled reward token.
    ///
    /// The call must attach exactly one minimal currency unit and enough
    /// prepaid execution budget for one transfer per reward token. An
    /// owner's burn completes synchronously, with no penalty. Any other
    /// caller's burn starts an asynchronous badge check: the ledger is left
    /// untouched and the host must hand the registry's answer to
    /// [`Contract::on_burn`], which performs the burn.
    pub fn burn(&mut self, caller: u64, attached_yocto: u128, prepaid_gas: u64) -> (r: Result<
        BurnOutcome,
        Error,
    >)
        requires
            old(self).wf(),
        ensures
            final(self).wf(),
            old(self).same_identities(*final(self)),
            final(self).same_whitelist(*old(self)),
            final(self).deposits@ == old(self).deposits@,
            r == Err::<BurnOutcome, Error>(Error::OneYoctoRequired) <==> attached_yocto != 1,
            r == Err::<BurnOutcome, Error>(Error::NotEnoughGas) <==> attached_yocto == 1
                && prepaid_gas < GAS_FOR_BURN + GAS_FOR_NFT_CHECK + GAS_FOR_FT_TRANSFER * old(
                self,
            ).rewards@.len(),
            r == Err::<BurnOutcome, Error>(Error::NoBalance) <==> attached_yocto == 1
                && prepaid_gas >= GAS_FOR_BURN + GAS_FOR_NFT_CHECK + GAS_FOR_FT_TRANSFER * old(
                self,
            ).rewards@.len() && !has_key(old(self).accounts@, caller),
            r == Err::<BurnOutcome, Error>(Error::NoTotalShares) <==> attached_yocto == 1
                && prepaid_gas >= GAS_FOR_BURN + GAS_FOR_NFT_CHECK + GAS_FOR_FT_TRANSFER * old(
                self,
            ).rewards@.len() && has_key(old(self).accounts@, caller) && caller == old(self).owner
                && old(self).rewards@.len() > 0 && old(self).shares == 0,
            r is Ok <==> attached_yocto == 1 && prepaid_gas >= GAS_FOR_BURN + GAS_FOR_NFT_CHECK
                + GAS_FOR_FT_TRANSFER * old(self).rewards@.len() && has_key(
                old(self).accounts@,
                caller,
            ) && !(caller == old(self).owner && old(self).rewards@.len() > 0 && old(self).shares
                == 0),
            r is Err ==> *final(self) == *old(self),
            r is Ok ==> ((r matches Ok(BurnOutcome::AwaitNftCheck { removed: _ })) <==> caller
                != old(self).owner),
            r matches Ok(BurnOutcome::AwaitNftCheck { removed }) ==> ({
                &&& removed == value_of(old(self).accounts@, caller)
                &&& !has_key(final(self).accounts@, caller)
                &&& forall|k: u64|
                    k != caller ==> (has_key(final(self).accounts@, k) <==> has_key(
                        old(self).accounts@,
                        k,
                    ))
                &&& forall|k: u64|
                    k != caller && has_key(old(self).accounts@, k) ==> value_of(
                        final(self).accounts@,
                        k,
                    ) == value_of(old(self).accounts@, k)
                &&& final(self).shares == old(self).shares
                &&& final(self).pending_burns == old(self).pending_burns + removed
                &&& final(self).rewards@ == old(self).rewards@
            }),
            r matches Ok(BurnOutcome::Done(receipt)) ==> ({
                &&& caller == old(self).owner
                &&& receipt.removed == value_of(old(self).accounts@, caller)
                &&& receipt.penalty == 0
                &&& receipt.burned == receipt.removed
                &&& receipt.payouts@ == payout_seq(
                    old(self).rewards@,
                    receipt.removed,
                    old(self).shares,
                )
                &&& receipt.score_report is None
                &&& !has_key(final(self).accounts@, caller)
                &&& forall|k: u64|
                    k != caller ==> (has_key(final(self).accounts@, k) <==> has_key(
                        old(self).accounts@,
                        k,
                    ))
                &&& forall|k: u64|
                    k != caller && has_key(old(self).accounts@, k) ==> value_of(
                        final(self).accounts@,
                        k,
                    ) == value_of(old(self).accounts@, k)
                &&& final(self).rewards@ == pool_after(
                    old(self).rewards@,
                    receipt.removed,
                    old(self).shares,
                )
                &&& final(self).shares == old(self).shares - receipt.removed
                &&& final(self).pending_burns == old(self).pending_burns
            }),
    {
        proof {
            lemma_sorted_implies_distinct(self.accounts@);
        }
        if attached_yocto != 1 {
            return Err(Error::OneYoctoRequired);
        }
        let n = self.rewards.len() as u64;
        let enough = match GAS_FOR_FT_TRANSFER.checked_mul(n) {
            Some(m) => match m.checked_add(GAS_FOR_BURN + GAS_FOR_NFT_CHECK) {
                Some(required) => prepaid_gas >= required,
                None => false,
            },
            None => false,
        };
        if !enough {
            return Err(Error::NotEnoughGas);
        }
        let balance = match map_get(&self.accounts, caller) {
            Some(b) => b,
            None => {
                return Err(Error::NoBalance);
            },
        };
        if caller == self.owner {
            if self.rewards.len() > 0 && self.shares == 0 {
                return Err(Error::NoTotalShares);
            }
            proof {
                lemma_value_le_sum(self.accounts@, caller);
            }
            map_remove(&mut self.accounts, caller);
            let payouts = disburse(&mut self.rewards, balance, self.shares);
            self.shares = self.shares - balance;
            Ok(
                BurnOutcome::Done(
                    BurnReceipt {
                        removed: balance,
                        penalty: 0,
                        burned: balance,
                        payouts,
                        score_report: None,
                    },
                ),
            )
        } else {
            proof {
                lemma_value_le_sum(self.accounts@, caller);
            }
            map_remove(&mut self.accounts, caller);
            self.pending_burns = self.pending_burns + balance;
            Ok(BurnOutcome::AwaitNftCheck { removed: balance })
        }
    }

    /// Finishes a burn whose synchronous phase committed: the badge
    /// registry has answered, and `removed` is the balance that phase took
    /// out of `sender_id`'s account and left in flight.
    ///
    /// Without a primary badge, one fifth of the removed balance is
    /// redirected to the owner before payouts are computed. When the
    /// designated score token is in the pool and a badge is present, the
    /// receipt carries a score report of three times that token's payout.
    /// On an error the ledger is unchanged and the removed balance stays in
    /// flight, so the continuation can be run again.
    pub fn on_burn(
        &mut self,
        sender_id: u64,
        removed: u128,
        primary_nft: Option<(u64, u128)>,
    ) -> (r: Result<BurnReceipt, Error>)
        requires
            old(self).wf(),
            removed <= old(self).pending_burns,
        ensures
            final(self).wf(),
            old(self).same_identities(*final(self)),
            final(self).same_whitelist(*old(self)),
            final(self).deposits@ == old(self).deposits@,
            r == Err::<BurnReceipt, Error>(Error::NoOwnerAccount) <==> primary_nft is None
                && !has_key(old(self).accounts@, old(self).owner),
            r == Err::<BurnReceipt, Error>(Error::NoTotalShares) <==> (primary_nft is None
                ==> has_key(old(self).accounts@, old(self).owner)) && old(self).rewards@.len() > 0
                && old(self).shares == 0,
            r == Err::<BurnReceipt, Error>(Error::Overflow) <==> primary_nft is Some && !(old(
                self,
            ).rewards@.len() > 0 && old(self).shares == 0) && has_key(
                old(self).rewards@,
                old(self).score_token,
            ) && 3 * payout(
                removed,
                value_of(old(self).rewards@, old(self).score_token),
                old(self).shares,
            ) > u128::MAX,
            r is Ok <==> (primary_nft is None ==> has_key(old(self).accounts@, old(self).owner))
                && !(old(self).rewards@.len() > 0 && old(self).shares == 0) && (primary_nft is Some
                && has_key(old(self).rewards@, old(self).score_token) ==> 3 * payout(
                removed,
                value_of(old(self).rewards@, old(self).score_token),
                old(self).shares,
            ) <= u128::MAX),
            r is Err ==> *final(self) == *old(self),
            r matches Ok(receipt) ==> ({
                let penalty: u128 = if primary_nft is None {
                    removed / 5
                } else {
                    0
                };
                let b_eff = (removed - penalty) as u128;
                &&& receipt.removed == removed
                &&& receipt.penalty == penalty
                &&& receipt.burned == b_eff
                &&& receipt.payouts@ == payout_seq(old(self).rewards@, b_eff, old(self).shares)
                &&& receipt.score_report == (match primary_nft {
                    Option::Some(p) => if has_key(old(self).rewards@, old(self).score_token) {
                        Option::Some(
                            (
                                p.0,
                                (3 * payout(
                                    b_eff,
                                    value_of(old(self).rewards@, old(self).score_token),
                                    old(self).shares,
                                )) as u128,
                            ),
                        )
                    } else {
                        Option::None
                    },
                    Option::None => Option::None,
                })
                &&& primary_nft is None ==> has_key(final(self).accounts@, old(self).owner)
                    && value_of(final(self).accounts@, old(self).owner) == value_of(
                    old(self).accounts@,
                    old(self).owner,
                ) + penalty
                &&& forall|k: u64|
                    (primary_nft is None ==> k != old(self).owner) ==> (has_key(
                        final(self).accounts@,
                        k,
                    ) <==> has_key(old(self).accounts@, k))
                &&& forall|k: u64|
                    (primary_nft is None ==> k != old(self).owner) && has_key(
                        old(self).accounts@,
                        k,
                    ) ==> value_of(final(self).accounts@, k) == value_of(old(self).accounts@, k)
                &&& final(self).rewards@ == pool_after(old(self).rewards@, b_eff, old(self).shares)
                &&& final(self).shares == old(self).shares - b_eff
                &&& final(self).pending_burns == old(self).pending_burns - removed
            }),
    {
        proof {
            lemma_sorted_implies_distinct(self.accounts@);
            lemma_sum_nonneg(self.accounts@);
        }
        let penalized = match primary_nft {
            Some(_) => false,
            None => true,
        };
        if penalized {
            let owner_present = match map_get(&self.accounts, self.owner) {
                Some(_) => true,
                None => false,
            };
            if !owner_present {
                return Err(Error::NoOwnerAccount);
            }
        }
        let penalty: u128 = if penalized {
            removed / 5
        } else {
            0
        };
        proof {
            assert(removed / 5 <= removed) by (nonlinear_arith);
        }
        let b_eff = removed - penalty;
        if self.rewards.len() > 0 && self.shares == 0 {
            return Err(Error::NoTotalShares);
        }
        let score_report: Option<(u64, u128)> = match primary_nft {
            Some(p) => {
                match map_get(&self.rewards, self.score_token) {
                    Some(rv) => {
                        proof {
                            let j = index_of_key(self.rewards@, self.score_token);
                            assert(self.rewards@.len() > 0);
                        }
                        let a = payout_amount(b_eff, rv, self.shares);
                        match a.checked_mul(3) {
                            Some(sc) => Some((p.0, sc)),
                            None => {
                                return Err(Error::Overflow);
                            },
                        }
                    },
                    None => None,
                }
            },
            None => None,
        };
        if penalized {
            proof {
                lemma_value_le_sum(self.accounts@, self.owner);
            }
            let ob = map_get_present(&self.accounts, self.owner);
            map_set(&mut self.accounts, self.owner, ob + penalty);
        }
        let payouts = disburse(&mut self.rewards, b_eff, self.shares);
        self.shares = self.shares - b_eff;
        self.pending_burns = self.pending_burns - removed;
        Ok(
            BurnReceipt {
                removed,
                penalty,
                burned: b_eff,
                payouts,
                score_report,
            },
        )
    }


    /// Converts every pending deposit into reward pool holdings and, when
    /// `share_amount` is positive, mints that many new shares to the owner,
    /// diluting existing holders; the host emits a mint event then. Only the
    /// owner may call this, and at least one pending deposit must exist.
    pub fn mint(&mut self, caller: u64, share_amount: u128) -> (r: Result<(), Error>)
        requires
            old(self).wf(),
        ensures
            final(self).wf(),
            r == (if caller != old(self).owner {
                Err::<(), Error>(Error::NotOwner)
            } else if old(self).deposits@.len() == 0 {
                Err::<(), Error>(Error::NoDeposits)
            } else if old(self).shares + share_amount > u128::MAX || !merge_fits(
                old(self).rewards@,
                old(self).deposits@,
            ) {
                Err::<(), Error>(Error::Overflow)
            } else if share_amount > 0 && !has_key(old(self).accounts@, old(self).owner) {
                Err::<(), Error>(Error::NoOwnerAccount)
            } else {
                Ok(())
            }),
            r is Err ==> *final(self) == *old(self),
            r is Ok ==> ({
                &&& final(self).rewards@ == merge_all(old(self).rewards@, old(self).deposits@)
                &&& final(self).deposits@ == Seq::<(u64, u128)>::empty()
                &&& final(self).shares == old(self).shares + share_amount
                &&& final(self).pending_burns == old(self).pending_burns
                &&& old(self).same_identities(*final(self))
                &&& final(self).same_whitelist(*old(self))
                &&& (share_amount == 0 ==> final(self).accounts@ == old(self).accounts@)
                &&& (share_amount > 0 ==> has_key(final(self).accounts@, old(self).owner)
                    && value_of(final(self).accounts@, old(self).owner) == value_of(
                    old(self).accounts@,
                    old(self).owner,
                ) + share_amount && (forall|k: u64|
                    k != old(self).owner ==> (has_key(final(self).accounts@, k) <==> has_key(
                        old(self).accounts@,
                        k,
                    ))) && (forall|k: u64|
                    k != old(self).owner && has_key(old(self).accounts@, k) ==> value_of(
                        final(self).accounts@,
                        k,
                    ) == value_of(old(self).accounts@, k)))
            }),
    {
        proof {
            lemma_sorted_implies_distinct(self.accounts@);
        }
        if caller != self.owner {
            return Err(Error::NotOwner);
        }
        if self.deposits.len() == 0 {
            return Err(Error::NoDeposits);
        }
        if share_amount > u128::MAX - self.shares {
            return Err(Error::Overflow);
        }
        let ghost r0 = self.rewards@;
        let ghost d0 = self.deposits@;
        let mut merged = clone_entries(&self.rewards);
        proof {
            assert(d0.skip(0) =~= d0);
        }
        let mut i: usize = 0;
        while i < self.deposits.len()
            invariant
                i <= d0.len(),
                *self == *old(self),
                d0 == old(self).deposits@,
                r0 == old(self).rewards@,
                old(self).wf(),
                caller == old(self).owner,
                d0.len() > 0,
                old(self).shares + share_amount <= u128::MAX,
                distinct_keys(merged@),
                merge_all(r0, d0) == merge_all(merged@, d0.skip(i as int)),
                merge_fits(r0, d0) <==> merge_fits(merged@, d0.skip(i as int)),
            decreases d0.len() - i,
        {
            let (t, a) = self.deposits[i];
            proof {
                assert(d0.skip(i as int)[0] == (t, a));
                assert(d0.skip(i as int).drop_first() =~= d0.skip(i + 1));
            }
            match map_get(&merged, t) {
                Some(v) => {
                    match v.checked_add(a) {
                        Some(nv) => {
                            map_set(&mut merged, t, nv);
                        },
                        None => {
                            proof {
                                assert(!entry_fits(merged@, t, a));
                                assert(!merge_fits(merged@, d0.skip(i as int)));
                            }
                            return Err(Error::Overflow);
                        },
                    }
                },
                None => {
                    map_push_fresh(&mut merged, t, a);
                },
            }
            i += 1;
        }
        proof {
            assert(d0.skip(d0.len() as int) =~= Seq::<(u64, u128)>::empty());
            assert(merged@ == merge_all(r0, d0));
            assert(merge_fits(r0, d0));
        }
        if share_amount > 0 {
            let owner_present = match map_get(&self.accounts, self.owner) {
                Some(_) => true,
                None => false,
            };
            if !owner_present {
                return Err(Error::NoOwnerAccount);
            }
        }
        self.rewards = merged;
        self.deposits = Vec::new();
        if share_amount > 0 {
            proof {
                lemma_value_le_sum(self.accounts@, self.owner);
            }
            let ob = map_get_present(&self.accounts, self.owner);
            map_set(&mut self.accounts, self.owner, ob + share_amount);
            self.shares = self.shares + share_amount;
        }
        Ok(())
    }

    /// Makes a token eligible for deposits; owner only. Nothing prevents a
    /// duplicate entry — removal takes one entry out at a time.
    pub fn whitelist_add_token(&mut self, caller: u64, token_id: u64) -> (r: Result<(), Error>)
        requires
            old(self).wf(),
        ensures
            final(self).wf(),
            r == (if caller != old(self).owner {
                Err::<(), Error>(Error::NotOwner)
            } else {
                Ok(())
            }),
            r is Err ==> *final(self) == *old(self),
            r is Ok ==> final(self).token_whitelist@ == old(self).token_whitelist@.push(token_id)
                && old(self).same_identities(*final(self)) && final(self).same_balances(*old(self))
                && final(self).same_pools(*old(self)),
    {
        if caller != self.owner {
            return Err(Error::NotOwner);
        }
        self.token_whitelist.push(token_id);
        Ok(())
    }

    /// Takes a token's first whitelist entry out, by exact match; owner
    /// only, and the token must be listed.
    pub fn whitelist_remove_token(&mut self, caller: u64, token_id: u64) -> (r: Result<(), Error>)
        requires
            old(self).wf(),
        ensures
            final(self).wf(),
            r == (if caller != old(self).owner {
                Err::<(), Error>(Error::NotOwner)
            } else if !old(self).token_whitelist@.contains(token_id) {
                Err::<(), Error>(Error::UnknownToken)
            } else {
                Ok(())
            }),
            r is Err ==> *final(self) == *old(self),
            r is Ok ==> final(self).token_whitelist@ == old(self).token_whitelist@.remove_value(
                token_id,
            ) && old(self).same_identities(*final(self)) && final(self).same_balances(*old(self))
                && final(self).same_pools(*old(self)),
    {
        if caller != self.owner {
            return Err(Error::NotOwner);
        }
        let ghost w = self.token_whitelist@;
        let mut i: usize = 0;
        while i < self.token_whitelist.len()
            invariant
                i <= w.len(),
                *self == *old(self),
                old(self).wf(),
                caller == old(self).owner,
                w == old(self).token_whitelist@,
                forall|j: int| 0 <= j < i ==> w[j] != token_id,
            decreases w.len() - i,
        {
            if self.token_whitelist[i] == token_id {
                self.token_whitelist.remove(i);
                proof {
                    assert(w.contains(token_id)) by {
                        assert(w[i as int] == token_id);
                    }
                    w.index_of_first_ensures(token_id);
                    let fi = w.index_of_first(token_id).unwrap();
                    if fi < i as int {
                        assert(w[fi] != token_id);
                    } else if fi > i as int {
                        assert(w[i as int] != token_id);
                    }
                    assert(fi == i as int);
                }
                return Ok(());
            }
            i += 1;
        }
        proof {
            assert(!w.contains(token_id)) by {
                if w.contains(token_id) {
                    let j = choose|j: int| 0 <= j < w.len() && w[j] == token_id;
                    assert(w[j] != token_id);
                }
            }
        }
        Err(Error::UnknownToken)
    }

    /// Draws `amount` of a pending deposit back out; owner only. The host
    /// transfers the amount to the owner on success.
    pub fn withdraw(&mut self, caller: u64, token_id: u64, amount: u128) -> (r: Result<(), Error>)
        requires
            old(self).wf(),
        ensures
            final(self).wf(),
            r == (if caller != old(self).owner {
                Err::<(), Error>(Error::NotOwner)
            } else if !has_key(old(self).deposits@, token_id) {
                Err::<(), Error>(Error::UnknownToken)
            } else if value_of(old(self).deposits@, token_id) < amount {
                Err::<(), Error>(Error::InsufficientFunds)
            } else {
                Ok(())
            }),
            r is Err ==> *final(self) == *old(self),
            r is Ok ==> final(self).deposits@ == old(self).deposits@.update(
                index_of_key(old(self).deposits@, token_id),
                (token_id, (value_of(old(self).deposits@, token_id) - amount) as u128),
            ) && old(self).same_identities(*final(self)) && final(self).same_balances(*old(self))
                && final(self).same_whitelist(*old(self)) && final(self).rewards@ == old(
                self,
            ).rewards@,
    {
        if caller != self.owner {
            return Err(Error::NotOwner);
        }
        let v = match map_get(&self.deposits, token_id) {
            Some(v) => v,
            None => {
                return Err(Error::UnknownToken);
            },
        };
        if v < amount {
            return Err(Error::InsufficientFunds);
        }
        map_set(&mut self.deposits, token_id, v - amount);
        Ok(())
    }

    /// Draws `amount` of a token's undistributed rewards back out, deleting
    /// the entry when it reaches zero; owner only, positive amounts only.
    /// The host transfers the amount to the owner on success.
    pub fn withdraw_reward(&mut self, caller: u64, token_id: u64, amount: u128) -> (r: Result<
        (),
        Error,
    >)
        requires
            old(self).wf(),
        ensures
            final(self).wf(),
            r == (if caller != old(self).owner {
                Err::<(), Error>(Error::NotOwner)
            } else if amount == 0 {
                Err::<(), Error>(Error::ZeroAmount)
            } else if !has_key(old(self).rewards@, token_id) {
                Err::<(), Error>(Error::UnknownToken)
            } else if value_of(old(self).rewards@, token_id) < amount {
                Err::<(), Error>(Error::InsufficientFunds)
            } else {
                Ok(())
            }),
            r is Err ==> *final(self) == *old(self),
            r is Ok ==> final(self).rewards@ == (if value_of(old(self).rewards@, token_id)
                == amount {
                old(self).rewards@.remove(index_of_key(old(self).rewards@, token_id))
            } else {
                old(self).rewards@.update(
                    index_of_key(old(self).rewards@, token_id),
                    (token_id, (value_of(old(self).rewards@, token_id) - amount) as u128),
                )
            }) && old(self).same_identities(*final(self)) && final(self).same_balances(*old(self))
                && final(self).same_whitelist(*old(self)) && final(self).deposits@ == old(
                self,
            ).deposits@,
    {
        if caller != self.owner {
            return Err(Error::NotOwner);
        }
        if amount == 0 {
            return Err(Error::ZeroAmount);
        }
        let v = match map_get(&self.rewards, token_id) {
            Some(v) => v,
            None => {
                return Err(Error::UnknownToken);
            },
        };
        if v < amount {
            return Err(Error::InsufficientFunds);
        }
        if v == amount {
            map_remove(&mut self.rewards, token_id);
        } else {
            map_set(&mut self.rewards, token_id, v - amount);
        }
        Ok(())
    }

    /// Deletes a token's reward entry entirely, returning the amount for the
    /// host to transfer to the owner; owner only, and the entry must exist
    /// and be positive.
    pub fn remove_reward(&mut self, caller: u64, token_id: u64) -> (r: Result<u128, Error>)
        requires
            old(self).wf(),
        ensures
            final(self).wf(),
            r == (if caller != old(self).owner {
                Err::<u128, Error>(Error::NotOwner)
            } else if !has_key(old(self).rewards@, token_id) {
                Err::<u128, Error>(Error::UnknownToken)
            } else if value_of(old(self).rewards@, token_id) == 0 {
                Err::<u128, Error>(Error::ZeroReward)
            } else {
                Ok(value_of(old(self).rewards@, token_id))
            }),
            r is Err ==> *final(self) == *old(self),
            r is Ok ==> final(self).rewards@ == old(self).rewards@.remove(
                index_of_key(old(self).rewards@, token_id),
            ) && old(self).same_identities(*final(self)) && final(self).same_balances(*old(self))
                && final(self).same_whitelist(*old(self)) && final(self).deposits@ == old(
                self,
            ).deposits@,
    {
        if caller != self.owner {
            return Err(Error::NotOwner);
        }
        let v = match map_get(&self.rewards, token_id) {
            Some(v) => v,
            None => {
                return Err(Error::UnknownToken);
            },
        };
        if v == 0 {
            return Err(Error::ZeroReward);
        }
        map_remove(&mut self.rewards, token_id);
        Ok(v)
    }

    /// A one-shot accounting patch: subtracts from the owner's recorded
    /// balance the amount by which a historical fault left recorded
    /// balances above the share total, restoring conservation. Only the
    /// contract account itself may invoke it through the host, and only a
    /// state that is exactly `correction` out of balance admits it — once
    /// the books balance, a positive correction no longer applies, so the
    /// patch cannot run twice. Returns the owner's balance before and after
    /// the patch, for the host's burn and mint events.
    pub fn migrate(&mut self, correction: u128) -> (r: (u128, u128))
        requires
            sorted_keys(old(self).accounts@),
            distinct_keys(old(self).deposits@),
            distinct_keys(old(self).rewards@),
            has_key(old(self).accounts@, old(self).owner),
            correction <= value_of(old(self).accounts@, old(self).owner),
            sum_amounts(old(self).accounts@) + old(self).pending_burns == old(self).shares
                + correction,
        ensures
            final(self).wf(),
            r.0 == value_of(old(self).accounts@, old(self).owner),
            r.1 == r.0 - correction,
            has_key(final(self).accounts@, old(self).owner),
            value_of(final(self).accounts@, old(self).owner) == r.1,
            forall|k: u64|
                k != old(self).owner ==> (has_key(final(self).accounts@, k) <==> has_key(
                    old(self).accounts@,
                    k,
                )),
            forall|k: u64|
                k != old(self).owner && has_key(old(self).accounts@, k) ==> value_of(
                    final(self).accounts@,
                    k,
                ) == value_of(old(self).accounts@, k),
            final(self).shares == old(self).shares,
            final(self).pending_burns == old(self).pending_burns,
            old(self).same_identities(*final(self)),
            final(self).same_pools(*old(self)),
            final(self).same_whitelist(*old(self)),
    {
        proof {
            lemma_sorted_implies_distinct(self.accounts@);
        }
        let ob = map_get_present(&self.accounts, self.owner);
        map_set(&mut self.accounts, self.owner, ob - correction);
        (ob, ob - correction)
    }

    /// What a burn of `share_amount` shares would disburse right now, per
    /// reward token, without touching any state: the same proportional
    /// formula an actual burn applies.
    pub fn simulate_burn(&self, share_amount: u128) -> (r: Vec<(u64, u128)>)
        requires
            self.wf(),
            share_amount <= self.shares,
            self.rewards@.len() > 0 ==> self.shares > 0,
        ensures
            r@ == payout_seq(self.rewards@, share_amount, self.shares),
    {
        let mut r: Vec<(u64, u128)> = Vec::new();
        let mut i: usize = 0;
        while i < self.rewards.len()
            invariant
                i <= self.rewards@.len(),
                share_amount <= self.shares,
                self.rewards@.len() > 0 ==> self.shares > 0,
                r@ == payout_seq(self.rewards@, share_amount, self.shares).take(i as int),
            decreases self.rewards@.len() - i,
        {
            let amount = payout_amount(share_amount, self.rewards[i].1, self.shares);
            r.push((self.rewards[i].0, amount));
            proof {
                assert(r@ =~= payout_seq(self.rewards@, share_amount, self.shares).take(i + 1));
            }
            i += 1;
        }
        proof {
            assert(r@ =~= payout_seq(self.rewards@, share_amount, self.shares));
        }
        r
    }
}

/// Applies one burn of `b` of `s` shares to the reward pool: decrements
/// every entry by exactly the amount disbursed for its token and returns
/// those amounts in pool order.
fn disburse(rewards: &mut Vec<(u64, u128)>, b: u128, s: u128) -> (p: Vec<(u64, u128)>)
    requires
        distinct_keys(old(rewards)@),
        old(rewards)@.len() > 0 ==> s > 0 && b <= s,
    ensures
        final(rewards)@ == pool_after(old(rewards)@, b, s),
        p@ == payout_seq(old(rewards)@, b, s),
        distinct_keys(final(rewards)@),
{
    let ghost r0 = old(rewards)@;
    let mut payouts: Vec<(u64, u128)> = Vec::new();
    let mut i: usize = 0;
    while i < rewards.len()
        invariant
            i <= r0.len(),
            r0 == old(rewards)@,
            rewards@.len() == r0.len(),
            r0.len() > 0 ==> s > 0 && b <= s,
            forall|j: int| i <= j < r0.len() ==> rewards@[j] == r0[j],
            forall|j: int| 0 <= j < i ==> rewards@[j] == pool_after(r0, b, s)[j],
            payouts@ == payout_seq(r0, b, s).take(i as int),
        decreases r0.len() - i,
    {
        let (t, rv) = rewards[i];
        let amount = payout_amount(b, rv, s);
        rewards.set(i, (t, rv - amount));
        payouts.push((t, amount));
        proof {
            assert(payouts@ =~= payout_seq(r0, b, s).take(i + 1));
        }
        i += 1;
    }
    proof {
        assert(rewards@ =~= pool_after(r0, b, s));
        assert(payouts@ =~= payout_seq(r0, b, s));
        assert forall|x: int, y: int|
            0 <= x < y < rewards@.len() implies rewards@[x].0 != rewards@[y].0 by {
            assert(r0[x].0 != r0[y].0);
        }
    }
    payouts
}

} // verus!

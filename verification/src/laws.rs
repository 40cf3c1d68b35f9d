//! The distribution laws the ledger guarantees, stated once and proved.
//!
//! Conservation — balances always summing exactly to the outstanding shares
//! — is part of [`crate::contract::Contract::wf`], which every operation's
//! contract preserves; the laws here govern what burning pays out.

use vstd::prelude::*;
use crate::contract::Contract;
use crate::math::{payout, payout_int, payout_seq, pool_after, lemma_full_payout_int,
    lemma_payout_dust, lemma_payout_dust_int, lemma_payout_le_pool, lemma_payout_le_pool_int};
use crate::store::sum_amounts;

verus! {

/// **Conservation.** In every well-formed ledger state — [`Contract::wf`],
/// which the constructor establishes and every operation's contract
/// preserves — the account balances, together with what burns hold in
/// flight between their synchronous phase and their continuation, sum
/// exactly to the total shares outstanding; whenever no burn is in flight,
/// the balances alone do.
pub proof fn lemma_conservation(c: Contract)
    requires
        c.wf(),
    ensures
        sum_amounts(c.accounts@) + c.pending_burns == c.shares,
        c.pending_burns == 0 ==> sum_amounts(c.accounts@) == c.shares,
{
}

/// One token's pool after a sequence of burns, each `burns[i]` the share
/// amount of one burn, applied to the shares outstanding at its turn.
pub open spec fn pool_after_burns(r: int, s: int, burns: Seq<int>) -> int
    decreases burns.len(),
{
    if burns.len() == 0 {
        r
    } else {
        pool_after_burns(
            r - payout_int(burns[0], r, s),
            s - burns[0],
            burns.drop_first(),
        )
    }
}

/// The total one token's pool disburses over a sequence of burns.
pub open spec fn total_disbursed(r: int, s: int, burns: Seq<int>) -> int
    decreases burns.len(),
{
    if burns.len() == 0 {
        0
    } else {
        payout_int(burns[0], r, s) + total_disbursed(
            r - payout_int(burns[0], r, s),
            s - burns[0],
            burns.drop_first(),
        )
    }
}

/// Each burn retires a positive amount of shares, at most those outstanding
/// at its turn — what the ledger's conservation invariant guarantees of any
/// holder's balance.
pub open spec fn valid_burns(s: int, burns: Seq<int>) -> bool
    decreases burns.len(),
{
    burns.len() == 0 || (0 < burns[0] <= s && valid_burns(s - burns[0], burns.drop_first()))
}

pub open spec fn sum_of(burns: Seq<int>) -> int
    decreases burns.len(),
{
    if burns.len() == 0 {
        0
    } else {
        burns[0] + sum_of(burns.drop_first())
    }
}

/// **Proportionality.** Two holders redeeming against the same pool
/// snapshot `(r, s)` are paid in the ratio of their balances, up to less
/// than one unit of truncation dust per holder: cross-multiplied, each
/// payout stays under the other's payout plus one.
pub proof fn lemma_proportional_payout(b1: u128, b2: u128, r: u128, s: u128)
    requires
        0 < b1,
        0 < b2,
        b1 <= s,
        b2 <= s,
    ensures
        payout(b1, r, s) * b2 < (payout(b2, r, s) + 1) * b1,
        payout(b2, r, s) * b1 < (payout(b1, r, s) + 1) * b2,
{
    lemma_payout_dust(b1, r, s);
    lemma_payout_dust(b2, r, s);
    let a1 = payout(b1, r, s);
    let a2 = payout(b2, r, s);
    let bi1 = b1 as int;
    let bi2 = b2 as int;
    let ri = r as int;
    let si = s as int;
    assert(a1 * bi2 < (a2 + 1) * bi1) by (nonlinear_arith)
        requires
            a1 * si <= bi1 * ri,
            bi2 * ri - si < a2 * si,
            0 < bi1,
            0 < bi2,
            0 < si,
    ;
    assert(a2 * bi1 < (a1 + 1) * bi2) by (nonlinear_arith)
        requires
            a2 * si <= bi2 * ri,
            bi1 * ri - si < a1 * si,
            0 < bi1,
            0 < bi2,
            0 < si,
    ;
}

/// **No value creation.** Across any sequence of burns against one token's
/// pool, what is disbursed is exactly what the pool loses, the pool never
/// goes negative, and the total disbursed since the pool stood at `r` (the
/// last mint) never exceeds `r`.
pub proof fn lemma_no_value_creation(r: int, s: int, burns: Seq<int>)
    requires
        0 <= r,
        0 <= s,
        valid_burns(s, burns),
    ensures
        0 <= pool_after_burns(r, s, burns) <= r,
        total_disbursed(r, s, burns) == r - pool_after_burns(r, s, burns),
        total_disbursed(r, s, burns) <= r,
    decreases burns.len(),
{
    if burns.len() > 0 {
        let b = burns[0];
        let p = payout_int(b, r, s);
        lemma_payout_le_pool_int(b, r, s);
        lemma_no_value_creation(r - p, s - b, burns.drop_first());
    }
}

/// **Full exhaustion.** When the burns together retire every outstanding
/// share — the last holder redeeming everything that remains — the pool is
/// left at exactly zero: the final full-balance burn sweeps all truncation
/// dust the earlier burns left behind.
pub proof fn lemma_full_burn_exhausts(r: int, s: int, burns: Seq<int>)
    requires
        0 <= r,
        burns.len() > 0,
        valid_burns(s, burns),
        sum_of(burns) == s,
    ensures
        pool_after_burns(r, s, burns) == 0,
    decreases burns.len(),
{
    let b = burns[0];
    let p = payout_int(b, r, s);
    lemma_payout_le_pool_int(b, r, s);
    if burns.len() == 1 {
        assert(sum_of(burns.drop_first()) == 0);
        assert(b == s);
        lemma_full_payout_int(r, s);
        assert(pool_after_burns(r - r, 0, burns.drop_first()) == 0);
    } else {
        lemma_full_burn_exhausts(r - p, s - b, burns.drop_first());
    }
}

/// **Simulation fidelity.** A simulate-burn query and an actual burn of the
/// same share amount against the same snapshot agree: per token, the pool
/// loses exactly the simulated amount, which never exceeds what the pool
/// held.
pub proof fn lemma_simulation_matches_burn(rewards: Seq<(u64, u128)>, b: u128, s: u128)
    requires
        s > 0,
        b <= s,
    ensures
        payout_seq(rewards, b, s).len() == rewards.len(),
        pool_after(rewards, b, s).len() == rewards.len(),
        forall|i: int|
            0 <= i < rewards.len() ==> #[trigger] payout_seq(rewards, b, s)[i].0 == rewards[i].0
                && pool_after(rewards, b, s)[i].0 == rewards[i].0,
        forall|i: int|
            0 <= i < rewards.len() ==> #[trigger] payout_seq(rewards, b, s)[i].1 <= rewards[i].1,
        forall|i: int|
            0 <= i < rewards.len() ==> rewards[i].1 - #[trigger] pool_after(rewards, b, s)[i].1
                == payout_seq(rewards, b, s)[i].1,
{
    assert forall|i: int| 0 <= i < rewards.len() implies #[trigger] payout_seq(rewards, b, s)[i].1
        <= rewards[i].1 && rewards[i].1 - pool_after(rewards, b, s)[i].1 == payout_seq(
        rewards,
        b,
        s,
    )[i].1 by {
        lemma_payout_le_pool(b, rewards[i].1, s);
    }
}

/// **Proportionality across a sequence.** Two holders redeeming one after
/// the other — the second against the pool and shares the first burn left —
/// are each paid within one token unit of their pro-rata entitlement at the
/// common starting snapshot `(r, s)` (stated cross-multiplied by `s`), so
/// the two payouts stand in ratio `b1 : b2` up to at most one unit of
/// truncation dust per token per holder.
pub proof fn lemma_proportional_sequential(b1: int, b2: int, r: int, s: int)
    requires
        0 < b1,
        0 < b2,
        b1 + b2 <= s,
        0 <= r,
    ensures
        ({
            let a1 = payout_int(b1, r, s);
            let a2 = payout_int(b2, r - a1, s - b1);
            &&& b1 * r - s < a1 * s <= b1 * r
            &&& b2 * r - s < a2 * s && a2 * s < b2 * r + s
        }),
{
    let a1 = payout_int(b1, r, s);
    let r2 = r - a1;
    let s2 = s - b1;
    let a2 = payout_int(b2, r2, s2);
    lemma_payout_le_pool_int(b1, r, s);
    lemma_payout_dust_int(b1, r, s);
    lemma_payout_le_pool_int(b2, r2, s2);
    lemma_payout_dust_int(b2, r2, s2);
    assert(a2 * s < b2 * r + s) by (nonlinear_arith)
        requires
            a2 * s2 <= b2 * r2,
            b1 * r - s < a1 * s,
            r2 == r - a1,
            s2 == s - b1,
            0 < b2 <= s2,
            0 < s,
            0 <= a1,
            0 <= a2,
    ;
    assert(b2 * r - s < a2 * s) by (nonlinear_arith)
        requires
            b2 * r2 - s2 < a2 * s2,
            a1 * s <= b1 * r,
            r2 == r - a1,
            s2 == s - b1,
            0 < b2 <= s2,
            0 < s,
            0 <= a1,
            0 <= a2,
    ;
}

/// One ledger burn is one step of the burn-sequence model the laws above
/// quantify over: per token, the pool the burn leaves (`pool_after`, which
/// the burn operations' contracts name) is the model's pool after a
/// one-burn sequence.
pub proof fn lemma_burn_is_model_step(rewards: Seq<(u64, u128)>, b: u128, s: u128, i: int)
    requires
        s > 0,
        b <= s,
        0 <= i < rewards.len(),
    ensures
        pool_after(rewards, b, s)[i].1 == rewards[i].1 - payout_int(
            b as int,
            rewards[i].1 as int,
            s as int,
        ),
        pool_after_burns(rewards[i].1 as int, s as int, seq![b as int]) == pool_after(
            rewards,
            b,
            s,
        )[i].1,
{
    lemma_payout_le_pool(b, rewards[i].1, s);
    let bb = seq![b as int];
    let ri = rewards[i].1 as int;
    let si = s as int;
    assert(bb.drop_first() =~= Seq::<int>::empty());
    assert(pool_after_burns(ri, si, bb) == pool_after_burns(
        ri - payout_int(b as int, ri, si),
        si - b,
        bb.drop_first(),
    ));
    assert(pool_after_burns(ri - payout_int(b as int, ri, si), si - b, bb.drop_first()) == ri
        - payout_int(b as int, ri, si));
}

/// The valid-burns condition composes one burn at a time: a holder's whole
/// balance is positive and bounded by the outstanding shares.
pub proof fn lemma_valid_burns_step(s: int, b: int, rest: Seq<int>)
    requires
        0 < b <= s,
        valid_burns(s - b, rest),
    ensures
        valid_burns(s, seq![b] + rest),
{
    let w = seq![b] + rest;
    assert(w[0] == b);
    assert(w.drop_first() =~= rest);
}

} // verus!

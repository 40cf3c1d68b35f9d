//! Proportional-payout arithmetic.
//!
//! A burn of `b` of `s` outstanding shares is entitled, for every reward
//! token with pool amount `r`, to `floor(b * r / s)` token units. The
//! product `b * r` can exceed 128 bits, so the executable computation goes
//! through a 256-bit intermediate.

use vstd::prelude::*;
use vstd::arithmetic::div_mod::{lemma_div_is_ordered, lemma_div_multiples_vanish,
    lemma_div_pos_is_pos, lemma_fundamental_div_mod};
use vstd::arithmetic::mul::{lemma_mul_inequality, lemma_mul_is_commutative};
use primitive_types::U256;

verus! {

/// The pro-rata entitlement of `b` of `s` shares on a pool amount `r`:
/// `floor(b * r / s)`, truncation dust staying in the pool.
pub open spec fn payout_int(b: int, r: int, s: int) -> int
    recommends
        s > 0,
{
    (b * r) / s
}

/// [`payout_int`] on the ledger's machine-sized quantities.
pub open spec fn payout(b: u128, r: u128, s: u128) -> int
    recommends
        s > 0,
{
    payout_int(b as int, r as int, s as int)
}

/// Relies on primitive_types::U256: `From<u128>`, the `Mul` and `Div`
/// operators, and `as_u128`. A product of two 128-bit values fits in 256
/// bits, division truncates toward zero, and `as_u128` returns the value
/// exactly when it fits in 128 bits; the preconditions rule out the
/// division-by-zero and the does-not-fit panics.
#[verifier::external_body]
fn mul_div(a: u128, b: u128, c: u128) -> (r: u128)
    requires
        c > 0,
        (a as int * b as int) / (c as int) <= u128::MAX,
    ensures
        r == (a as int * b as int) / (c as int),
{
    (U256::from(a) * U256::from(b) / U256::from(c)).as_u128()
}

/// A burn of at most all outstanding shares never draws more than the pool
/// holds.
pub proof fn lemma_payout_le_pool_int(b: int, r: int, s: int)
    requires
        0 < s,
        0 <= b <= s,
        0 <= r,
    ensures
        0 <= payout_int(b, r, s) <= r,
{
    lemma_mul_inequality(b, s, r);
    lemma_div_is_ordered(b * r, s * r, s);
    lemma_mul_is_commutative(s, r);
    lemma_div_multiples_vanish(r, s);
    lemma_div_pos_is_pos(b * r, s);
    assert(b * r >= 0) by (nonlinear_arith)
        requires
            b >= 0,
            r >= 0,
    ;
}

/// [`lemma_payout_le_pool_int`] on the ledger's machine-sized quantities.
pub proof fn lemma_payout_le_pool(b: u128, r: u128, s: u128)
    requires
        s > 0,
        b <= s,
    ensures
        0 <= payout(b, r, s) <= r,
{
    lemma_payout_le_pool_int(b as int, r as int, s as int);
}

/// Burning every outstanding share drains the pool exactly.
pub proof fn lemma_full_payout_int(r: int, s: int)
    requires
        0 < s,
        0 <= r,
    ensures
        payout_int(s, r, s) == r,
{
    lemma_div_multiples_vanish(r, s);
}

/// The payout misses the exact pro-rata entitlement by less than one unit:
/// `b * r - s < payout * s <= b * r`.
pub proof fn lemma_payout_dust_int(b: int, r: int, s: int)
    requires
        0 < s,
        0 <= b,
        0 <= r,
    ensures
        payout_int(b, r, s) * s <= b * r,
        payout_int(b, r, s) * s > b * r - s,
{
    let x = b * r;
    lemma_fundamental_div_mod(x, s);
    assert(x == s * (x / s) + x % s);
    lemma_mul_is_commutative(s, x / s);
    assert(b * r >= 0) by (nonlinear_arith)
        requires
            b >= 0,
            r >= 0,
    ;
    assert(0 <= x % s < s);
}

/// [`lemma_payout_dust_int`] on the ledger's machine-sized quantities.
pub proof fn lemma_payout_dust(b: u128, r: u128, s: u128)
    requires
        s > 0,
    ensures
        payout(b, r, s) * s <= b as int * r as int,
        payout(b, r, s) * s > b as int * r as int - s,
{
    lemma_payout_dust_int(b as int, r as int, s as int);
}

/// The amounts a burn of `b` of `s` shares disburses, one entry per reward
/// token, in the pool's iteration order.
pub open spec fn payout_seq(rewards: Seq<(u64, u128)>, b: u128, s: u128) -> Seq<(u64, u128)> {
    Seq::new(rewards.len(), |i: int| (rewards[i].0, payout(b, rewards[i].1, s) as u128))
}

/// The reward pool after a burn of `b` of `s` shares: each entry decremented
/// by exactly the amount disbursed for its token.
pub open spec fn pool_after(rewards: Seq<(u64, u128)>, b: u128, s: u128) -> Seq<(u64, u128)> {
    Seq::new(
        rewards.len(),
        |i: int| (rewards[i].0, (rewards[i].1 - payout(b, rewards[i].1, s)) as u128),
    )
}

/// Computes `floor(b * r / s)`, the amount a burn of `b` shares disburses
/// from a pool of `r` units.
pub fn payout_amount(b: u128, r: u128, s: u128) -> (a: u128)
    requires
        s > 0,
        b <= s,
    ensures
        a == payout(b, r, s),
        a <= r,
{
    proof {
        lemma_payout_le_pool(b, r, s);
    }
    mul_div(b, r, s)
}

} // verus!

//! Decoding of the refund report returned by a receiving contract.
//!
//! After a transfer-with-payload, the receiver reports how much of the
//! transferred amount it did not consume, as a JSON document holding one
//! string of decimal digits. A report that cannot be read is conservatively
//! treated as "everything was used" — no refund is owed on the strength of
//! an unreadable claim — and a readable number is capped at the transferred
//! amount.

use vstd::prelude::*;

verus! {

/// The result of decoding `bytes` as a JSON document holding one string:
/// the string's UTF-8 bytes, or `None` when `bytes` is not such a document.
pub uninterp spec fn json_string_bytes(bytes: Seq<u8>) -> Option<Seq<u8>>;

/// Relies on serde_json::from_slice::<String>: decodes a JSON document
/// holding exactly one string; the result depends on the bytes alone.
#[verifier::external_body]
fn decode_json_string(bytes: &Vec<u8>) -> (r: Option<Vec<u8>>)
    ensures
        r is Some <==> json_string_bytes(bytes@) is Some,
        r matches Some(s) ==> json_string_bytes(bytes@) == Some(s@),
{
    match serde_json::from_slice::<String>(bytes) {
        Ok(s) => Some(s.into_bytes()),
        Err(_) => None,
    }
}

/// An ASCII decimal digit.
pub open spec fn is_ascii_digit(b: u8) -> bool {
    48 <= b <= 57
}

pub open spec fn digit_val(b: u8) -> int {
    b - 48
}

pub open spec fn all_digits(s: Seq<u8>) -> bool {
    forall|i: int| 0 <= i < s.len() ==> is_ascii_digit(#[trigger] s[i])
}

/// The number a string of decimal digits denotes.
pub open spec fn digits_value(s: Seq<u8>) -> int
    decreases s.len(),
{
    if s.len() == 0 {
        0
    } else {
        digits_value(s.drop_last()) * 10 + digit_val(s.last())
    }
}

/// The digits of a decimal numeral: an optional leading plus sign is
/// accepted, as the standard library's unsigned-integer parser accepts it.
pub open spec fn numeral_digits(s: Seq<u8>) -> Seq<u8> {
    if s.len() > 0 && s[0] == 43 {
        s.subrange(1, s.len() as int)
    } else {
        s
    }
}

/// What a 128-bit decimal parse of UTF-8 bytes `s` yields: the denoted
/// number when `s` is a non-empty digit string (after an optional sign)
/// whose value fits, and nothing otherwise.
pub open spec fn dec_u128_of(s: Seq<u8>) -> Option<u128> {
    let d = numeral_digits(s);
    if d.len() > 0 && all_digits(d) && digits_value(d) <= u128::MAX {
        Some(digits_value(d) as u128)
    } else {
        None
    }
}

proof fn lemma_digits_value_nonneg(s: Seq<u8>)
    requires
        all_digits(s),
    ensures
        digits_value(s) >= 0,
    decreases s.len(),
{
    if s.len() > 0 {
        assert(all_digits(s.drop_last()));
        lemma_digits_value_nonneg(s.drop_last());
    }
}

/// A digit string denotes at least as much as any of its prefixes.
proof fn lemma_digits_value_prefix_le(s: Seq<u8>, k: int)
    requires
        all_digits(s),
        0 <= k <= s.len(),
    ensures
        digits_value(s.take(k)) <= digits_value(s),
    decreases s.len() - k,
{
    if k < s.len() {
        lemma_digits_value_prefix_le(s, k + 1);
        assert(s.take(k + 1).drop_last() =~= s.take(k));
        assert(all_digits(s.take(k)));
        lemma_digits_value_nonneg(s.take(k));
        assert(digits_value(s.take(k + 1)) == digits_value(s.take(k)) * 10 + digit_val(
            s.take(k + 1).last(),
        ));
        assert(digits_value(s.take(k)) * 10 >= digits_value(s.take(k))) by (nonlinear_arith)
            requires
                digits_value(s.take(k)) >= 0,
        ;
    } else {
        assert(s.take(k) =~= s);
    }
}

/// Parses a decimal numeral as the standard library's `u128` parser reads
/// it: an optional leading plus sign, then one or more ASCII digits whose
/// value fits in 128 bits.
pub fn parse_u128_decimal(s: &Vec<u8>) -> (r: Option<u128>)
    ensures
        r == dec_u128_of(s@),
{
    let ghost d = numeral_digits(s@);
    let start: usize = if s.len() > 0 && s[0] == 43u8 {
        1
    } else {
        0
    };
    proof {
        assert(d =~= s@.subrange(start as int, s@.len() as int));
    }
    if start == s.len() {
        return None;
    }
    let mut acc: u128 = 0;
    let mut i: usize = start;
    while i < s.len()
        invariant
            start <= i <= s@.len(),
            d == numeral_digits(s@),
            d == s@.subrange(start as int, s@.len() as int),
            all_digits(d.take(i - start)),
            acc == digits_value(d.take(i - start)),
        decreases s@.len() - i,
    {
        let b = s[i];
        proof {
            assert(d[i - start] == s@[i as int]);
        }
        if b < 48 || b > 57 {
            proof {
                assert(!is_ascii_digit(d[i - start]));
                assert(!all_digits(d));
            }
            return None;
        }
        let digit = (b - 48) as u128;
        proof {
            assert(d.take(i - start + 1).drop_last() =~= d.take(i - start));
            assert(d.take(i - start + 1).last() == d[i - start]);
            assert(all_digits(d.take(i - start + 1)));
        }
        let next = match acc.checked_mul(10) {
            Some(m) => m.checked_add(digit),
            None => None,
        };
        match next {
            Some(n) => {
                acc = n;
            },
            None => {
                proof {
                    // The value so far already exceeds what fits, so the
                    // full numeral's value does too.
                    assert(digits_value(d.take(i - start + 1)) > u128::MAX);
                    if all_digits(d) {
                        lemma_digits_value_prefix_le(d, i - start + 1);
                    }
                }
                return None;
            },
        }
        i += 1;
    }
    proof {
        assert(d.take(i - start) =~= d);
    }
    Some(acc)
}

/// How much of a transferred `amount` the receiver's report `bytes` leaves
/// unused: the reported number capped at `amount`, or nothing when the
/// report cannot be read — an unreadable report counts as fully used.
pub open spec fn unused_of(bytes: Seq<u8>, amount: u128) -> u128 {
    match json_string_bytes(bytes) {
        Option::None => 0,
        Option::Some(s) => match dec_u128_of(s) {
            Option::None => 0,
            Option::Some(u) => if u < amount {
                u
            } else {
                amount
            },
        },
    }
}

/// Reads the receiver's unused-amount report.
pub fn parse_unused_amount(bytes: &Vec<u8>, amount: u128) -> (r: u128)
    ensures
        r == unused_of(bytes@, amount),
        r <= amount,
{
    match decode_json_string(bytes) {
        Option::None => 0,
        Option::Some(s) => match parse_u128_decimal(&s) {
            Option::None => 0,
            Option::Some(u) => if u < amount {
                u
            } else {
                amount
            },
        },
    }
}

} // verus!

//! Operation-level behaviour: authorization, errors, whitelist and
//! withdrawal management, the transfer-with-payload refund protocol.

use reward_ledger::{BurnOutcome, Contract, Error};

const OWNER: u64 = 1;
const VALIDATOR: u64 = 2;
const REWARDER: u64 = 3;
const SCORE_TOKEN: u64 = 10;
const NFT_REGISTRY: u64 = 11;
const TOKEN_A: u64 = 100;
const TOKEN_B: u64 = 101;
const STRANGER: u64 = 9;
const POOL: u64 = 7;

const TGAS: u64 = 1_000_000_000_000;

fn fresh(validator: u64) -> Contract {
    Contract::new(OWNER, validator, SCORE_TOKEN, NFT_REGISTRY, REWARDER, vec![TOKEN_A])
}

fn funded(validator: u64, shares: u128) -> Contract {
    let mut c = fresh(validator);
    c.ft_on_transfer(TOKEN_A, OWNER, 1_000_000, &String::new()).unwrap();
    c.mint(OWNER, shares).unwrap();
    c
}

#[test]
fn test_deposit_rules() {
    let mut c = fresh(VALIDATOR);
    let msg = String::new();
    assert_eq!(c.ft_on_transfer(TOKEN_A, STRANGER, 10, &msg), Err(Error::NotOwner));
    assert_eq!(c.ft_on_transfer(TOKEN_B, OWNER, 10, &msg), Err(Error::TokenNotWhitelisted));
    assert_eq!(c.ft_on_transfer(TOKEN_A, OWNER, 10, &msg), Ok(0));
    assert_eq!(c.ft_on_transfer(TOKEN_A, OWNER, 5, &msg), Ok(0));
    assert_eq!(c.get_deposits(), vec![(TOKEN_A, 15)]);
    assert_eq!(c.ft_on_transfer(TOKEN_A, OWNER, u128::MAX, &msg), Err(Error::Overflow));
    assert_eq!(c.get_deposits(), vec![(TOKEN_A, 15)]);
}

#[test]
fn test_transfer_authorization_and_errors() {
    let mut c = funded(VALIDATOR, 10);
    assert_eq!(c.ft_transfer(VALIDATOR, 0, STRANGER, 1, None), Err(Error::OneYoctoRequired));
    assert_eq!(c.ft_transfer(OWNER, 1, STRANGER, 1, None), Err(Error::NotValidator));
    assert_eq!(c.ft_transfer(VALIDATOR, 1, STRANGER, 0, None), Err(Error::ZeroAmount));
    // The validator holds no entry yet.
    assert_eq!(c.ft_transfer(VALIDATOR, 1, STRANGER, 1, None), Err(Error::NoBalance));
    // Fund the validator through an owner-side transfer-with-payload.
    c.ft_transfer_call(OWNER, 1, 100 * TGAS, VALIDATOR, 6, None, &String::new()).unwrap();
    assert_eq!(c.ft_balance_of(VALIDATOR), 6);
    assert_eq!(c.ft_transfer(VALIDATOR, 1, STRANGER, 7, None), Err(Error::InsufficientFunds));
    assert_eq!(c.ft_transfer(VALIDATOR, 1, STRANGER, 4, None), Ok(()));
    assert_eq!(c.ft_balance_of(STRANGER), 4);
    assert_eq!(c.ft_balance_of(VALIDATOR), 2);
    assert_eq!(c.ft_total_supply(), 10);
    // A self-transfer nets to zero but still needs a covered credit.
    assert_eq!(c.ft_transfer(VALIDATOR, 1, VALIDATOR, 100, None), Ok(()));
    assert_eq!(c.ft_balance_of(VALIDATOR), 2);
}

#[test]
fn test_transfer_call_gates() {
    let mut c = funded(VALIDATOR, 10);
    let msg = String::new();
    assert_eq!(
        c.ft_transfer_call(OWNER, 2, 100 * TGAS, POOL, 5, None, &msg),
        Err(Error::OneYoctoRequired)
    );
    assert_eq!(
        c.ft_transfer_call(OWNER, 1, 60 * TGAS, POOL, 5, None, &msg),
        Err(Error::NotEnoughGas)
    );
    assert_eq!(
        c.ft_transfer_call(STRANGER, 1, 100 * TGAS, POOL, 5, None, &msg),
        Err(Error::NotOwner)
    );
    assert_eq!(
        c.ft_transfer_call(OWNER, 1, 100 * TGAS, POOL, 0, None, &msg),
        Err(Error::ZeroAmount)
    );
    let receiver_gas = c.ft_transfer_call(OWNER, 1, 100 * TGAS, POOL, 5, None, &msg).unwrap();
    assert_eq!(receiver_gas, 40 * TGAS);
    assert_eq!(c.ft_balance_of(POOL), 5);
    assert_eq!(c.ft_balance_of(OWNER), 5);
}

#[test]
fn test_resolve_transfer_refunds_unused() {
    let mut c = funded(VALIDATOR, 10);
    c.ft_transfer_call(OWNER, 1, 100 * TGAS, POOL, 10, None, &String::new()).unwrap();
    // The receiver reports 4 unused; they move back to the sender.
    let rec = c.ft_resolve_transfer(OWNER, POOL, 10, Some(b"\"4\"".to_vec())).unwrap();
    assert_eq!(rec.used, 6);
    assert_eq!(rec.refund, Some(4));
    assert_eq!(c.ft_balance_of(POOL), 6);
    assert_eq!(c.ft_balance_of(OWNER), 4);
    assert_eq!(c.ft_total_supply(), 10);
}

#[test]
fn test_resolve_transfer_report_shapes() {
    // A zero report leaves everything used; an unreadable or failed report
    // conservatively counts as nothing used; a report above the transferred
    // amount is capped; the refund is capped by the receiver's balance.
    let mut c = funded(VALIDATOR, 10);
    c.ft_transfer_call(OWNER, 1, 100 * TGAS, POOL, 10, None, &String::new()).unwrap();

    let rec = c.ft_resolve_transfer(OWNER, POOL, 10, Some(b"\"0\"".to_vec())).unwrap();
    assert_eq!((rec.used, rec.refund), (10, None));
    assert_eq!(c.ft_balance_of(POOL), 10);

    // A successful call whose report cannot be read counts as fully used:
    // no refund is owed on an unreadable claim, and the ledger holds.
    let rec = c.ft_resolve_transfer(OWNER, POOL, 4, Some(b"not json".to_vec())).unwrap();
    assert_eq!((rec.used, rec.refund), (4, None));
    let rec = c.ft_resolve_transfer(OWNER, POOL, 4, Some(b"\"12a\"".to_vec())).unwrap();
    assert_eq!((rec.used, rec.refund), (4, None));
    assert_eq!(c.ft_balance_of(POOL), 10);
    assert_eq!(c.ft_balance_of(OWNER), 0);

    // A failed call counts as nothing used and is reversed in full.
    let rec = c.ft_resolve_transfer(OWNER, POOL, 2, None).unwrap();
    assert_eq!((rec.used, rec.refund), (0, Some(2)));
    assert_eq!(c.ft_balance_of(POOL), 8);

    let rec = c.ft_resolve_transfer(OWNER, POOL, 3, Some(b"\"25\"".to_vec())).unwrap();
    assert_eq!((rec.used, rec.refund), (0, Some(3)));
    assert_eq!(c.ft_balance_of(POOL), 5);

    // Reported unused beyond the receiver's remaining balance refunds only
    // what is left, and the rest counts as used.
    let rec = c.ft_resolve_transfer(OWNER, POOL, 10, Some(b"\"10\"".to_vec())).unwrap();
    assert_eq!((rec.used, rec.refund), (5, Some(5)));
    assert_eq!(c.ft_balance_of(POOL), 0);
    assert_eq!(c.ft_balance_of(OWNER), 10);

    // A receiver that never got an account entry cannot be debited; the
    // refund fails and the ledger holds.
    let mut d = funded(OWNER, 3);
    d.ft_transfer(OWNER, 1, STRANGER, 3, None).unwrap();
    let r = d.ft_resolve_transfer(OWNER, POOL, 2, None);
    assert!(matches!(r, Err(Error::NoBalance)));
}

#[test]
fn test_whitelist_management() {
    let mut c = fresh(VALIDATOR);
    assert_eq!(c.whitelist_add_token(STRANGER, TOKEN_B), Err(Error::NotOwner));
    assert_eq!(c.whitelist_add_token(OWNER, TOKEN_B), Ok(()));
    assert_eq!(c.get_whitelisted_tokens(), vec![TOKEN_A, TOKEN_B]);
    // Duplicates are not prevented; removal takes entries out one at a time.
    assert_eq!(c.whitelist_add_token(OWNER, TOKEN_B), Ok(()));
    assert_eq!(c.whitelist_remove_token(OWNER, TOKEN_B), Ok(()));
    assert_eq!(c.get_whitelisted_tokens(), vec![TOKEN_A, TOKEN_B]);
    assert_eq!(c.whitelist_remove_token(OWNER, TOKEN_B), Ok(()));
    assert_eq!(c.get_whitelisted_tokens(), vec![TOKEN_A]);
    assert_eq!(c.whitelist_remove_token(OWNER, TOKEN_B), Err(Error::UnknownToken));
    assert_eq!(c.whitelist_remove_token(STRANGER, TOKEN_A), Err(Error::NotOwner));
}

#[test]
fn test_withdraw_pending_deposit() {
    let mut c = fresh(VALIDATOR);
    c.ft_on_transfer(TOKEN_A, OWNER, 1_000, &String::new()).unwrap();
    assert_eq!(c.withdraw(STRANGER, TOKEN_A, 1), Err(Error::NotOwner));
    assert_eq!(c.withdraw(OWNER, TOKEN_B, 1), Err(Error::UnknownToken));
    assert_eq!(c.withdraw(OWNER, TOKEN_A, 1_001), Err(Error::InsufficientFunds));
    assert_eq!(c.withdraw(OWNER, TOKEN_A, 400), Ok(()));
    assert_eq!(c.get_deposits(), vec![(TOKEN_A, 600)]);
    assert_eq!(c.withdraw(OWNER, TOKEN_A, 600), Ok(()));
    assert_eq!(c.get_deposits(), vec![(TOKEN_A, 0)]);
}

#[test]
fn test_withdraw_reward_deletes_empty_entry() {
    let mut c = funded(VALIDATOR, 1);
    assert_eq!(c.withdraw_reward(STRANGER, TOKEN_A, 1), Err(Error::NotOwner));
    assert_eq!(c.withdraw_reward(OWNER, TOKEN_A, 0), Err(Error::ZeroAmount));
    assert_eq!(c.withdraw_reward(OWNER, TOKEN_B, 1), Err(Error::UnknownToken));
    assert_eq!(c.withdraw_reward(OWNER, TOKEN_A, 2_000_000), Err(Error::InsufficientFunds));
    assert_eq!(c.withdraw_reward(OWNER, TOKEN_A, 400_000), Ok(()));
    assert_eq!(c.get_undistributed_rewards(), vec![(TOKEN_A, 600_000)]);
    assert_eq!(c.withdraw_reward(OWNER, TOKEN_A, 600_000), Ok(()));
    assert_eq!(c.get_undistributed_rewards(), vec![]);
}

#[test]
fn test_remove_reward_returns_amount() {
    let mut c = funded(VALIDATOR, 1);
    assert_eq!(c.remove_reward(STRANGER, TOKEN_A), Err(Error::NotOwner));
    assert_eq!(c.remove_reward(OWNER, TOKEN_B), Err(Error::UnknownToken));
    assert_eq!(c.remove_reward(OWNER, TOKEN_A), Ok(1_000_000));
    assert_eq!(c.get_undistributed_rewards(), vec![]);
    // An entry drained to zero by a full burn cannot be removed.
    let mut d = funded(VALIDATOR, 1);
    d.burn(OWNER, 1, 20 * TGAS).unwrap();
    assert_eq!(d.get_undistributed_rewards(), vec![(TOKEN_A, 0)]);
    assert_eq!(d.remove_reward(OWNER, TOKEN_A), Err(Error::ZeroReward));
}

#[test]
fn test_burn_entry_gates() {
    let mut c = funded(VALIDATOR, 1);
    assert!(matches!(c.burn(OWNER, 0, 20 * TGAS), Err(Error::OneYoctoRequired)));
    assert!(matches!(c.burn(OWNER, 2, 20 * TGAS), Err(Error::OneYoctoRequired)));
    assert!(matches!(c.burn(STRANGER, 1, 20 * TGAS), Err(Error::NoBalance)));
    assert_eq!(c.ft_total_supply(), 1);
}

#[test]
fn test_mint_share_overflow_is_refused() {
    let mut c = funded(VALIDATOR, 10);
    c.ft_on_transfer(TOKEN_A, OWNER, 5, &String::new()).unwrap();
    assert_eq!(c.mint(OWNER, u128::MAX), Err(Error::Overflow));
    assert_eq!(c.ft_total_supply(), 10);
    assert_eq!(c.get_deposits(), vec![(TOKEN_A, 5)]);
}

#[test]
fn test_score_overflow_rolls_burn_back() {
    // A score of three times the payout can exceed the 128-bit range; the
    // whole burn is then rolled back.
    let mut c = Contract::new(OWNER, OWNER, TOKEN_A, NFT_REGISTRY, REWARDER, vec![TOKEN_A]);
    c.ft_on_transfer(TOKEN_A, OWNER, u128::MAX, &String::new()).unwrap();
    c.mint(OWNER, 3).unwrap();
    c.ft_transfer(OWNER, 1, STRANGER, 2, None).unwrap();
    let removed = match c.burn(STRANGER, 1, 20 * TGAS).unwrap() {
        BurnOutcome::AwaitNftCheck { removed } => removed,
        BurnOutcome::Done(_) => panic!("a non-owner burn must go through the badge check"),
    };
    let r = c.on_burn(STRANGER, removed, Some((42, 0)));
    assert!(matches!(r, Err(Error::Overflow)));
    assert_eq!(c.pending_burns, 2);
    assert_eq!(c.ft_total_supply(), 3);
    // Without a badge no score is due, so the continuation can be retried
    // and goes through (a penalty of 2 / 5 rounds to zero).
    let receipt = c.on_burn(STRANGER, removed, None).unwrap();
    assert_eq!(receipt.penalty, 0);
    assert_eq!(receipt.burned, 2);
    assert_eq!(c.pending_burns, 0);
    assert_eq!(c.ft_total_supply(), 1);
}

#[test]
fn test_migrate_restores_conservation() {
    // A historical fault left the owner's recorded balance above the share
    // total; the one-shot patch burns the difference back off the books.
    let mut c = fresh(VALIDATOR);
    c.accounts = vec![(OWNER, 15)];
    c.shares = 10;
    let (before, after) = c.migrate(5);
    assert_eq!((before, after), (15, 10));
    assert_eq!(c.ft_balance_of(OWNER), 10);
    assert_eq!(c.ft_total_supply(), 10);
}

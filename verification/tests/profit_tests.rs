use earn_vault::accrual::{calculate_aterra_profit, calculate_profit};
use earn_vault::errors::VaultError;
use earn_vault::fixed::FixedDecimal;
use earn_vault::ledger::AccountId;
use earn_vault::vault::{Vault, INITIAL_DEPOSIT_AMOUNT};

const OWNER: AccountId = AccountId(1);
const CONTRACT: AccountId = AccountId(2);
const DANIEL: AccountId = AccountId(21);
const BRUNO: AccountId = AccountId(22);

fn fresh_vault() -> Vault {
    let mut vault = Vault::instantiate(
        CONTRACT,
        OWNER,
        "uusd".to_string(),
        "100".to_string(),
        INITIAL_DEPOSIT_AMOUNT,
    )
    .unwrap();
    vault
        .register_contracts(
            OWNER,
            AccountId(3),
            AccountId(4),
            AccountId(5),
            AccountId(6),
            AccountId(7),
            AccountId(8),
        )
        .unwrap();
    vault
}

#[test]
fn proper_calculate_fees() {}

#[test]
fn proper_calculate_profit() {}

#[test]
fn proper_transfer_capacorp() {}

#[test]
fn proper_query_all_accounts() {}

#[test]
fn not_authorized_distribute() {
    let mut vault = fresh_vault();
    vault
        .deposit(
            AccountId(10),
            55_555_555_000_000,
            FixedDecimal::one(),
            FixedDecimal::zero(),
            0,
        )
        .unwrap();
    let stakeholders = vec![(DANIEL, 0u128), (BRUNO, 0u128)];
    let res = vault.distribute(
        AccountId(10),
        INITIAL_DEPOSIT_AMOUNT,
        FixedDecimal::one(),
        55_555_555_000_000,
        &stakeholders,
    );
    assert_eq!(res.unwrap_err(), VaultError::Authorization);
    assert_eq!(vault.total_profit, 0);
}

#[test]
fn too_little_profit_distribute() {
    let mut vault = fresh_vault();
    vault
        .deposit(
            OWNER,
            55_555_555_000_000,
            FixedDecimal::one(),
            FixedDecimal::zero(),
            0,
        )
        .unwrap();
    // the vault's holdings exactly match its liability: profit is zero
    let stakeholders = vec![(DANIEL, 0u128), (BRUNO, 0u128)];
    let res = vault.distribute(
        OWNER,
        0,
        FixedDecimal::one(),
        55_555_555_000_000,
        &stakeholders,
    );
    assert_eq!(res.unwrap_err(), VaultError::BelowThreshold);
    assert_eq!(vault.total_profit, 0);
}

#[test]
fn proper_distribute() {
    let mut vault = fresh_vault();
    vault
        .deposit(
            OWNER,
            55_555_555_000_000,
            FixedDecimal::one(),
            FixedDecimal::zero(),
            0,
        )
        .unwrap();
    let stakeholders = vec![(DANIEL, 0u128), (BRUNO, 0u128)];
    let outcome = vault
        .distribute(
            OWNER,
            100_555_555_000_000,
            FixedDecimal::one(),
            10_555_555_000_000,
            &stakeholders,
        )
        .unwrap();
    // profit is 90_000_000_000_000; 3% goes to insurance
    assert_eq!(outcome.insurance_amount, 2_700_000_000_000);
    assert_eq!(outcome.distributed, 87_300_000_000_000);
    assert_eq!(outcome.shares, vec![(DANIEL, 0), (BRUNO, 0)]);
    assert_eq!(vault.total_profit, 87_300_000_000_000);
}

#[test]
fn distribute_pays_weighted_shares() {
    let mut vault = fresh_vault();
    let stakeholders = vec![(DANIEL, 60_000u128), (BRUNO, 40_000u128)];
    let outcome = vault
        .distribute(
            OWNER,
            100_000_000_000,
            FixedDecimal::one(),
            0,
            &stakeholders,
        )
        .unwrap();
    // profit 100_000_000_000, insurance 3_000_000_000, distributable 97e9
    assert_eq!(outcome.insurance_amount, 3_000_000_000);
    assert_eq!(outcome.distributed, 97_000_000_000);
    // shares are the distributable profit at 60% and 40%
    assert_eq!(
        outcome.shares,
        vec![(DANIEL, 58_200_000_000), (BRUNO, 38_800_000_000)]
    );
    let paid: u128 = outcome.insurance_amount
        + outcome.shares.iter().map(|s| s.1).sum::<u128>();
    assert!(paid <= 100_000_000_000);
}

#[test]
fn distribute_twice_without_profit_growth() {
    let mut vault = fresh_vault();
    let stakeholders = vec![(DANIEL, 60_000u128), (BRUNO, 40_000u128)];
    let balance: u128 = 100_000_000_000;
    let outcome = vault
        .distribute(OWNER, balance, FixedDecimal::one(), 0, &stakeholders)
        .unwrap();
    let profit_after_first = vault.total_profit;
    // the payouts leave the vault; nothing else changes
    let paid: u128 = outcome.insurance_amount
        + outcome.shares.iter().map(|s| s.1).sum::<u128>();
    let balance2 = balance - paid;
    let res = vault.distribute(OWNER, balance2, FixedDecimal::one(), 0, &stakeholders);
    assert_eq!(res.unwrap_err(), VaultError::BelowThreshold);
    assert_eq!(vault.total_profit, profit_after_first);
}

#[test]
fn profit_is_value_minus_liability() {
    // at base rate 1 the vault rate is exactly 1, so the profit is the plain
    // difference of holdings and supply
    assert_eq!(
        calculate_profit(100_555_555_000_000, FixedDecimal::one(), 10_555_555_000_000)
            .unwrap(),
        90_000_000_000_000
    );
    assert_eq!(
        calculate_profit(5, FixedDecimal::one(), 7).unwrap(),
        0
    );
    assert_eq!(
        calculate_aterra_profit(100_555_555_000_000, FixedDecimal::one(), 10_555_555_000_000)
            .unwrap(),
        90_000_000_000_000
    );
}

use earn_vault::errors::VaultError;
use earn_vault::fixed::FixedDecimal;
use earn_vault::ledger::AccountId;
use earn_vault::tax::{compute_tax, deduct_tax};
use earn_vault::vault::{Vault, INITIAL_DEPOSIT_AMOUNT};

const OWNER: AccountId = AccountId(1);
const CONTRACT: AccountId = AccountId(2);
const DEPOSITOR: AccountId = AccountId(10);

fn fresh_vault() -> Vault {
    let mut vault = Vault::instantiate(
        CONTRACT,
        OWNER,
        "uusd".to_string(),
        "100".to_string(),
        INITIAL_DEPOSIT_AMOUNT,
    )
    .unwrap();
    vault
        .register_contracts(
            OWNER,
            AccountId(3),
            AccountId(4),
            AccountId(5),
            AccountId(6),
            AccountId(7),
            AccountId(8),
        )
        .unwrap();
    vault
}

fn no_tax() -> (FixedDecimal, u128) {
    (FixedDecimal::zero(), 0)
}

#[test]
fn instantiate_with_wrong_initial_amount() {
    let res = Vault::instantiate(
        CONTRACT,
        OWNER,
        "uusd".to_string(),
        "100".to_string(),
        INITIAL_DEPOSIT_AMOUNT / 2,
    );
    assert_eq!(res.unwrap_err(), VaultError::Validation);
}

#[test]
fn register_contract_with_wrong_owner() {
    let mut vault = Vault::instantiate(
        CONTRACT,
        OWNER,
        "uusd".to_string(),
        "100".to_string(),
        INITIAL_DEPOSIT_AMOUNT,
    )
    .unwrap();
    let new_owner = AccountId(99);
    let res = vault.register_contracts(
        new_owner,
        AccountId(3),
        AccountId(4),
        AccountId(5),
        AccountId(6),
        AccountId(7),
        AccountId(8),
    );
    assert_eq!(res.unwrap_err(), VaultError::Authorization);
}

#[test]
fn too_small_deposit() {
    let mut vault = fresh_vault();
    let (tax_rate, tax_cap) = no_tax();
    let res = vault.deposit(DEPOSITOR, 0, FixedDecimal::one(), tax_rate, tax_cap);
    assert_eq!(res.unwrap_err(), VaultError::BelowThreshold);
    assert_eq!(vault.ledger.read_total_deposit(DEPOSITOR), 0);
}

#[test]
fn proper_deposit() {
    let mut vault = fresh_vault();
    let (tax_rate, tax_cap) = no_tax();
    let receipt = vault
        .deposit(
            DEPOSITOR,
            55_555_555_000_000,
            FixedDecimal::one(),
            tax_rate,
            tax_cap,
        )
        .unwrap();
    assert_eq!(receipt.mint_amount, 55_555_555_000_000);
    assert_eq!(receipt.deposit_amount, 55_555_555_000_000);
    assert_eq!(vault.ledger.read_total_deposit(DEPOSITOR), 55_555_555_000_000);
}

#[test]
fn withdraw_too_much() {
    let mut vault = fresh_vault();
    let (tax_rate, tax_cap) = no_tax();
    vault
        .deposit(
            DEPOSITOR,
            55_555_555_000_000,
            FixedDecimal::one(),
            tax_rate,
            tax_cap,
        )
        .unwrap();
    let res = vault.redeem_stable(
        DEPOSITOR,
        55_555_555_000_000,
        FixedDecimal::one(),
        tax_rate,
        tax_cap,
        55_555_554_750_000,
        55_555_555_000_000,
    );
    assert_eq!(res.unwrap_err(), VaultError::InsufficientFunds);
    // the failed call changed nothing
    assert_eq!(vault.ledger.read_total_deposit(DEPOSITOR), 55_555_555_000_000);
}

#[test]
fn withdraw_too_little() {
    let mut vault = fresh_vault();
    let (tax_rate, tax_cap) = no_tax();
    vault
        .deposit(
            DEPOSITOR,
            55_555_555_000_000,
            FixedDecimal::one(),
            tax_rate,
            tax_cap,
        )
        .unwrap();
    let res = vault.redeem_stable(
        DEPOSITOR,
        0,
        FixedDecimal::one(),
        tax_rate,
        tax_cap,
        55_555_554_750_000,
        55_555_555_000_000,
    );
    assert_eq!(res.unwrap_err(), VaultError::BelowThreshold);
}

#[test]
fn proper_withdraw() {
    let mut vault = fresh_vault();
    let (tax_rate, tax_cap) = no_tax();
    vault
        .deposit(
            DEPOSITOR,
            55_555_555_000_000,
            FixedDecimal::one(),
            tax_rate,
            tax_cap,
        )
        .unwrap();
    let receipt = vault
        .redeem_stable(
            DEPOSITOR,
            55_555_554_750_000,
            FixedDecimal::one(),
            tax_rate,
            tax_cap,
            55_555_554_750_000,
            55_555_555_000_000,
        )
        .unwrap();
    assert_eq!(receipt.burn_amount, 55_555_554_750_000);
    assert_eq!(receipt.aust_burn_amount, 55_555_554_750_000);
    assert_eq!(receipt.withdraw_amount, 55_555_554_750_000);
    assert_eq!(vault.ledger.read_total_deposit(DEPOSITOR), 250_000);
}

#[test]
fn test_update_config() {
    let mut vault = fresh_vault();
    let owner2 = AccountId(42);
    // a stranger may not change the owner
    let res = vault.update_config(AccountId(77), Some(owner2));
    assert_eq!(res.unwrap_err(), VaultError::Authorization);
    assert_eq!(vault.config.owner_addr, OWNER);
    // the owner may
    vault.update_config(OWNER, Some(owner2)).unwrap();
    assert_eq!(vault.config.owner_addr, owner2);
}

#[test]
fn deposit_just_above_threshold() {
    let mut vault = fresh_vault();
    let (tax_rate, tax_cap) = no_tax();
    let res = vault.deposit(DEPOSITOR, 1_000_000, FixedDecimal::one(), tax_rate, tax_cap);
    assert_eq!(res.unwrap_err(), VaultError::BelowThreshold);
    let receipt = vault
        .deposit(DEPOSITOR, 1_000_001, FixedDecimal::one(), tax_rate, tax_cap)
        .unwrap();
    assert_eq!(receipt.mint_amount, 1_000_001);
}

#[test]
fn tax_formula_and_cap() {
    // a 100% tax rate halves the amount, until the cap bites
    let rate = FixedDecimal::one();
    assert_eq!(compute_tax(1_000_000, rate, 900_000).unwrap(), 500_000);
    assert_eq!(compute_tax(1_000_000, rate, 300_000).unwrap(), 300_000);
    assert_eq!(deduct_tax(1_000_000, rate, 300_000).unwrap(), 700_000);
    // a zero rate deducts nothing
    assert_eq!(deduct_tax(1_000_000, FixedDecimal::zero(), 300_000).unwrap(), 1_000_000);
}

#[test]
fn harvested_sum_never_decreases() {
    // a deposit, a profitable redemption at a higher rate, another deposit
    // and another redemption: the claimed total only ever grows
    let mut vault = fresh_vault();
    let (tax_rate, tax_cap) = no_tax();
    let mut sums: Vec<u128> = vec![vault.query_harvested_sum(DEPOSITOR)];
    vault
        .deposit(DEPOSITOR, 10_000_000_000, FixedDecimal::one(), tax_rate, tax_cap)
        .unwrap();
    sums.push(vault.query_harvested_sum(DEPOSITOR));
    // the base rate has grown; the position is worth more than its baseline
    let later_rate = FixedDecimal::from_ratio(13, 10);
    vault
        .redeem_stable(
            DEPOSITOR,
            2_000_000_000,
            later_rate,
            tax_rate,
            tax_cap,
            100_000_000_000,
            10_000_000_000,
        )
        .unwrap();
    sums.push(vault.query_harvested_sum(DEPOSITOR));
    vault
        .deposit(DEPOSITOR, 5_000_000_000, later_rate, tax_rate, tax_cap)
        .unwrap();
    sums.push(vault.query_harvested_sum(DEPOSITOR));
    vault
        .redeem_stable(
            DEPOSITOR,
            1_000_000_000,
            later_rate,
            tax_rate,
            tax_cap,
            100_000_000_000,
            11_000_000_000,
        )
        .unwrap();
    sums.push(vault.query_harvested_sum(DEPOSITOR));
    for w in sums.windows(2) {
        assert!(w[0] <= w[1], "harvested sum decreased: {:?}", sums);
    }
    assert!(*sums.last().unwrap() > 0);
}

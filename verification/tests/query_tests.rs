use earn_vault::errors::VaultError;
use earn_vault::fixed::FixedDecimal;
use earn_vault::ledger::AccountId;
use earn_vault::manager::Manager;
use earn_vault::msg::DashboardResponse;
use earn_vault::vault::{Vault, INITIAL_DEPOSIT_AMOUNT};

const OWNER: AccountId = AccountId(1);
const CONTRACT: AccountId = AccountId(2);

fn fresh_vault() -> Vault {
    let mut vault = Vault::instantiate(
        CONTRACT,
        OWNER,
        "uusd".to_string(),
        "100".to_string(),
        INITIAL_DEPOSIT_AMOUNT,
    )
    .unwrap();
    vault
        .register_contracts(
            OWNER,
            AccountId(3),
            AccountId(4),
            AccountId(5),
            AccountId(6),
            AccountId(7),
            AccountId(8),
        )
        .unwrap();
    vault
}

#[test]
fn test_query_dashboard() {
    let vault = fresh_vault();
    // nothing held and nothing outstanding: everything is zero but the
    // account count
    let empty = vault
        .query_dashboard(0, FixedDecimal::one(), 0, 2)
        .unwrap();
    assert_eq!(
        empty,
        DashboardResponse {
            total_value_locked: 0,
            cust_total_supply: 0,
            cust_nb_accounts: 2,
            cust_avg_balance: 0,
            current_profit: 0,
            total_profit: 0,
        }
    );
    // the vault holds the initial funding; two thirds of it is owed back
    let busy = vault
        .query_dashboard(
            INITIAL_DEPOSIT_AMOUNT,
            FixedDecimal::one(),
            2 * INITIAL_DEPOSIT_AMOUNT / 3,
            2,
        )
        .unwrap();
    assert_eq!(
        busy,
        DashboardResponse {
            total_value_locked: INITIAL_DEPOSIT_AMOUNT,
            cust_total_supply: 2 * INITIAL_DEPOSIT_AMOUNT / 3,
            cust_nb_accounts: 2,
            cust_avg_balance: 33_333_333,
            current_profit: 33_333_334,
            total_profit: 0,
        }
    );
}

#[test]
fn test_query_config() {
    let vault = fresh_vault();
    assert_eq!(vault.config.owner_addr, OWNER);
    assert_eq!(vault.config.contract_addr, CONTRACT);
    assert_eq!(vault.config.market_contract, Some(AccountId(3)));
    assert_eq!(vault.config.aterra_contract, Some(AccountId(4)));
    assert_eq!(vault.config.cterra_contract, Some(AccountId(5)));
    assert_eq!(vault.config.capacorp_contract, Some(AccountId(6)));
    assert_eq!(vault.config.capa_contract, Some(AccountId(7)));
    assert_eq!(vault.config.insurance_contract, Some(AccountId(8)));
    assert_eq!(vault.config.stable_denom, "uusd");
    assert_eq!(vault.config.capa_yield, "100");
}

#[test]
fn test_query_availableharvest() {
    let vault = fresh_vault();
    // an account with no receipt tokens has nothing to harvest
    let r = vault
        .query_harvest_value(AccountId(10), 0, FixedDecimal::one())
        .unwrap();
    assert_eq!(r, 0);
}

#[test]
fn test_query_harvestedsum() {
    let vault = fresh_vault();
    assert_eq!(vault.query_harvested_sum(AccountId(10)), 0);
}

#[test]
fn harvest_value_reflects_gain() {
    let mut vault = fresh_vault();
    vault
        .deposit(
            AccountId(10),
            10_000_000_000,
            FixedDecimal::one(),
            FixedDecimal::zero(),
            0,
        )
        .unwrap();
    // at an unchanged rate the position is worth its baseline: no harvest
    let flat = vault
        .query_harvest_value(AccountId(10), 10_000_000_000, FixedDecimal::one())
        .unwrap();
    assert_eq!(flat, 0);
    // at a higher base rate the derived vault rate grows, and with it the
    // position's value over its baseline
    let grown = vault
        .query_harvest_value(
            AccountId(10),
            10_000_000_000,
            FixedDecimal::from_ratio(13, 10),
        )
        .unwrap();
    assert!(grown > 0);
}

#[test]
fn manager_registration_and_yields() {
    let mut manager = Manager::instantiate(
        CONTRACT,
        OWNER,
        "uusd".to_string(),
        100_000_000,
    )
    .unwrap();
    // a stranger may not register
    let res = manager.register_contracts(AccountId(50), AccountId(60), AccountId(61));
    assert_eq!(res.unwrap_err(), VaultError::Authorization);
    manager
        .register_contracts(OWNER, AccountId(60), AccountId(61))
        .unwrap();
    // and registration happens only once
    let res = manager.register_contracts(OWNER, AccountId(60), AccountId(61));
    assert_eq!(res.unwrap_err(), VaultError::Authorization);
    // per-account yields: stored, overwritten, defaulted, listed in order
    assert_eq!(manager.yields.read_yield_user(AccountId(70)), 0);
    manager.yields.store_yield_user(AccountId(70), 11);
    manager.yields.store_yield_user(AccountId(71), 20);
    manager.yields.store_yield_user(AccountId(70), 15);
    assert_eq!(manager.yields.read_yield_user(AccountId(70)), 15);
    assert_eq!(manager.yields.read_yield_user(AccountId(71)), 20);
    assert_eq!(
        manager.yields.get_all_custom_yield_users(),
        vec![AccountId(70), AccountId(71)]
    );
}

//! The vault's message and response types.
//!
//! These are the values the operation surface speaks: instantiation
//! parameters, the hook messages exchanged with the money market and the
//! receipt token, the query surface, and the query responses. Amounts are
//! plain integers in micro-units; rates are fixed-point decimals.

use vstd::prelude::*;
use crate::fixed::FixedDecimal;

verus! {

/// Parameters a vault starts from.
#[derive(Clone, Debug, PartialEq, Eq)]
pub struct InstantiateMsg {
    /// Owner address for config updates.
    pub owner_addr: String,
    /// Stable coin denomination used to deposit and redeem.
    pub stable_denom: String,
    /// The configured yield parameter of this deployment.
    pub capa_yield: String,
}

/// The message the vault sends the money market along with a deposit.
#[derive(Clone, Debug, PartialEq, Eq, Structural)]
pub enum DepositStableHandleMsg {
    /// Deposit the attached stable funds.
    DepositStable {},
}

/// The hook message a receipt-token transfer carries to trigger redemption.
#[derive(Clone, Debug, PartialEq, Eq, Structural)]
pub enum RedeemStableHookMsg {
    /// Redeem the sent receipt tokens for stable asset.
    RedeemStable {},
}

/// The vault's query surface.
#[derive(Clone, Debug, PartialEq, Eq)]
pub enum QueryMsg {
    /// The current configuration.
    Config {},
    /// The current derived vault exchange rate.
    ExchangeRate {},
    /// The aggregate dashboard numbers.
    Dashboard {},
    /// The stakeholder registry's accounts.
    CorpAccounts {},
    /// The profit an account could harvest now.
    AvailableHarvest { account_addr: String },
    /// The cumulative profit an account has harvested.
    HarvestedSum { account_addr: String },
    /// A token balance of an account.
    QueryToken { contract_addr: String, account_addr: String },
    /// A receipt token's total supply.
    QueryCustSupply { contract_addr: String },
    /// The current yield parameter's derived rate.
    QueryCapapultRate {},
}

/// The query the vault sends the money market.
#[derive(Clone, Debug, PartialEq, Eq, Structural)]
pub enum QueryStateMsg {
    /// The market's current state.
    State {},
}

/// The query the vault sends a token contract for its account list.
#[derive(Clone, Debug, PartialEq, Eq, Structural)]
pub enum Account {
    /// Every account holding the token.
    AllAccounts {},
}

/// The configuration a `Config {}` query reports.
#[derive(Clone, Debug, PartialEq, Eq)]
pub struct ConfigResponse {
    pub owner_addr: String,
    pub market_contract: String,
    pub aterra_contract: String,
    pub cterra_contract: String,
    pub capacorp_contract: String,
    pub capa_contract: String,
    pub insurance_contract: String,
    pub stable_denom: String,
    pub capa_yield: String,
}

/// The money market's state, as its `State {}` query reports it.
#[derive(Clone, Copy, Debug, PartialEq, Eq, Structural)]
pub struct MarketStateResponse {
    pub total_liabilities: FixedDecimal,
    pub total_reserves: FixedDecimal,
    pub last_interest_updated: u64,
    pub last_reward_updated: u64,
    pub global_interest_index: FixedDecimal,
    pub global_reward_index: FixedDecimal,
    pub anc_emission_rate: FixedDecimal,
    pub prev_aterra_supply: u128,
    pub prev_exchange_rate: FixedDecimal,
}

/// The aggregate numbers a `Dashboard {}` query reports.
#[derive(Clone, Copy, Debug, PartialEq, Eq, Structural)]
pub struct DashboardResponse {
    /// The vault's holdings valued at the base rate.
    pub total_value_locked: u128,
    /// Outstanding receipt-token supply.
    pub cust_total_supply: u128,
    /// How many accounts hold receipt tokens.
    pub cust_nb_accounts: u128,
    /// Average receipt-token balance per account.
    pub cust_avg_balance: u128,
    /// Profit accrued and not yet distributed.
    pub current_profit: u128,
    /// Lifetime profit already distributed.
    pub total_profit: u128,
}

/// Migrations take no arguments.
#[derive(Clone, Copy, Debug, PartialEq, Eq, Structural)]
pub struct MigrateMsg {}

} // verus!

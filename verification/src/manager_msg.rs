//! The manager's message and response types.
//!
//! The manager routes callers to the earn deployment matching a requested
//! yield parameter; its surface is a small subset of the vault's.

use vstd::prelude::*;

verus! {

/// Parameters a manager starts from.
#[derive(Clone, Debug, PartialEq, Eq)]
pub struct InstantiateMsg {
    /// Owner address for config updates.
    pub owner_addr: String,
    /// Stable coin denomination used to deposit and redeem.
    pub stable_denom: String,
}

/// The manager's query surface.
#[derive(Clone, Debug, PartialEq, Eq)]
pub enum QueryMsg {
    /// The deployment serving a yield parameter.
    QueryContract { capa_yield: String },
}

/// The query the manager sends the money market.
#[derive(Clone, Debug, PartialEq, Eq, Structural)]
pub enum QueryStateMsg {
    /// The market's current state.
    State {},
}

/// The query the manager sends a token contract for its account list.
#[derive(Clone, Debug, PartialEq, Eq, Structural)]
pub enum Account {
    /// Every account holding the token.
    AllAccounts {},
}

/// The configuration a manager reports.
#[derive(Clone, Debug, PartialEq, Eq)]
pub struct ConfigResponse {
    pub owner_addr: String,
    pub market_contract: String,
    pub aterra_contract: String,
    pub cterra_contract: String,
    pub capacorp_contract: String,
    pub capa_contract: String,
    pub insurance_contract: String,
    pub stable_denom: String,
}

/// Migrations take no arguments.
#[derive(Clone, Copy, Debug, PartialEq, Eq, Structural)]
pub struct MigrateMsg {}

} // verus!

//! The vault: configuration, the deposit ledger's operations, and profit
//! distribution.
//!
//! Every operation here is pure bookkeeping over plain inputs: the observed
//! base rate, tax parameters and token balances arrive as arguments, and the
//! outward effects (mints, burns, transfers) are returned as receipt values
//! for the caller to carry out. An operation that returns an error has
//! changed no state.

use vstd::prelude::*;
use crate::accrual::{
    calculate_aterra_profit, profit_aterra_opt, profit_ust_opt, spec_share,
    stakeholder_share, INSURANCE_RATE_RAW,
};
use crate::curve::{vault_rate_opt, ExchangeRate, B_RAW};
use crate::errors::VaultError;
use crate::fixed::{amount_over_rate, amount_times_rate, fdiv, fmul, FixedDecimal, SCALE};
use crate::ledger::{record_or_default, AccountId, AccountRecord, Ledger};
use crate::math::{lemma_fmul_le_first, lemma_fmul_nonneg};
use crate::msg::DashboardResponse;
use crate::tax::{compute_tax, deduct_tax, spec_compute_tax, spec_deduct_tax, tax_ok};
use crate::wide::{u128_bound, WORD};

verus! {

/// One micro-unit short of the smallest accepted transfer: deposits and
/// withdrawals must exceed one whole unit of the six-decimal stable asset.
pub const MIN_TRANSFER: u128 = 1_000_000;

/// The exact initial funding a vault must be created with.
pub const INITIAL_DEPOSIT_AMOUNT: u128 = 100_000_000;

/// The least distributable profit worth paying out: 0.1 unit of the stable
/// asset.
pub const PROFIT_FLOOR: u128 = 100_000;

/// The vault's configuration. Collaborator contracts are unset until the
/// one-time registration call fills them all.
#[derive(Clone, Debug, PartialEq, Eq)]
pub struct Config {
    /// The vault's own account.
    pub contract_addr: AccountId,
    /// Who may update the configuration and distribute profit.
    pub owner_addr: AccountId,
    /// The money market the stable asset is lent to.
    pub market_contract: Option<AccountId>,
    /// The money market's receipt token the vault holds.
    pub aterra_contract: Option<AccountId>,
    /// The vault's own receipt token.
    pub cterra_contract: Option<AccountId>,
    /// The equity-holder registry.
    pub capacorp_contract: Option<AccountId>,
    /// The governance token.
    pub capa_contract: Option<AccountId>,
    /// Where the insurance set-aside goes.
    pub insurance_contract: Option<AccountId>,
    /// The stable asset's denomination.
    pub stable_denom: String,
    /// The configured yield parameter of this deployment.
    pub capa_yield: String,
}

impl Config {
    /// Whether the one-time contract registration has happened.
    pub open spec fn registered(&self) -> bool {
        &&& self.market_contract is Some
        &&& self.aterra_contract is Some
        &&& self.cterra_contract is Some
        &&& self.capacorp_contract is Some
        &&& self.capa_contract is Some
        &&& self.insurance_contract is Some
    }
}

/// What a deposit did: how many receipt tokens to mint and what net amount
/// entered the vault.
#[derive(Clone, Copy, Debug, PartialEq, Eq, Structural)]
pub struct DepositReceipt {
    /// Receipt tokens to mint to the depositor.
    pub mint_amount: u128,
    /// The net amount deposited, after tax.
    pub deposit_amount: u128,
}

/// What a redemption did: the tokens to burn on each side and the net payout.
#[derive(Clone, Copy, Debug, PartialEq, Eq, Structural)]
pub struct RedeemReceipt {
    /// Receipt tokens burned.
    pub burn_amount: u128,
    /// Underlying-asset tokens redeemed from the money market.
    pub aust_burn_amount: u128,
    /// Stable asset paid to the user, net of both tax legs.
    pub withdraw_amount: u128,
}

/// What a distribution did: the insurance set-aside and each stakeholder's
/// share, in underlying-asset units.
#[derive(Clone, Debug, PartialEq, Eq)]
pub struct DistributionOutcome {
    /// The insurance recipient's set-aside.
    pub insurance_amount: u128,
    /// Each stakeholder's share, in registry order.
    pub shares: Vec<(AccountId, u128)>,
    /// The distributable profit paid out and added to the lifetime counter.
    pub distributed: u128,
}

/// The vault's whole state: configuration, per-account ledger, and the
/// lifetime profit counter.
#[derive(Debug)]
pub struct Vault {
    /// The configuration set at instantiation and registration.
    pub config: Config,
    /// Per-account principal, claims and baselines.
    pub ledger: Ledger,
    /// Lifetime profit distributed; never decreases.
    pub total_profit: u128,
}

impl Vault {
    /// Well-formedness: the ledger's keys are unique.
    pub open spec fn wf(&self) -> bool {
        self.ledger.wf()
    }

    /// Creates a vault. The initial funding must be exactly
    /// `INITIAL_DEPOSIT_AMOUNT`; collaborator contracts start unset, the
    /// ledger empty, and the profit counter at zero.
    pub fn instantiate(
        contract_addr: AccountId,
        owner_addr: AccountId,
        stable_denom: String,
        capa_yield: String,
        initial_deposit: u128,
    ) -> (r: Result<Vault, VaultError>)
        ensures
            initial_deposit != INITIAL_DEPOSIT_AMOUNT ==> r == Err::<
                Vault,
                VaultError,
            >(VaultError::Validation),
            initial_deposit == INITIAL_DEPOSIT_AMOUNT ==> (r matches Ok(v) && {
                &&& v.wf()
                &&& v.config.contract_addr == contract_addr
                &&& v.config.owner_addr == owner_addr
                &&& !v.config.registered()
                &&& v.config.stable_denom == stable_denom
                &&& v.config.capa_yield == capa_yield
                &&& v.ledger@ == Map::<AccountId, AccountRecord>::empty()
                &&& v.total_profit == 0
            }),
    {
        if initial_deposit != INITIAL_DEPOSIT_AMOUNT {
            return Err(VaultError::Validation);
        }
        Ok(
            Vault {
                config: Config {
                    contract_addr,
                    owner_addr,
                    market_contract: None,
                    aterra_contract: None,
                    cterra_contract: None,
                    capacorp_contract: None,
                    capa_contract: None,
                    insurance_contract: None,
                    stable_denom,
                    capa_yield,
                },
                ledger: Ledger::new(),
                total_profit: 0,
            },
        )
    }

    /// Fills in the collaborator contracts, once. Only the owner may do it,
    /// and only while every slot is still unset.
    pub fn register_contracts(
        &mut self,
        sender: AccountId,
        market_contract: AccountId,
        aterra_contract: AccountId,
        cterra_contract: AccountId,
        capacorp_contract: AccountId,
        capa_contract: AccountId,
        insurance_contract: AccountId,
    ) -> (r: Result<(), VaultError>)
        requires
            old(self).wf(),
        ensures
            final(self).wf(),
            final(self).ledger@ == old(self).ledger@,
            final(self).total_profit == old(self).total_profit,
            old(self).config.registered() || old(self).config.market_contract is Some
                || old(self).config.aterra_contract is Some || old(
                self,
            ).config.cterra_contract is Some || old(self).config.capacorp_contract
                is Some || old(self).config.capa_contract is Some || old(
                self,
            ).config.insurance_contract is Some ==> r == Err::<(), VaultError>(
                VaultError::Authorization,
            ) && final(self).config == old(self).config,
            !(old(self).config.market_contract is Some || old(
                self,
            ).config.aterra_contract is Some || old(self).config.cterra_contract
                is Some || old(self).config.capacorp_contract is Some || old(
                self,
            ).config.capa_contract is Some || old(self).config.insurance_contract
                is Some) && sender != old(self).config.owner_addr ==> r == Err::<
                (),
                VaultError,
            >(VaultError::Authorization) && final(self).config == old(self).config,
            !(old(self).config.market_contract is Some || old(
                self,
            ).config.aterra_contract is Some || old(self).config.cterra_contract
                is Some || old(self).config.capacorp_contract is Some || old(
                self,
            ).config.capa_contract is Some || old(self).config.insurance_contract
                is Some) && sender == old(self).config.owner_addr ==> r == Ok::<
                (),
                VaultError,
            >(()) && final(self).config == (Config {
                market_contract: Some(market_contract),
                aterra_contract: Some(aterra_contract),
                cterra_contract: Some(cterra_contract),
                capacorp_contract: Some(capacorp_contract),
                capa_contract: Some(capa_contract),
                insurance_contract: Some(insurance_contract),
                ..old(self).config
            }) && final(self).config.registered(),
    {
        if self.config.market_contract.is_some() || self.config.aterra_contract.is_some()
            || self.config.cterra_contract.is_some()
            || self.config.capacorp_contract.is_some()
            || self.config.capa_contract.is_some()
            || self.config.insurance_contract.is_some() {
            return Err(VaultError::Authorization);
        }
        if sender.0 != self.config.owner_addr.0 {
            return Err(VaultError::Authorization);
        }
        self.config.market_contract = Some(market_contract);
        self.config.aterra_contract = Some(aterra_contract);
        self.config.cterra_contract = Some(cterra_contract);
        self.config.capacorp_contract = Some(capacorp_contract);
        self.config.capa_contract = Some(capa_contract);
        self.config.insurance_contract = Some(insurance_contract);
        Ok(())
    }

    /// Changes the owner. Only the current owner may do it.
    pub fn update_config(&mut self, sender: AccountId, owner_addr: Option<AccountId>) -> (r: Result<
        (),
        VaultError,
    >)
        requires
            old(self).wf(),
        ensures
            final(self).wf(),
            final(self).ledger@ == old(self).ledger@,
            final(self).total_profit == old(self).total_profit,
            sender != old(self).config.owner_addr ==> r == Err::<(), VaultError>(
                VaultError::Authorization,
            ) && final(self).config == old(self).config,
            sender == old(self).config.owner_addr ==> r == Ok::<(), VaultError>(())
                && final(self).config == (Config {
                owner_addr: match owner_addr {
                    Some(a) => a,
                    None => old(self).config.owner_addr,
                },
                ..old(self).config
            }),
    {
        if sender.0 != self.config.owner_addr.0 {
            return Err(VaultError::Authorization);
        }
        if let Some(addr) = owner_addr {
            self.config.owner_addr = addr;
        }
        Ok(())
    }

    /// Deposits `deposit_amount` of the stable asset for `sender` at the
    /// observed `base_rate`.
    ///
    /// The tax adjustment is applied once; the net amount must exceed
    /// `MIN_TRANSFER`. Receipt tokens minted are the net amount divided by
    /// the derived vault rate, truncating. The account's principal and
    /// baseline each grow by the net amount; its claimed total never changes.
    /// On any error no state changes.
    pub fn deposit(
        &mut self,
        sender: AccountId,
        deposit_amount: u128,
        base_rate: FixedDecimal,
        tax_rate: FixedDecimal,
        tax_cap: u128,
    ) -> (r: Result<DepositReceipt, VaultError>)
        requires
            old(self).wf(),
        ensures
            final(self).wf(),
            final(self).config == old(self).config,
            final(self).total_profit == old(self).total_profit,
            r is Err ==> final(self).ledger@ == old(self).ledger@,
            r is Ok ==> record_or_default(final(self).ledger@, sender).total_claimed
                == record_or_default(old(self).ledger@, sender).total_claimed,
            !tax_ok(tax_rate@) ==> r == Err::<DepositReceipt, VaultError>(
                VaultError::ArithmeticDomain,
            ),
            ({
                let net = spec_deduct_tax(deposit_amount as int, tax_rate@, tax_cap as int);
                let vro = vault_rate_opt(base_rate@, B_RAW as int);
                let rec = record_or_default(old(self).ledger@, sender);
                &&& (tax_ok(tax_rate@) && net <= MIN_TRANSFER ==> r == Err::<
                    DepositReceipt,
                    VaultError,
                >(VaultError::BelowThreshold))
                &&& (tax_ok(tax_rate@) && net > MIN_TRANSFER && vro is None ==> r
                    == Err::<DepositReceipt, VaultError>(VaultError::ArithmeticDomain))
                &&& (tax_ok(tax_rate@) && net > MIN_TRANSFER && vro is Some ==> {
                    let vr = vro->Some_0;
                    let mint = fdiv(net, vr);
                    &&& (vr == 0 || vr >= WORD || mint >= u128_bound() ==> r == Err::<
                        DepositReceipt,
                        VaultError,
                    >(VaultError::ArithmeticDomain))
                    &&& (0 < vr < WORD && mint < u128_bound() && (rec.total_deposit + net
                        >= u128_bound() || rec.last_ops_baseline + net >= u128_bound())
                        ==> r == Err::<DepositReceipt, VaultError>(
                        VaultError::ArithmeticDomain,
                    ))
                    &&& (0 < vr < WORD && mint < u128_bound() && rec.total_deposit + net
                        < u128_bound() && rec.last_ops_baseline + net < u128_bound()
                        ==> r == Ok::<DepositReceipt, VaultError>(
                        (DepositReceipt { mint_amount: mint as u128, deposit_amount: net as u128 }),
                    ) && final(self).ledger@ == old(self).ledger@.insert(
                        sender,
                        (AccountRecord {
                            total_deposit: (rec.total_deposit + net) as u128,
                            total_claimed: rec.total_claimed,
                            last_ops_baseline: (rec.last_ops_baseline + net) as u128,
                        }),
                    ))
                })
            }),
    {
        let net = match deduct_tax(deposit_amount, tax_rate, tax_cap) {
            Ok(v) => v,
            Err(e) => {
                return Err(e);
            },
        };
        if net <= MIN_TRANSFER {
            return Err(VaultError::BelowThreshold);
        }
        let vault_rate = match ExchangeRate::capapult_exchange_rate(base_rate) {
            Ok(v) => v,
            Err(e) => {
                return Err(e);
            },
        };
        let mint_amount = match amount_over_rate(net, vault_rate) {
            Some(v) => v,
            None => {
                return Err(VaultError::ArithmeticDomain);
            },
        };
        let rec = match self.ledger.get(sender) {
            Some(rec) => rec,
            None => AccountRecord::empty(),
        };
        if rec.total_deposit > u128::MAX - net || rec.last_ops_baseline > u128::MAX - net {
            return Err(VaultError::ArithmeticDomain);
        }
        self.ledger.put(
            sender,
            AccountRecord {
                total_deposit: rec.total_deposit + net,
                total_claimed: rec.total_claimed,
                last_ops_baseline: rec.last_ops_baseline + net,
            },
        );
        Ok(DepositReceipt { mint_amount, deposit_amount: net })
    }

    /// Redeems `burn_amount` receipt tokens for `sender`.
    ///
    /// The payout is the burn valued at the derived vault rate, with the tax
    /// adjustment applied once per leg; it must exceed `MIN_TRANSFER`, and
    /// the vault's holdings must cover its underlying-asset equivalent, else
    /// nothing changes. On success the profit realized is the account's gain
    /// over its baseline, capped by the redeemed value; it is added to the
    /// claimed total, the principal shrinks by the redeemed value (floored at
    /// zero), and the baseline absorbs the withdrawal and the realized profit
    /// so a later redemption cannot realize the same profit again.
    pub fn redeem_stable(
        &mut self,
        sender: AccountId,
        burn_amount: u128,
        base_rate: FixedDecimal,
        tax_rate: FixedDecimal,
        tax_cap: u128,
        vault_aterra_balance: u128,
        sender_cust_balance: u128,
    ) -> (r: Result<RedeemReceipt, VaultError>)
        requires
            old(self).wf(),
        ensures
            final(self).wf(),
            final(self).config == old(self).config,
            final(self).total_profit == old(self).total_profit,
            r is Err ==> final(self).ledger@ == old(self).ledger@,
            r is Ok ==> record_or_default(final(self).ledger@, sender).total_claimed
                >= record_or_default(old(self).ledger@, sender).total_claimed,
            ({
                let vro = vault_rate_opt(base_rate@, B_RAW as int);
                let rec = record_or_default(old(self).ledger@, sender);
                &&& (vro is None ==> r == Err::<RedeemReceipt, VaultError>(
                    VaultError::ArithmeticDomain,
                ))
                &&& (vro is Some ==> {
                    let vr = vro->Some_0;
                    let w0 = fmul(burn_amount as int, vr);
                    &&& (w0 >= u128_bound() ==> r == Err::<RedeemReceipt, VaultError>(
                        VaultError::ArithmeticDomain,
                    ))
                    &&& (w0 < u128_bound() && !tax_ok(tax_rate@) ==> r == Err::<
                        RedeemReceipt,
                        VaultError,
                    >(VaultError::ArithmeticDomain))
                    &&& (w0 < u128_bound() && tax_ok(tax_rate@) ==> {
                        let w1 = spec_deduct_tax(w0, tax_rate@, tax_cap as int);
                        let w2 = spec_deduct_tax(w1, tax_rate@, tax_cap as int);
                        let ub = fdiv(w2, base_rate@);
                        let value = fmul(sender_cust_balance as int, vr);
                        let gain = if value > rec.last_ops_baseline {
                            value - rec.last_ops_baseline
                        } else {
                            0
                        };
                        let realized = if gain > w0 {
                            w0
                        } else {
                            gain
                        };
                        &&& (w2 <= MIN_TRANSFER ==> r == Err::<RedeemReceipt, VaultError>(
                            VaultError::BelowThreshold,
                        ))
                        &&& (w2 > MIN_TRANSFER && (base_rate@ == 0 || base_rate@ >= WORD
                            || ub >= u128_bound()) ==> r == Err::<
                            RedeemReceipt,
                            VaultError,
                        >(VaultError::ArithmeticDomain))
                        &&& (w2 > MIN_TRANSFER && 0 < base_rate@ < WORD && ub
                            < u128_bound() ==> {
                            &&& (ub > vault_aterra_balance ==> r == Err::<
                                RedeemReceipt,
                                VaultError,
                            >(VaultError::InsufficientFunds))
                            &&& (ub <= vault_aterra_balance && value >= u128_bound()
                                ==> r == Err::<RedeemReceipt, VaultError>(
                                VaultError::ArithmeticDomain,
                            ))
                            &&& (ub <= vault_aterra_balance && value < u128_bound() && (
                            rec.total_claimed + realized >= u128_bound()
                                || rec.last_ops_baseline + realized >= u128_bound())
                                ==> r == Err::<RedeemReceipt, VaultError>(
                                VaultError::ArithmeticDomain,
                            ))
                            &&& (ub <= vault_aterra_balance && value < u128_bound()
                                && rec.total_claimed + realized < u128_bound()
                                && rec.last_ops_baseline + realized < u128_bound()
                                ==> r == Ok::<RedeemReceipt, VaultError>(
                                (RedeemReceipt {
                                    burn_amount,
                                    aust_burn_amount: ub as u128,
                                    withdraw_amount: w2 as u128,
                                }),
                            ) && final(self).ledger@ == old(self).ledger@.insert(
                                sender,
                                (AccountRecord {
                                    total_deposit: if rec.total_deposit > w0 {
                                        (rec.total_deposit - w0) as u128
                                    } else {
                                        0
                                    },
                                    total_claimed: (rec.total_claimed + realized) as u128,
                                    last_ops_baseline: if rec.last_ops_baseline + realized
                                        > w0 {
                                        (rec.last_ops_baseline + realized - w0) as u128
                                    } else {
                                        0
                                    },
                                }),
                            ))
                        })
                    })
                })
            }),
    {
        let vault_rate = match ExchangeRate::capapult_exchange_rate(base_rate) {
            Ok(v) => v,
            Err(e) => {
                return Err(e);
            },
        };
        let w0 = match amount_times_rate(burn_amount, vault_rate) {
            Some(v) => v,
            None => {
                return Err(VaultError::ArithmeticDomain);
            },
        };
        let tax1 = match compute_tax(w0, tax_rate, tax_cap) {
            Ok(v) => v,
            Err(e) => {
                return Err(e);
            },
        };
        let w1 = w0 - tax1;
        let tax2 = match compute_tax(w1, tax_rate, tax_cap) {
            Ok(v) => v,
            Err(e) => {
                return Err(e);
            },
        };
        let withdraw_amount = w1 - tax2;
        if withdraw_amount <= MIN_TRANSFER {
            return Err(VaultError::BelowThreshold);
        }
        let aust_burn_amount = match amount_over_rate(withdraw_amount, base_rate) {
            Some(v) => v,
            None => {
                return Err(VaultError::ArithmeticDomain);
            },
        };
        if aust_burn_amount > vault_aterra_balance {
            return Err(VaultError::InsufficientFunds);
        }
        let rec = match self.ledger.get(sender) {
            Some(rec) => rec,
            None => AccountRecord::empty(),
        };
        let value = match amount_times_rate(sender_cust_balance, vault_rate) {
            Some(v) => v,
            None => {
                return Err(VaultError::ArithmeticDomain);
            },
        };
        let gain = if value > rec.last_ops_baseline {
            value - rec.last_ops_baseline
        } else {
            0
        };
        let realized = if gain > w0 {
            w0
        } else {
            gain
        };
        if rec.total_claimed > u128::MAX - realized || rec.last_ops_baseline > u128::MAX
            - realized {
            return Err(VaultError::ArithmeticDomain);
        }
        let new_deposit = if rec.total_deposit > w0 {
            rec.total_deposit - w0
        } else {
            0
        };
        let grown_baseline = rec.last_ops_baseline + realized;
        let new_baseline = if grown_baseline > w0 {
            grown_baseline - w0
        } else {
            0
        };
        self.ledger.put(
            sender,
            AccountRecord {
                total_deposit: new_deposit,
                total_claimed: rec.total_claimed + realized,
                last_ops_baseline: new_baseline,
            },
        );
        Ok(RedeemReceipt { burn_amount, aust_burn_amount, withdraw_amount })
    }

    /// Distributes the vault's accrued profit: a 3% insurance set-aside, then
    /// a pro-rata share per stakeholder by basis-point weight. Owner only.
    ///
    /// The distributable profit must reach `PROFIT_FLOOR`; on success it is
    /// added to the lifetime profit counter. On any error no state changes.
    #[verifier::loop_isolation(false)]
    pub fn distribute(
        &mut self,
        sender: AccountId,
        vault_aterra_balance: u128,
        base_rate: FixedDecimal,
        cust_total_supply: u128,
        stakeholders: &Vec<(AccountId, u128)>,
    ) -> (r: Result<DistributionOutcome, VaultError>)
        requires
            old(self).wf(),
        ensures
            final(self).wf(),
            final(self).config == old(self).config,
            final(self).ledger@ == old(self).ledger@,
            r is Err ==> final(self).total_profit == old(self).total_profit,
            r is Ok ==> final(self).total_profit >= old(self).total_profit,
            sender != old(self).config.owner_addr ==> r == Err::<
                DistributionOutcome,
                VaultError,
            >(VaultError::Authorization),
            ({
                let po = profit_aterra_opt(
                    vault_aterra_balance as int,
                    base_rate@,
                    cust_total_supply as int,
                );
                &&& (sender == old(self).config.owner_addr && po is None ==> r == Err::<
                    DistributionOutcome,
                    VaultError,
                >(VaultError::ArithmeticDomain))
                &&& (sender == old(self).config.owner_addr && po is Some ==> {
                    let p0 = po->Some_0;
                    let insurance = fmul(p0, INSURANCE_RATE_RAW as int);
                    let profit = p0 - insurance;
                    &&& (profit < PROFIT_FLOOR ==> r == Err::<
                        DistributionOutcome,
                        VaultError,
                    >(VaultError::BelowThreshold))
                    &&& (profit >= PROFIT_FLOOR && (exists|j: int|
                        0 <= j < stakeholders@.len() && #[trigger] (profit
                            * stakeholders@[j].1) >= u128_bound()) ==> r == Err::<
                        DistributionOutcome,
                        VaultError,
                    >(VaultError::ArithmeticDomain))
                    &&& (profit >= PROFIT_FLOOR && (forall|j: int|
                        0 <= j < stakeholders@.len() ==> #[trigger] (profit
                            * stakeholders@[j].1) < u128_bound()) && old(
                        self,
                    ).total_profit + profit >= u128_bound() ==> r == Err::<
                        DistributionOutcome,
                        VaultError,
                    >(VaultError::ArithmeticDomain))
                    &&& (profit >= PROFIT_FLOOR && (forall|j: int|
                        0 <= j < stakeholders@.len() ==> #[trigger] (profit
                            * stakeholders@[j].1) < u128_bound()) && old(
                        self,
                    ).total_profit + profit < u128_bound() ==> (r matches Ok(out) && {
                        &&& out.insurance_amount == insurance
                        &&& out.distributed == profit
                        &&& out.shares@.len() == stakeholders@.len()
                        &&& (forall|j: int|
                            0 <= j < stakeholders@.len()
                                ==> (#[trigger] out.shares@[j]) == (
                            stakeholders@[j].0,
                            spec_share(profit, stakeholders@[j].1 as int) as u128,
                            ))
                        &&& final(self).total_profit == old(self).total_profit + profit
                    }))
                })
            }),
    {
        if sender.0 != self.config.owner_addr.0 {
            return Err(VaultError::Authorization);
        }
        let profit0 = match calculate_aterra_profit(
            vault_aterra_balance,
            base_rate,
            cust_total_supply,
        ) {
            Ok(v) => v,
            Err(e) => {
                return Err(e);
            },
        };
        proof {
            lemma_fmul_nonneg(profit0 as int, INSURANCE_RATE_RAW as int);
            lemma_fmul_le_first(profit0 as int, INSURANCE_RATE_RAW as int);
        }
        let insurance_amount = match amount_times_rate(
            profit0,
            FixedDecimal::from_raw(INSURANCE_RATE_RAW),
        ) {
            Some(v) => v,
            None => {
                proof {
                    assert(false);
                }
                return Err(VaultError::ArithmeticDomain);
            },
        };
        let profit = profit0 - insurance_amount;
        if profit < PROFIT_FLOOR {
            return Err(VaultError::BelowThreshold);
        }
        let mut shares: Vec<(AccountId, u128)> = Vec::new();
        let mut i: usize = 0;
        while i < stakeholders.len()
            invariant
                i <= stakeholders@.len(),
                shares@.len() == i,
                forall|j: int|
                    0 <= j < i ==> (#[trigger] shares@[j]) == (
                    stakeholders@[j].0,
                    spec_share(profit as int, stakeholders@[j].1 as int) as u128,
                    ),
                forall|j: int|
                    0 <= j < i ==> #[trigger] ((profit as int) * stakeholders@[j].1)
                        < u128_bound(),
            decreases stakeholders@.len() - i,
        {
            let entry = stakeholders[i];
            let share = match stakeholder_share(profit, entry.1) {
                Some(v) => v,
                None => {
                    return Err(VaultError::ArithmeticDomain);
                },
            };
            shares.push((entry.0, share));
            i = i + 1;
        }
        if self.total_profit > u128::MAX - profit {
            return Err(VaultError::ArithmeticDomain);
        }
        self.total_profit = self.total_profit + profit;
        Ok(DistributionOutcome { insurance_amount, shares, distributed: profit })
    }

    /// The profit `account_addr` could harvest now: its receipt balance
    /// valued at the derived vault rate, less its baseline, floored at zero.
    pub fn query_harvest_value(
        &self,
        account_addr: AccountId,
        cust_balance: u128,
        base_rate: FixedDecimal,
    ) -> (r: Result<u128, VaultError>)
        requires
            self.wf(),
        ensures
            cust_balance == 0 ==> r == Ok::<u128, VaultError>(0),
            ({
                let vro = vault_rate_opt(base_rate@, B_RAW as int);
                let baseline = record_or_default(self.ledger@, account_addr).last_ops_baseline;
                &&& (cust_balance != 0 && vro is None ==> r == Err::<u128, VaultError>(
                    VaultError::ArithmeticDomain,
                ))
                &&& (cust_balance != 0 && vro is Some ==> {
                    let value = fmul(cust_balance as int, vro->Some_0);
                    &&& (value >= u128_bound() ==> r == Err::<u128, VaultError>(
                        VaultError::ArithmeticDomain,
                    ))
                    &&& (value < u128_bound() ==> r == Ok::<u128, VaultError>(
                        if value > baseline {
                            (value - baseline) as u128
                        } else {
                            0
                        },
                    ))
                })
            }),
    {
        if cust_balance == 0 {
            return Ok(0);
        }
        let vault_rate = match ExchangeRate::capapult_exchange_rate(base_rate) {
            Ok(v) => v,
            Err(e) => {
                return Err(e);
            },
        };
        let last_ops = self.ledger.read_last_ops_ust(account_addr, 0);
        let current = match amount_times_rate(cust_balance, vault_rate) {
            Some(v) => v,
            None => {
                return Err(VaultError::ArithmeticDomain);
            },
        };
        if current > last_ops {
            Ok(current - last_ops)
        } else {
            Ok(0)
        }
    }

    /// The cumulative profit already paid out to `account_addr`.
    pub fn query_harvested_sum(&self, account_addr: AccountId) -> (r: u128)
        requires
            self.wf(),
        ensures
            r == record_or_default(self.ledger@, account_addr).total_claimed,
    {
        self.ledger.read_total_claim(account_addr)
    }

    /// The aggregate dashboard numbers: total value locked, supply, account
    /// count, average balance, current and lifetime profit.
    pub fn query_dashboard(
        &self,
        vault_aterra_balance: u128,
        base_rate: FixedDecimal,
        cust_total_supply: u128,
        cust_nb_accounts: u128,
    ) -> (r: Result<DashboardResponse, VaultError>)
        requires
            self.wf(),
        ensures
            ({
                let po = profit_ust_opt(
                    vault_aterra_balance as int,
                    base_rate@,
                    cust_total_supply as int,
                );
                let tvl = fmul(vault_aterra_balance as int, base_rate@);
                &&& (po is None ==> r == Err::<DashboardResponse, VaultError>(
                    VaultError::ArithmeticDomain,
                ))
                &&& (po is Some && tvl >= u128_bound() ==> r == Err::<
                    DashboardResponse,
                    VaultError,
                >(VaultError::ArithmeticDomain))
                &&& (po is Some && tvl < u128_bound() ==> r == Ok::<
                    DashboardResponse,
                    VaultError,
                >(
                    (DashboardResponse {
                        total_value_locked: tvl as u128,
                        cust_total_supply,
                        cust_nb_accounts,
                        cust_avg_balance: if cust_nb_accounts > 0 {
                            (cust_total_supply as int / cust_nb_accounts as int) as u128
                        } else {
                            0
                        },
                        current_profit: po->Some_0 as u128,
                        total_profit: self.total_profit,
                    }),
                ))
            }),
    {
        let current_profit = match crate::accrual::calculate_profit(
            vault_aterra_balance,
            base_rate,
            cust_total_supply,
        ) {
            Ok(v) => v,
            Err(e) => {
                return Err(e);
            },
        };
        let total_value_locked = match amount_times_rate(vault_aterra_balance, base_rate) {
            Some(v) => v,
            None => {
                return Err(VaultError::ArithmeticDomain);
            },
        };
        let cust_avg_balance = if cust_nb_accounts > 0 {
            cust_total_supply / cust_nb_accounts
        } else {
            0
        };
        Ok(
            DashboardResponse {
                total_value_locked,
                cust_total_supply,
                cust_nb_accounts,
                cust_avg_balance,
                current_profit,
                total_profit: self.total_profit,
            },
        )
    }
}

/// A tax rate of zero deducts nothing, whatever the cap.
pub proof fn lemma_tax_free(amount: int, cap: int)
    requires
        0 <= amount,
        0 <= cap,
    ensures
        spec_compute_tax(amount, 0, cap) == 0,
        spec_deduct_tax(amount, 0, cap) == amount,
{
    assert(fdiv(SCALE as int, SCALE as int + 0) == SCALE) by {
        vstd::arithmetic::div_mod::lemma_div_by_multiple(SCALE as int, SCALE as int);
        assert((SCALE as int) * (SCALE as int) == (SCALE as int) * (SCALE as int));
    }
    assert(crate::tax::tax_factor(0) == 0);
    assert(fmul(amount, 0) == 0) by {
        assert(amount * 0 == 0) by (nonlinear_arith);
        vstd::arithmetic::div_mod::lemma_div_of0(SCALE as int);
    }
}

/// Depositing and immediately redeeming the minted amount at one unchanged
/// vault rate of at least 1 returns, before taxes, the deposited net amount
/// up to truncation: the value redeemed never exceeds the net deposit and
/// falls short of it by at most `rate / 10^18 + 1` micro-units. With the tax
/// rate at zero this is the whole round trip.
pub proof fn lemma_deposit_redeem_round_trip(net: int, vr: int)
    requires
        0 <= net,
        SCALE <= vr,
    ensures
        ({
            let mint = fdiv(net, vr);
            let back = fmul(mint, vr);
            &&& back <= net
            &&& net - back <= vr / SCALE as int + 1
        }),
{
    let mint = fdiv(net, vr);
    let back = fmul(mint, vr);
    vstd::arithmetic::div_mod::lemma_fundamental_div_mod(net * SCALE, vr);
    vstd::arithmetic::mul::lemma_mul_nonnegative(net, SCALE as int);
    vstd::arithmetic::div_mod::lemma_div_pos_is_pos(net * SCALE, vr);
    // the value redeemed cannot exceed the net deposit
    assert(mint * vr <= net * SCALE) by (nonlinear_arith)
        requires
            net * SCALE == vr * mint + (net * SCALE) % vr,
            (net * SCALE) % vr >= 0,
    ;
    vstd::arithmetic::div_mod::lemma_div_is_ordered(mint * vr, net * SCALE, SCALE as int);
    vstd::arithmetic::div_mod::lemma_div_by_multiple(net, SCALE as int);
    assert(net * SCALE == (SCALE as int) * net) by (nonlinear_arith);
    // and it falls short by less than one rate-quantum plus one unit
    assert(mint * vr >= net * SCALE - vr + 1) by (nonlinear_arith)
        requires
            net * SCALE == vr * mint + (net * SCALE) % vr,
            (net * SCALE) % vr < vr,
    ;
    assert(back >= net - vr / SCALE as int - 1) by {
        let q = vr / SCALE as int;
        vstd::arithmetic::div_mod::lemma_fundamental_div_mod(vr, SCALE as int);
        assert(net * SCALE - vr + 1 >= (net - q - 1) * SCALE + 1) by (nonlinear_arith)
            requires
                vr == (SCALE as int) * q + vr % (SCALE as int),
                vr % (SCALE as int) < SCALE,
        ;
        vstd::arithmetic::div_mod::lemma_div_is_ordered(
            (net - q - 1) * SCALE + 1,
            mint * vr,
            SCALE as int,
        );
        assert(((net - q - 1) * SCALE + 1) / (SCALE as int) >= net - q - 1) by {
            vstd::arithmetic::div_mod::lemma_fundamental_div_mod_converse_div(
                (net - q - 1) * SCALE,
                SCALE as int,
                net - q - 1,
                0,
            );
            assert((net - q - 1) * SCALE == (net - q - 1) * SCALE + 0);
            vstd::arithmetic::div_mod::lemma_div_is_ordered(
                (net - q - 1) * SCALE,
                (net - q - 1) * SCALE + 1,
                SCALE as int,
            );
        }
    }
}

/// At an observed base rate of exactly 1, the derived vault rate is exactly
/// 1 for any growth factor whose logarithm exists: the implied day position
/// is 0, and anything to the power 0 is 1. A deposit at that rate therefore
/// mints exactly its net amount.
pub proof fn lemma_vault_rate_at_base_one(growth: int)
    requires
        crate::math::ln_opt(growth) is Some,
    ensures
        vault_rate_opt(SCALE as int, growth) == Some(SCALE as int),
        forall|net: int| 0 <= net ==> #[trigger] fdiv(net, SCALE as int) == net,
{
    assert(crate::math::ln_opt(SCALE as int) == Some(0int));
    assert(fdiv(0, crate::curve::LN_A_RAW as int) == 0) by {
        assert(0int * SCALE == 0) by (nonlinear_arith);
        vstd::arithmetic::div_mod::lemma_div_of0(crate::curve::LN_A_RAW as int);
    }
    let l = crate::math::ln_opt(growth)->Some_0;
    assert(fmul(0, l) == 0) by {
        assert(0int * l == 0) by (nonlinear_arith);
        vstd::arithmetic::div_mod::lemma_div_of0(SCALE as int);
    }
    assert(crate::math::exp_opt(0) == Some(SCALE as int));
    assert forall|net: int| 0 <= net implies #[trigger] fdiv(net, SCALE as int) == net by {
        vstd::arithmetic::div_mod::lemma_div_by_multiple(net, SCALE as int);
        assert(net * SCALE == (SCALE as int) * net) by (nonlinear_arith);
    }
}

} // verus!

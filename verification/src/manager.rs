//! The manager: routing configuration over several earn deployments, and the
//! per-account custom-yield registry.

use vstd::prelude::*;
use crate::errors::VaultError;
use crate::ledger::{
    lemma_map_of_contains, lemma_map_of_get, lemma_map_of_push, lemma_map_of_update,
    map_of, unique_keys, AccountId,
};

verus! {

/// The manager's configuration. The two earn deployments it routes to are
/// unset until the one-time registration call fills them.
#[derive(Clone, Debug, PartialEq, Eq)]
pub struct Config {
    /// The manager's own account.
    pub contract_addr: AccountId,
    /// Who may register the deployments.
    pub owner_addr: AccountId,
    /// The lower-yield earn deployment.
    pub earn11: Option<AccountId>,
    /// The higher-yield earn deployment.
    pub earn20: Option<AccountId>,
    /// The stable asset's denomination.
    pub stable_denom: String,
}

/// The exact initial funding a manager must be created with.
pub const MANAGER_INITIAL_DEPOSIT: u128 = 100_000_000;

/// The manager's state: its configuration and the custom-yield registry.
#[derive(Debug)]
pub struct Manager {
    /// The configuration set at instantiation and registration.
    pub config: Config,
    /// Per-account custom yield settings, in insertion order.
    pub yields: YieldRegistry,
}

impl Manager {
    /// Well-formedness: the registry's keys are unique.
    pub open spec fn wf(&self) -> bool {
        self.yields.wf()
    }

    /// Creates a manager. The initial funding must be exactly
    /// `MANAGER_INITIAL_DEPOSIT`; the deployment slots start unset.
    pub fn instantiate(
        contract_addr: AccountId,
        owner_addr: AccountId,
        stable_denom: String,
        initial_deposit: u128,
    ) -> (r: Result<Manager, VaultError>)
        ensures
            initial_deposit != MANAGER_INITIAL_DEPOSIT ==> r == Err::<
                Manager,
                VaultError,
            >(VaultError::Validation),
            initial_deposit == MANAGER_INITIAL_DEPOSIT ==> (r matches Ok(m) && {
                &&& m.wf()
                &&& m.config.contract_addr == contract_addr
                &&& m.config.owner_addr == owner_addr
                &&& m.config.earn11 is None
                &&& m.config.earn20 is None
                &&& m.config.stable_denom == stable_denom
                &&& m.yields@ == Map::<AccountId, i32>::empty()
            }),
    {
        if initial_deposit != MANAGER_INITIAL_DEPOSIT {
            return Err(VaultError::Validation);
        }
        Ok(
            Manager {
                config: Config {
                    contract_addr,
                    owner_addr,
                    earn11: None,
                    earn20: None,
                    stable_denom,
                },
                yields: YieldRegistry::new(),
            },
        )
    }

    /// Fills in the two earn deployments, once. Only the owner may do it,
    /// and only while both slots are still unset.
    pub fn register_contracts(&mut self, sender: AccountId, earn55: AccountId, earn100: AccountId) -> (r: Result<
        (),
        VaultError,
    >)
        requires
            old(self).wf(),
        ensures
            final(self).wf(),
            final(self).yields@ == old(self).yields@,
            old(self).config.earn11 is Some || old(self).config.earn20 is Some ==> r
                == Err::<(), VaultError>(VaultError::Authorization)
                && final(self).config == old(self).config,
            old(self).config.earn11 is None && old(self).config.earn20 is None && sender
                != old(self).config.owner_addr ==> r == Err::<(), VaultError>(
                VaultError::Authorization,
            ) && final(self).config == old(self).config,
            old(self).config.earn11 is None && old(self).config.earn20 is None && sender
                == old(self).config.owner_addr ==> r == Ok::<(), VaultError>(())
                && final(self).config == (Config {
                earn11: Some(earn55),
                earn20: Some(earn100),
                ..old(self).config
            }),
    {
        if self.config.earn11.is_some() || self.config.earn20.is_some() {
            return Err(VaultError::Authorization);
        }
        if sender.0 != self.config.owner_addr.0 {
            return Err(VaultError::Authorization);
        }
        self.config.earn11 = Some(earn55);
        self.config.earn20 = Some(earn100);
        Ok(())
    }
}

/// The per-account custom-yield registry: each account's yield setting, kept
/// in insertion order so enumeration is reproducible.
#[derive(Debug)]
pub struct YieldRegistry {
    entries: Vec<(AccountId, i32)>,
}

impl View for YieldRegistry {
    type V = Map<AccountId, i32>;

    closed spec fn view(&self) -> Map<AccountId, i32> {
        map_of(self.entries@)
    }
}

impl YieldRegistry {
    /// Well-formedness: no account appears twice.
    pub closed spec fn wf(&self) -> bool {
        unique_keys(self.entries@)
    }

    /// The accounts with a setting, in storage order.
    pub closed spec fn spec_accounts(&self) -> Seq<AccountId> {
        self.entries@.map(|i: int, e: (AccountId, i32)| e.0)
    }

    /// An empty registry.
    pub fn new() -> (r: YieldRegistry)
        ensures
            r.wf(),
            r@ == Map::<AccountId, i32>::empty(),
    {
        YieldRegistry { entries: Vec::new() }
    }

    /// The position of `id`'s entry, when there is one.
    fn find(&self, id: AccountId) -> (r: Option<usize>)
        ensures
            match r {
                Some(i) => i < self.entries@.len() && self.entries@[i as int].0 == id,
                None => forall|j: int|
                    0 <= j < self.entries@.len() ==> (#[trigger] self.entries@[j]).0
                        != id,
            },
    {
        let mut i: usize = 0;
        while i < self.entries.len()
            invariant
                i <= self.entries@.len(),
                forall|j: int| 0 <= j < i ==> (#[trigger] self.entries@[j]).0 != id,
            decreases self.entries@.len() - i,
        {
            if self.entries[i].0.0 == id.0 {
                return Some(i);
            }
            i = i + 1;
        }
        None
    }

    /// Stores `yield_user` as `id`'s setting, replacing any previous one.
    pub fn store_yield_user(&mut self, id: AccountId, yield_user: i32)
        requires
            old(self).wf(),
        ensures
            final(self).wf(),
            final(self)@ == old(self)@.insert(id, yield_user),
    {
        proof {
            lemma_map_of_contains(self.entries@, id);
        }
        match self.find(id) {
            Some(i) => {
                proof {
                    lemma_map_of_update(self.entries@, i as int, yield_user);
                }
                self.entries.set(i, (id, yield_user));
            },
            None => {
                proof {
                    lemma_map_of_push(self.entries@, id, yield_user);
                }
                self.entries.push((id, yield_user));
            },
        }
    }

    /// `id`'s setting, zero when it has none.
    pub fn read_yield_user(&self, id: AccountId) -> (r: i32)
        requires
            self.wf(),
        ensures
            r == if self@.contains_key(id) {
                self@[id]
            } else {
                0
            },
    {
        proof {
            lemma_map_of_contains(self.entries@, id);
        }
        match self.find(id) {
            Some(i) => {
                proof {
                    lemma_map_of_get(self.entries@, i as int);
                }
                self.entries[i].1
            },
            None => 0,
        }
    }

    /// Every account with a setting, in the registry's stable storage order.
    pub fn get_all_custom_yield_users(&self) -> (r: Vec<AccountId>)
        requires
            self.wf(),
        ensures
            r@ == self.spec_accounts(),
            forall|k: AccountId| self@.contains_key(k) <==> r@.contains(k),
    {
        let mut out: Vec<AccountId> = Vec::new();
        let mut i: usize = 0;
        while i < self.entries.len()
            invariant
                i <= self.entries@.len(),
                out@.len() == i,
                forall|j: int| 0 <= j < i ==> out@[j] == (#[trigger] self.entries@[j]).0,
            decreases self.entries@.len() - i,
        {
            out.push(self.entries[i].0);
            i = i + 1;
        }
        proof {
            assert(out@ =~= self.spec_accounts());
            assert forall|k: AccountId| self@.contains_key(k) <==> out@.contains(k) by {
                lemma_map_of_contains(self.entries@, k);
                if self@.contains_key(k) {
                    let j = choose|j: int|
                        0 <= j < self.entries@.len() && (#[trigger] self.entries@[j]).0
                            == k;
                    assert(out@[j] == k);
                }
                if out@.contains(k) {
                    let j = choose|j: int| 0 <= j < out@.len() && out@[j] == k;
                    assert(self.entries@[j].0 == k);
                }
            }
        }
        out
    }
}

} // verus!

//! Per-account bookkeeping records and the map that stores them.
//!
//! Each account tracks the principal currently backing it, the cumulative
//! profit already paid out, and the value of its position at the last
//! deposit or redemption event. The map is keyed by an opaque account
//! identifier and viewed, for specification purposes, as a `Map` from
//! identifiers to records.

use vstd::prelude::*;

verus! {

/// An opaque account identifier.
#[derive(Clone, Copy, Debug, PartialEq, Eq, Hash, Structural)]
pub struct AccountId(pub u64);

/// One account's bookkeeping state.
#[derive(Clone, Copy, Debug, PartialEq, Eq, Structural)]
pub struct AccountRecord {
    /// Principal currently backing the account, in underlying-asset units.
    pub total_deposit: u128,
    /// Cumulative profit already paid out to this account.
    pub total_claimed: u128,
    /// Value of the account's position at its last deposit or redemption,
    /// used to bound how much of a current gain is new.
    pub last_ops_baseline: u128,
}

impl AccountRecord {
    /// The state of an account that has never deposited: all zeros.
    pub open spec fn spec_empty() -> AccountRecord {
        AccountRecord { total_deposit: 0, total_claimed: 0, last_ops_baseline: 0 }
    }

    /// A fresh all-zero record.
    pub fn empty() -> (r: AccountRecord)
        ensures
            r == AccountRecord::spec_empty(),
    {
        AccountRecord { total_deposit: 0, total_claimed: 0, last_ops_baseline: 0 }
    }
}

/// The record stored for `id`, or the all-zero record when none is.
pub open spec fn record_or_default(m: Map<AccountId, AccountRecord>, id: AccountId) -> AccountRecord {
    if m.contains_key(id) {
        m[id]
    } else {
        AccountRecord::spec_empty()
    }
}

/// The map a sequence of keyed entries denotes, later entries winning.
pub open spec fn map_of<V>(s: Seq<(AccountId, V)>) -> Map<AccountId, V>
    decreases s.len(),
{
    if s.len() == 0 {
        Map::empty()
    } else {
        map_of(s.drop_last()).insert(s.last().0, s.last().1)
    }
}

/// No two entries share a key.
pub open spec fn unique_keys<V>(s: Seq<(AccountId, V)>) -> bool {
    forall|i: int, j: int|
        0 <= i < j < s.len() ==> (#[trigger] s[i]).0 != (#[trigger] s[j]).0
}

/// A key is in the denoted map exactly when some entry carries it.
pub(crate) proof fn lemma_map_of_contains<V>(s: Seq<(AccountId, V)>, k: AccountId)
    ensures
        map_of(s).contains_key(k) <==> exists|i: int|
            0 <= i < s.len() && (#[trigger] s[i]).0 == k,
    decreases s.len(),
{
    if s.len() > 0 {
        lemma_map_of_contains(s.drop_last(), k);
        if map_of(s).contains_key(k) {
            if s.last().0 != k {
                let i = choose|i: int|
                    0 <= i < s.drop_last().len() && (#[trigger] s.drop_last()[i]).0 == k;
                assert(s[i].0 == k);
            }
        }
        if exists|i: int| 0 <= i < s.len() && (#[trigger] s[i]).0 == k {
            let i = choose|i: int| 0 <= i < s.len() && (#[trigger] s[i]).0 == k;
            if i < s.len() - 1 {
                assert(s.drop_last()[i].0 == k);
            }
        }
    }
}

/// Under unique keys, the denoted map sends each entry's key to its record.
pub(crate) proof fn lemma_map_of_get<V>(s: Seq<(AccountId, V)>, i: int)
    requires
        unique_keys(s),
        0 <= i < s.len(),
    ensures
        map_of(s).contains_key(s[i].0),
        map_of(s)[s[i].0] == s[i].1,
    decreases s.len(),
{
    if i == s.len() - 1 {
    } else {
        assert(s.drop_last()[i] == s[i]);
        lemma_map_of_get(s.drop_last(), i);
        assert(s[i].0 != s.last().0);
    }
}

/// Appending a fresh key denotes an insertion.
pub(crate) proof fn lemma_map_of_push<V>(s: Seq<(AccountId, V)>, k: AccountId, v: V)
    ensures
        map_of(s.push((k, v))) == map_of(s).insert(k, v),
{
    assert(s.push((k, v)).drop_last() =~= s);
    assert(s.push((k, v)).last() == (k, v));
}

/// Replacing an entry's record in place denotes an insertion at its key.
pub(crate) proof fn lemma_map_of_update<V>(s: Seq<(AccountId, V)>, i: int, v: V)
    requires
        unique_keys(s),
        0 <= i < s.len(),
    ensures
        map_of(s.update(i, (s[i].0, v))) == map_of(s).insert(s[i].0, v),
    decreases s.len(),
{
    let k = s[i].0;
    let s2 = s.update(i, (k, v));
    if i == s.len() - 1 {
        assert(s2.drop_last() =~= s.drop_last());
        assert(map_of(s).insert(s.last().0, s.last().1).insert(k, v) =~= map_of(
            s.drop_last(),
        ).insert(k, v));
        assert(map_of(s2) =~= map_of(s).insert(k, v));
    } else {
        assert(s2.drop_last() =~= s.drop_last().update(i, (k, v)));
        assert(s.drop_last()[i] == s[i]);
        lemma_map_of_update(s.drop_last(), i, v);
        assert(s2.last() == s.last());
        assert(k != s.last().0);
        assert(map_of(s.drop_last()).insert(k, v).insert(s.last().0, s.last().1)
            =~= map_of(s.drop_last()).insert(s.last().0, s.last().1).insert(k, v));
    }
}

/// Deleting an entry denotes a removal of its key.
pub(crate) proof fn lemma_map_of_remove<V>(s: Seq<(AccountId, V)>, i: int)
    requires
        unique_keys(s),
        0 <= i < s.len(),
    ensures
        map_of(s.remove(i)) == map_of(s).remove(s[i].0),
    decreases s.len(),
{
    let k = s[i].0;
    if i == s.len() - 1 {
        assert(s.remove(i) =~= s.drop_last());
        lemma_map_of_contains(s.drop_last(), k);
        assert(forall|j: int|
            0 <= j < s.drop_last().len() ==> (#[trigger] s.drop_last()[j]).0 != k);
        assert(map_of(s.drop_last()).insert(k, s[i].1).remove(k) =~= map_of(
            s.drop_last(),
        ));
    } else {
        assert(s.remove(i).drop_last() =~= s.drop_last().remove(i));
        assert(s.drop_last()[i] == s[i]);
        lemma_map_of_remove(s.drop_last(), i);
        assert(s.remove(i).last() == s.last());
        assert(k != s.last().0);
        assert(map_of(s.drop_last()).remove(k).insert(s.last().0, s.last().1)
            =~= map_of(s.drop_last()).insert(s.last().0, s.last().1).remove(k));
        assert(map_of(s.remove(i)) =~= map_of(s).remove(k));
    }
}

/// The per-account ledger: a keyed collection of bookkeeping records.
#[derive(Debug)]
pub struct Ledger {
    entries: Vec<(AccountId, AccountRecord)>,
}

impl View for Ledger {
    type V = Map<AccountId, AccountRecord>;

    closed spec fn view(&self) -> Map<AccountId, AccountRecord> {
        map_of(self.entries@)
    }
}

impl Ledger {
    /// Well-formedness: no account appears twice.
    pub closed spec fn wf(&self) -> bool {
        unique_keys(self.entries@)
    }

    /// An empty ledger.
    pub fn new() -> (r: Ledger)
        ensures
            r.wf(),
            r@ == Map::<AccountId, AccountRecord>::empty(),
    {
        Ledger { entries: Vec::new() }
    }

    /// The position of `id`'s entry, when there is one.
    fn find(&self, id: AccountId) -> (r: Option<usize>)
        ensures
            match r {
                Some(i) => i < self.entries@.len() && self.entries@[i as int].0 == id,
                None => forall|j: int|
                    0 <= j < self.entries@.len() ==> (#[trigger] self.entries@[j]).0
                        != id,
            },
    {
        let mut i: usize = 0;
        while i < self.entries.len()
            invariant
                i <= self.entries@.len(),
                forall|j: int| 0 <= j < i ==> (#[trigger] self.entries@[j]).0 != id,
            decreases self.entries@.len() - i,
        {
            if self.entries[i].0.0 == id.0 {
                return Some(i);
            }
            i = i + 1;
        }
        None
    }

    /// The record stored for `id`, when there is one.
    pub fn get(&self, id: AccountId) -> (r: Option<AccountRecord>)
        requires
            self.wf(),
        ensures
            match r {
                Some(rec) => self@.contains_key(id) && rec == self@[id],
                None => !self@.contains_key(id),
            },
    {
        proof {
            lemma_map_of_contains(self.entries@, id);
        }
        match self.find(id) {
            Some(i) => {
                proof {
                    lemma_map_of_get(self.entries@, i as int);
                }
                Some(self.entries[i].1)
            },
            None => None,
        }
    }

    /// Stores `rec` for `id`, replacing any previous record.
    pub fn put(&mut self, id: AccountId, rec: AccountRecord)
        requires
            old(self).wf(),
        ensures
            final(self).wf(),
            final(self)@ == old(self)@.insert(id, rec),
    {
        proof {
            lemma_map_of_contains(self.entries@, id);
        }
        match self.find(id) {
            Some(i) => {
                proof {
                    lemma_map_of_update(self.entries@, i as int, rec);
                }
                self.entries.set(i, (id, rec));
            },
            None => {
                proof {
                    lemma_map_of_push(self.entries@, id, rec);
                }
                self.entries.push((id, rec));
            },
        }
    }

    /// Clears every field of `id`'s account by deleting its record.
    pub fn remove_account(&mut self, id: AccountId)
        requires
            old(self).wf(),
        ensures
            final(self).wf(),
            final(self)@ == old(self)@.remove(id),
    {
        proof {
            lemma_map_of_contains(self.entries@, id);
        }
        match self.find(id) {
            Some(i) => {
                proof {
                    lemma_map_of_remove(self.entries@, i as int);
                    assert(forall|a: int, b: int|
                        0 <= a < b < self.entries@.remove(i as int).len()
                            ==> (#[trigger] self.entries@.remove(i as int)[a]).0
                            != (#[trigger] self.entries@.remove(i as int)[b]).0);
                }
                self.entries.remove(i);
            },
            None => {
                proof {
                    assert(self@ =~= self@.remove(id));
                }
            },
        }
    }

    /// The principal currently backing `id`, zero when unknown.
    pub fn read_total_deposit(&self, id: AccountId) -> (r: u128)
        requires
            self.wf(),
        ensures
            r == record_or_default(self@, id).total_deposit,
    {
        match self.get(id) {
            Some(rec) => rec.total_deposit,
            None => 0,
        }
    }

    /// Stores a new principal for `id`, keeping the other fields.
    pub fn store_total_deposit(&mut self, id: AccountId, deposit: u128)
        requires
            old(self).wf(),
        ensures
            final(self).wf(),
            final(self)@ == old(self)@.insert(
                id,
                (AccountRecord {
                    total_deposit: deposit,
                    ..record_or_default(old(self)@, id)
                }),
            ),
    {
        let rec = match self.get(id) {
            Some(rec) => rec,
            None => AccountRecord::empty(),
        };
        self.put(id, AccountRecord { total_deposit: deposit, ..rec });
    }

    /// The cumulative profit already paid to `id`, zero when unknown.
    pub fn read_total_claim(&self, id: AccountId) -> (r: u128)
        requires
            self.wf(),
        ensures
            r == record_or_default(self@, id).total_claimed,
    {
        match self.get(id) {
            Some(rec) => rec.total_claimed,
            None => 0,
        }
    }

    /// Stores a new cumulative-profit figure for `id`.
    pub fn store_total_claim(&mut self, id: AccountId, claim: u128)
        requires
            old(self).wf(),
        ensures
            final(self).wf(),
            final(self)@ == old(self)@.insert(
                id,
                (AccountRecord {
                    total_claimed: claim,
                    ..record_or_default(old(self)@, id)
                }),
            ),
    {
        let rec = match self.get(id) {
            Some(rec) => rec,
            None => AccountRecord::empty(),
        };
        self.put(id, AccountRecord { total_claimed: claim, ..rec });
    }

    /// The last-event baseline of `id`, or `default` when unknown.
    pub fn read_last_ops_ust(&self, id: AccountId, default: u128) -> (r: u128)
        requires
            self.wf(),
        ensures
            r == if self@.contains_key(id) {
                self@[id].last_ops_baseline
            } else {
                default
            },
    {
        match self.get(id) {
            Some(rec) => rec.last_ops_baseline,
            None => default,
        }
    }

    /// Stores a new last-event baseline for `id`.
    pub fn store_last_ops_ust(&mut self, id: AccountId, baseline: u128)
        requires
            old(self).wf(),
        ensures
            final(self).wf(),
            final(self)@ == old(self)@.insert(
                id,
                (AccountRecord {
                    last_ops_baseline: baseline,
                    ..record_or_default(old(self)@, id)
                }),
            ),
    {
        let rec = match self.get(id) {
            Some(rec) => rec,
            None => AccountRecord::empty(),
        };
        self.put(id, AccountRecord { last_ops_baseline: baseline, ..rec });
    }
}

} // verus!

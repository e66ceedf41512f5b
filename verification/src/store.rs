//! The ledger store: a key-value record of day ledgers, keyed by the
//! day-bucket identifier. The session reducer writes today's ledger through
//! it; the weekly aggregator only reads from it.

use vstd::prelude::*;
use crate::ledger::{ledger_wf, DayLedger, LedgerModel};

verus! {

/// The mathematical model of the store: day records in insertion order.
pub type StoreModel = Seq<(Seq<char>, LedgerModel)>;

/// `i` is the first record of `m` whose key is `k`.
pub open spec fn store_first_match(m: StoreModel, k: Seq<char>, i: int) -> bool {
    &&& 0 <= i < m.len()
    &&& m[i].0 == k
    &&& forall|j: int| 0 <= j < i ==> m[j].0 != k
}

/// The store holds a record under key `k`.
pub open spec fn store_has_key(m: StoreModel, k: Seq<char>) -> bool {
    exists|i: int| store_first_match(m, k, i)
}

/// The index of the record under `k` (meaningful only when `store_has_key`).
pub open spec fn store_key_index(m: StoreModel, k: Seq<char>) -> int {
    choose|i: int| store_first_match(m, k, i)
}

/// The ledger persisted under `k`, if any.
pub open spec fn store_lookup(m: StoreModel, k: Seq<char>) -> Option<LedgerModel> {
    if store_has_key(m, k) {
        Some(m[store_key_index(m, k)].1)
    } else {
        None
    }
}

/// A well-formed store has distinct keys and well-formed ledgers.
pub open spec fn store_wf(m: StoreModel) -> bool {
    &&& forall|i: int, j: int| 0 <= i < j < m.len() ==> m[i].0 != m[j].0
    &&& forall|i: int| 0 <= i < m.len() ==> ledger_wf(#[trigger] m[i].1)
}

/// Persisting `v` under `k`: replaces the record under `k`, or appends one.
pub open spec fn spec_store_set(m: StoreModel, k: Seq<char>, v: LedgerModel) -> StoreModel {
    if store_has_key(m, k) {
        m.update(store_key_index(m, k), (k, v))
    } else {
        m.push((k, v))
    }
}

/// A key-value store: one record per day ledger, plus one fixed record for
/// the last-used topic string.
pub struct LedgerStore {
    days: Vec<(String, DayLedger)>,
    topic: Option<String>,
}

impl View for LedgerStore {
    type V = StoreModel;

    closed spec fn view(&self) -> StoreModel {
        Seq::new(self.days@.len(), |i: int| (self.days@[i].0@, self.days@[i].1@))
    }
}

impl LedgerStore {
    /// Structural well-formedness of the store.
    pub open spec fn wf(&self) -> bool {
        store_wf(self@)
    }

    /// The saved topic preference, if any.
    pub closed spec fn topic_pref(&self) -> Option<Seq<char>> {
        match self.topic {
            Some(t) => Some(t@),
            None => None,
        }
    }

    /// An empty store: no day has a persisted ledger, no topic is saved.
    pub fn new() -> (r: LedgerStore)
        ensures
            r@ == Seq::<(Seq<char>, LedgerModel)>::empty(),
            r.topic_pref() is None,
            r.wf(),
    {
        let r = LedgerStore { days: Vec::new(), topic: None };
        proof {
            assert(r@ =~= Seq::<(Seq<char>, LedgerModel)>::empty());
        }
        r
    }

    /// Loads the saved topic preference: a miss means the default applies.
    pub fn get_topic(&self) -> (r: Option<String>)
        ensures
            match r {
                Some(t) => self.topic_pref() == Some(t@),
                None => self.topic_pref() is None,
            },
    {
        match &self.topic {
            Some(t) => Some(t.clone()),
            None => None,
        }
    }

    /// Saves the topic preference under its fixed record.
    pub fn set_topic(&mut self, t: &String)
        ensures
            final(self).topic_pref() == Some(t@),
            final(self)@ == old(self)@,
            final(self).wf() == old(self).wf(),
    {
        self.topic = Some(t.clone());
        proof {
            assert(final(self)@ =~= old(self)@);
        }
    }

    /// Number of day records in the store.
    pub fn len(&self) -> (r: usize)
        ensures
            r == self@.len(),
    {
        self.days.len()
    }

    /// The key of day record `i`.
    pub fn key_at(&self, i: usize) -> (r: &String)
        requires
            i < self@.len(),
        ensures
            r@ == self@[i as int].0,
    {
        &self.days[i].0
    }

    /// The ledger of day record `i`.
    pub fn ledger_at(&self, i: usize) -> (r: &DayLedger)
        requires
            i < self@.len(),
        ensures
            r@ == self@[i as int].1,
    {
        &self.days[i].1
    }

    /// Finds the position of the record under `k`, if any.
    fn find(&self, k: &String) -> (r: Option<usize>)
        ensures
            match r {
                Some(i) => store_first_match(self@, k@, i as int),
                None => forall|j: int| 0 <= j < self@.len() ==> self@[j].0 != k@,
            },
    {
        let n = self.days.len();
        let mut i: usize = 0;
        while i < n
            invariant
                n == self@.len(),
                0 <= i <= n,
                forall|j: int| 0 <= j < i ==> self@[j].0 != k@,
            decreases n - i,
        {
            if self.days[i].0 == *k {
                return Some(i);
            }
            i = i + 1;
        }
        None
    }

    /// Loads the ledger persisted under `k`: a miss is not an error, the day
    /// simply has no record.
    pub fn get(&self, k: &String) -> (r: Option<DayLedger>)
        ensures
            match r {
                Some(d) => store_lookup(self@, k@) == Some(d@),
                None => store_lookup(self@, k@) is None,
            },
            self.wf() && r is Some ==> r.unwrap().wf(),
    {
        match self.find(k) {
            Some(i) => {
                proof {
                    lemma_store_first_match_is_index(self@, k@, i as int);
                }
                Some(self.days[i].1.duplicate())
            },
            None => {
                proof {
                    lemma_store_no_match_no_key(self@, k@);
                }
                None
            },
        }
    }

    /// Persists `v` under `k`, replacing any earlier record for that day.
    pub fn set(&mut self, k: &String, v: &DayLedger)
        requires
            old(self).wf(),
            v.wf(),
        ensures
            final(self)@ == spec_store_set(old(self)@, k@, v@),
            final(self).wf(),
            store_lookup(final(self)@, k@) == Some(v@),
            forall|j: Seq<char>| j != k@ ==> store_lookup(final(self)@, j) == store_lookup(
                old(self)@,
                j,
            ),
            final(self).topic_pref() == old(self).topic_pref(),
    {
        let copy = v.duplicate();
        match self.find(k) {
            Some(i) => {
                proof {
                    lemma_store_first_match_is_index(self@, k@, i as int);
                }
                let _ = self.days.remove(i);
                self.days.insert(i, (clone_key(k), copy));
                proof {
                    assert(final(self)@ =~= spec_store_set(old(self)@, k@, v@));
                    lemma_store_set_lookup(old(self)@, k@, v@);
                }
            },
            None => {
                proof {
                    lemma_store_no_match_no_key(self@, k@);
                }
                self.days.push((clone_key(k), copy));
                proof {
                    assert(final(self)@ =~= spec_store_set(old(self)@, k@, v@));
                    lemma_store_set_lookup(old(self)@, k@, v@);
                }
            },
        }
    }
}

/// A copy of a key with the same characters.
fn clone_key(s: &String) -> (r: String)
    ensures
        r@ == s@,
{
    s.clone()
}

/// A first match is unique, so it is the chosen `store_key_index`.
pub proof fn lemma_store_first_match_is_index(m: StoreModel, k: Seq<char>, i: int)
    requires
        store_first_match(m, k, i),
    ensures
        store_has_key(m, k),
        store_key_index(m, k) == i,
{
    let j = store_key_index(m, k);
    assert(store_first_match(m, k, j));
    if j < i {
        assert(m[j].0 != k);
    } else if i < j {
        assert(m[i].0 != k);
    }
}

/// When no record carries key `k`, the store has no record for it.
pub proof fn lemma_store_no_match_no_key(m: StoreModel, k: Seq<char>)
    requires
        forall|j: int| 0 <= j < m.len() ==> m[j].0 != k,
    ensures
        !store_has_key(m, k),
{
}

/// Round trip through the store: persisting `v` under `k` and loading `k`
/// yields exactly `v`, and no other key's record changes.
pub proof fn lemma_store_set_lookup(m: StoreModel, k: Seq<char>, v: LedgerModel)
    requires
        store_wf(m),
        ledger_wf(v),
    ensures
        store_lookup(spec_store_set(m, k, v), k) == Some(v),
        forall|j: Seq<char>| j != k ==> store_lookup(spec_store_set(m, k, v), j) == store_lookup(
            m,
            j,
        ),
        store_wf(spec_store_set(m, k, v)),
{
    let m2 = spec_store_set(m, k, v);
    if store_has_key(m, k) {
        let i = store_key_index(m, k);
        assert(store_first_match(m, k, i));
        assert(store_first_match(m2, k, i));
        lemma_store_first_match_is_index(m2, k, i);
    } else {
        assert forall|j: int| 0 <= j < m.len() implies m[j].0 != k by {
            if m[j].0 == k {
                lemma_store_has_key_from_match(m, k, j);
            }
        }
        assert(store_first_match(m2, k, m.len() as int));
        lemma_store_first_match_is_index(m2, k, m.len() as int);
    }
    assert forall|j: Seq<char>| j != k implies store_lookup(m2, j) == store_lookup(m, j) by {
        lemma_store_other_keys(m, k, v, j);
    }
}

/// Any record carrying `k` somewhere in the store yields a first match.
pub proof fn lemma_store_has_key_from_match(m: StoreModel, k: Seq<char>, j: int)
    requires
        0 <= j < m.len(),
        m[j].0 == k,
    ensures
        store_has_key(m, k),
    decreases j,
{
    if forall|x: int| 0 <= x < j ==> m[x].0 != k {
        assert(store_first_match(m, k, j));
    } else {
        let x = choose|x: int| 0 <= x < j && m[x].0 == k;
        lemma_store_has_key_from_match(m, k, x);
    }
}

/// Persisting under `k` leaves every other key's record as it was.
proof fn lemma_store_other_keys(m: StoreModel, k: Seq<char>, v: LedgerModel, j: Seq<char>)
    requires
        j != k,
    ensures
        store_lookup(spec_store_set(m, k, v), j) == store_lookup(m, j),
{
    let m2 = spec_store_set(m, k, v);
    if store_has_key(m, j) {
        let i = store_key_index(m, j);
        assert(store_first_match(m, j, i));
        if store_has_key(m, k) {
            let ik = store_key_index(m, k);
            assert(store_first_match(m, k, ik));
            assert(ik != i);
            assert(store_first_match(m2, j, i));
        } else {
            assert(store_first_match(m2, j, i));
        }
        lemma_store_first_match_is_index(m2, j, i);
    } else {
        assert forall|x: int| 0 <= x < m.len() implies m[x].0 != j by {
            if m[x].0 == j {
                lemma_store_has_key_from_match(m, j, x);
            }
        }
        assert forall|x: int| 0 <= x < m2.len() implies m2[x].0 != j by {
            if x < m.len() && m2[x].0 == j {
                if store_has_key(m, k) && x == store_key_index(m, k) {
                } else {
                    assert(m2[x].0 == m[x].0);
                }
            }
        }
        lemma_store_no_match_no_key(m2, j);
    }
}

} // verus!

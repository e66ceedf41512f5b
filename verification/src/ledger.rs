//! The per-day session ledger: a mapping from topic to its ordered sequence
//! of per-session solve counts, with the signed increment/decrement reducer.
//!
//! A positive delta raises the count of the most recent (active) session. A
//! negative delta unwinds sessions from the most recent backward: a session
//! that the decrement consumes entirely is popped (even as the terminal
//! step), a partially consumed session keeps the difference, and a topic
//! whose whole total is consumed is removed from the ledger outright.

use vstd::prelude::*;

verus! {

/// The mathematical model of a day ledger: the entries in insertion order,
/// each a topic name with its session counts.
pub type LedgerModel = Seq<(Seq<char>, Seq<u32>)>;

/// `i` is the first entry of `m` whose topic is `t`.
pub open spec fn first_match(m: LedgerModel, t: Seq<char>, i: int) -> bool {
    &&& 0 <= i < m.len()
    &&& m[i].0 == t
    &&& forall|j: int| 0 <= j < i ==> m[j].0 != t
}

/// The ledger has an entry for topic `t`.
pub open spec fn has_topic(m: LedgerModel, t: Seq<char>) -> bool {
    exists|i: int| first_match(m, t, i)
}

/// The index of the entry for topic `t` (meaningful only when `has_topic`).
pub open spec fn topic_index(m: LedgerModel, t: Seq<char>) -> int {
    choose|i: int| first_match(m, t, i)
}

/// The session counts recorded for `t`, or the empty sequence if absent.
pub open spec fn topic_sessions(m: LedgerModel, t: Seq<char>) -> Seq<u32> {
    if has_topic(m, t) {
        m[topic_index(m, t)].1
    } else {
        Seq::empty()
    }
}

/// The count of the active (most recent) session of `t`; 0 if `t` is absent.
pub open spec fn spec_active(m: LedgerModel, t: Seq<char>) -> u32 {
    let s = topic_sessions(m, t);
    if s.len() == 0 {
        0
    } else {
        s.last()
    }
}

/// How many sessions of `t` are completed: all but the active one.
pub open spec fn spec_completed(m: LedgerModel, t: Seq<char>) -> int {
    let s = topic_sessions(m, t);
    if s.len() <= 1 {
        0
    } else {
        s.len() - 1
    }
}

/// The sum of a sequence of session counts.
pub open spec fn sum(s: Seq<u32>) -> int
    decreases s.len(),
{
    if s.len() == 0 {
        0
    } else {
        sum(s.drop_last()) + s.last()
    }
}

/// The grand total ever recorded for `t` across all its sessions.
pub open spec fn topic_total(m: LedgerModel, t: Seq<char>) -> int {
    sum(topic_sessions(m, t))
}

/// A well-formed session list is non-empty and only its last (active)
/// session may hold a zero count.
pub open spec fn sessions_wf(s: Seq<u32>) -> bool {
    &&& s.len() >= 1
    &&& forall|j: int| 0 <= j < s.len() - 1 ==> s[j] > 0
}

/// A well-formed ledger has distinct topics and well-formed session lists.
pub open spec fn ledger_wf(m: LedgerModel) -> bool {
    &&& forall|i: int, j: int| 0 <= i < j < m.len() ==> m[i].0 != m[j].0
    &&& forall|i: int| 0 <= i < m.len() ==> sessions_wf(#[trigger] m[i].1)
}

/// Adds `n` to the last (active) session count.
pub open spec fn bump_last(s: Seq<u32>, n: int) -> Seq<u32> {
    s.update(s.len() - 1, (s.last() + n) as u32)
}

/// Unwinds a decrement of `rem` across the session list, newest first: a
/// session consumed entirely is dropped, a partially consumed one keeps the
/// difference.
pub open spec fn unwind(s: Seq<u32>, rem: int) -> Seq<u32>
    decreases s.len(),
{
    if rem <= 0 || s.len() == 0 {
        s
    } else if rem >= s.last() {
        unwind(s.drop_last(), rem - s.last())
    } else {
        bump_last(s, -rem)
    }
}

/// A positive delta: raises the active session of `t`, creating the entry
/// with a single session if the topic is absent.
pub open spec fn spec_apply_pos(m: LedgerModel, t: Seq<char>, n: int) -> LedgerModel {
    if has_topic(m, t) {
        let i = topic_index(m, t);
        m.update(i, (t, bump_last(m[i].1, n)))
    } else {
        m.push((t, seq![n as u32]))
    }
}

/// A decrement by `d`: unwinds the sessions of `t`; if every session is
/// consumed, the topic is removed from the ledger.
pub open spec fn spec_apply_neg(m: LedgerModel, t: Seq<char>, d: int) -> LedgerModel {
    if has_topic(m, t) {
        let i = topic_index(m, t);
        let s1 = unwind(m[i].1, d);
        if s1.len() == 0 {
            m.remove(i)
        } else {
            m.update(i, (t, s1))
        }
    } else {
        m
    }
}

/// One signed reducer step: a positive delta raises the active session, a
/// negative one unwinds, zero is a no-op.
pub open spec fn spec_apply_delta(m: LedgerModel, t: Seq<char>, n: int) -> LedgerModel {
    if n == 0 {
        m
    } else if n > 0 {
        spec_apply_pos(m, t, n)
    } else {
        spec_apply_neg(m, t, -n)
    }
}

/// Ending a session appends a fresh zero-count session, but only when the
/// topic exists and its active session holds a strictly positive count.
pub open spec fn spec_end_session(m: LedgerModel, t: Seq<char>) -> LedgerModel {
    if has_topic(m, t) && topic_sessions(m, t).len() > 0 && topic_sessions(m, t).last() > 0 {
        let i = topic_index(m, t);
        m.update(i, (t, m[i].1.push(0u32)))
    } else {
        m
    }
}

/// A day ledger: topic entries in insertion order, each with its ordered
/// list of per-session solve counts.
pub struct DayLedger {
    entries: Vec<(String, Vec<u32>)>,
}

impl View for DayLedger {
    type V = LedgerModel;

    closed spec fn view(&self) -> LedgerModel {
        Seq::new(self.entries@.len(), |i: int| (self.entries@[i].0@, self.entries@[i].1@))
    }
}

impl DayLedger {
    /// Structural well-formedness of the ledger.
    pub open spec fn wf(&self) -> bool {
        ledger_wf(self@)
    }

    /// An empty ledger: no topic has any recorded session.
    pub fn new() -> (r: DayLedger)
        ensures
            r@ == Seq::<(Seq<char>, Seq<u32>)>::empty(),
            r.wf(),
    {
        let r = DayLedger { entries: Vec::new() };
        proof {
            assert(r@ =~= Seq::<(Seq<char>, Seq<u32>)>::empty());
        }
        r
    }

    /// Number of topic entries in the ledger.
    pub fn len(&self) -> (r: usize)
        ensures
            r == self@.len(),
    {
        self.entries.len()
    }

    /// The topic name of entry `i`.
    pub fn topic_at(&self, i: usize) -> (r: &String)
        requires
            i < self@.len(),
        ensures
            r@ == self@[i as int].0,
    {
        &self.entries[i].0
    }

    /// The session counts of entry `i`.
    pub fn sessions_at(&self, i: usize) -> (r: &Vec<u32>)
        requires
            i < self@.len(),
        ensures
            r@ == self@[i as int].1,
    {
        &self.entries[i].1
    }

    /// Finds the position of the entry for `t`, if any.
    fn find(&self, t: &String) -> (r: Option<usize>)
        ensures
            match r {
                Some(i) => first_match(self@, t@, i as int),
                None => forall|j: int| 0 <= j < self@.len() ==> self@[j].0 != t@,
            },
    {
        let n = self.entries.len();
        let mut i: usize = 0;
        while i < n
            invariant
                n == self@.len(),
                0 <= i <= n,
                forall|j: int| 0 <= j < i ==> self@[j].0 != t@,
            decreases n - i,
        {
            if self.entries[i].0 == *t {
                return Some(i);
            }
            i = i + 1;
        }
        None
    }

    /// The count of the active session of `t`; 0 if `t` is absent.
    pub fn active_count(&self, t: &String) -> (r: u32)
        ensures
            r == spec_active(self@, t@),
    {
        match self.find(t) {
            Some(i) => {
                proof {
                    lemma_first_match_is_index(self@, t@, i as int);
                }
                let s = &self.entries[i].1;
                if s.len() == 0 {
                    0
                } else {
                    s[s.len() - 1]
                }
            },
            None => {
                proof {
                    lemma_no_match_no_topic(self@, t@);
                }
                0
            },
        }
    }

    /// How many sessions of `t` are completed (the active one not counted);
    /// 0 if `t` is absent.
    pub fn sessions_completed(&self, t: &String) -> (r: usize)
        ensures
            r as int == spec_completed(self@, t@),
    {
        match self.find(t) {
            Some(i) => {
                proof {
                    lemma_first_match_is_index(self@, t@, i as int);
                }
                let len = self.entries[i].1.len();
                if len <= 1 {
                    0
                } else {
                    len - 1
                }
            },
            None => {
                proof {
                    lemma_no_match_no_topic(self@, t@);
                }
                0
            },
        }
    }

    /// Applies a signed delta to topic `t`: a positive `n` raises the active
    /// session (creating the topic with one session if absent), a negative
    /// `n` unwinds sessions from the most recent backward and removes the
    /// topic entirely when its whole total is consumed, and zero is a no-op.
    pub fn apply_delta(&mut self, t: &String, n: i32)
        requires
            old(self).wf(),
            n > 0 ==> spec_active(old(self)@, t@) + n <= u32::MAX,
        ensures
            final(self)@ == spec_apply_delta(old(self)@, t@, n as int),
            final(self).wf(),
            topic_total(final(self)@, t@) == clamp_step(topic_total(old(self)@, t@), n as int),
    {
        proof {
            lemma_apply_delta_total(old(self)@, t@, n as int);
        }
        if n == 0 {
            return ;
        }
        let found = self.find(t);
        if n > 0 {
            match found {
                Some(i) => {
                    proof {
                        lemma_first_match_is_index(self@, t@, i as int);
                    }
                    let (name, mut s) = self.entries.remove(i);
                    let last = s.len() - 1;
                    let cur = s[last];
                    s[last] = cur + (n as u32);
                    self.entries.insert(i, (name, s));
                    proof {
                        assert(final(self)@ =~= spec_apply_delta(old(self)@, t@, n as int));
                        lemma_wf_update(old(self)@, t@, i as int, final(self)@[i as int].1);
                    }
                },
                None => {
                    proof {
                        lemma_no_match_no_topic(self@, t@);
                    }
                    let mut s: Vec<u32> = Vec::new();
                    s.push(n as u32);
                    let name = clone_string(t);
                    self.entries.push((name, s));
                    proof {
                        assert(s@ =~= seq![n as u32]);
                        assert(final(self)@ =~= spec_apply_delta(old(self)@, t@, n as int));
                        lemma_wf_push(old(self)@, t@, seq![n as u32]);
                    }
                },
            }
        } else {
            match found {
                Some(i) => {
                    proof {
                        lemma_first_match_is_index(self@, t@, i as int);
                    }
                    let (name, mut s) = self.entries.remove(i);
                    let ghost s0 = s@;
                    proof {
                        assert(s0 == old(self)@[i as int].1);
                        assert(sessions_wf(old(self)@[i as int].1));
                    }
                    let mut rem: u64 = (-(n as i64)) as u64;
                    let ghost d0 = rem as int;
                    while rem > 0 && s.len() > 0
                        invariant
                            unwind(s@, rem as int) == unwind(s0, d0),
                            sessions_wf(s0),
                            s@.len() > 0 ==> sessions_wf(s@),
                        decreases s@.len(), rem as int,
                    {
                        let ghost sb = s@;
                        let ghost rb = rem as int;
                        let last = s.len() - 1;
                        let cur = s[last];
                        if rem >= cur as u64 {
                            s.pop();
                            rem = rem - cur as u64;
                            proof {
                                assert(s@ == sb.drop_last());
                                assert(unwind(sb, rb) == unwind(s@, rem as int));
                            }
                        } else {
                            s[last] = cur - (rem as u32);
                            rem = 0;
                            proof {
                                assert(s@ =~= bump_last(sb, -rb));
                                assert(unwind(sb, rb) == unwind(s@, rem as int));
                            }
                        }
                    }
                    proof {
                        assert(unwind(s@, rem as int) == s@);
                        assert(s@ == unwind(s0, d0));
                    }
                    if s.len() == 0 {
                        proof {
                            assert(final(self)@ =~= spec_apply_delta(old(self)@, t@, n as int));
                            lemma_wf_remove(old(self)@, i as int);
                        }
                    } else {
                        self.entries.insert(i, (name, s));
                        proof {
                            assert(final(self)@ =~= spec_apply_delta(old(self)@, t@, n as int));
                            lemma_wf_update(old(self)@, t@, i as int, s@);
                        }
                    }
                },
                None => {
                    proof {
                        lemma_no_match_no_topic(self@, t@);
                    }
                },
            }
        }
    }

    /// Ends the active session of `t`: appends a fresh zero-count session
    /// when the topic exists and its active session holds a positive count;
    /// otherwise this is a no-op. Returns whether the ledger changed.
    pub fn end_session(&mut self, t: &String) -> (changed: bool)
        requires
            old(self).wf(),
        ensures
            final(self)@ == spec_end_session(old(self)@, t@),
            final(self).wf(),
            changed == (final(self)@ != old(self)@),
    {
        match self.find(t) {
            Some(i) => {
                proof {
                    lemma_first_match_is_index(self@, t@, i as int);
                }
                let slen = self.entries[i].1.len();
                if slen > 0 && self.entries[i].1[slen - 1] > 0 {
                    let (name, mut s) = self.entries.remove(i);
                    s.push(0);
                    self.entries.insert(i, (name, s));
                    proof {
                        assert(final(self)@ =~= spec_end_session(old(self)@, t@));
                        lemma_wf_update(old(self)@, t@, i as int, s@);
                        assert(final(self)@[i as int].1.len() == old(self)@[i as int].1.len() + 1);
                        assert(final(self)@ != old(self)@);
                    }
                    true
                } else {
                    false
                }
            },
            None => {
                proof {
                    lemma_no_match_no_topic(self@, t@);
                }
                false
            },
        }
    }

    /// An equal copy of the ledger.
    pub fn duplicate(&self) -> (r: DayLedger)
        ensures
            r@ == self@,
    {
        let mut entries: Vec<(String, Vec<u32>)> = Vec::new();
        let n = self.entries.len();
        let mut i: usize = 0;
        while i < n
            invariant
                n == self@.len(),
                0 <= i <= n,
                entries@.len() == i,
                forall|j: int| 0 <= j < i ==> (entries@[j].0@, entries@[j].1@) == self@[j],
            decreases n - i,
        {
            let name = clone_string(&self.entries[i].0);
            let mut s: Vec<u32> = Vec::new();
            let slen = self.entries[i].1.len();
            let mut k: usize = 0;
            while k < slen
                invariant
                    slen == self@[i as int].1.len(),
                    i < self@.len(),
                    0 <= k <= slen,
                    s@ == self@[i as int].1.take(k as int),
                decreases slen - k,
            {
                s.push(self.entries[i].1[k]);
                proof {
                    assert(s@ =~= self@[i as int].1.take(k as int + 1));
                }
                k = k + 1;
            }
            proof {
                assert(s@ =~= self@[i as int].1);
            }
            entries.push((name, s));
            i = i + 1;
        }
        let r = DayLedger { entries };
        proof {
            assert(r@ =~= self@);
        }
        r
    }
}

/// A copy of a string with the same characters.
fn clone_string(s: &String) -> (r: String)
    ensures
        r@ == s@,
{
    s.clone()
}

/// Updating the sessions of entry `i` to a well-formed list keeps the ledger
/// well-formed.
proof fn lemma_wf_update(m: LedgerModel, t: Seq<char>, i: int, s: Seq<u32>)
    requires
        ledger_wf(m),
        0 <= i < m.len(),
        m[i].0 == t,
        sessions_wf(s),
    ensures
        ledger_wf(m.update(i, (t, s))),
{
}

/// Appending an entry with a fresh topic keeps the ledger well-formed.
proof fn lemma_wf_push(m: LedgerModel, t: Seq<char>, s: Seq<u32>)
    requires
        ledger_wf(m),
        forall|j: int| 0 <= j < m.len() ==> m[j].0 != t,
        sessions_wf(s),
    ensures
        ledger_wf(m.push((t, s))),
{
}

/// Removing an entry keeps the ledger well-formed.
proof fn lemma_wf_remove(m: LedgerModel, i: int)
    requires
        ledger_wf(m),
        0 <= i < m.len(),
    ensures
        ledger_wf(m.remove(i)),
{
}

/// A first match is unique, so it is the chosen `topic_index`.
pub proof fn lemma_first_match_is_index(m: LedgerModel, t: Seq<char>, i: int)
    requires
        first_match(m, t, i),
    ensures
        has_topic(m, t),
        topic_index(m, t) == i,
{
    let k = topic_index(m, t);
    assert(first_match(m, t, k));
    if k < i {
        assert(m[k].0 != t);
    } else if i < k {
        assert(m[i].0 != t);
    }
}

/// When no entry carries topic `t`, the ledger has no entry for it.
pub proof fn lemma_no_match_no_topic(m: LedgerModel, t: Seq<char>)
    requires
        forall|j: int| 0 <= j < m.len() ==> m[j].0 != t,
    ensures
        !has_topic(m, t),
{
}

/// When the ledger has no entry for `t`, no entry carries topic `t`.
pub proof fn lemma_no_topic_no_match(m: LedgerModel, t: Seq<char>)
    requires
        !has_topic(m, t),
    ensures
        forall|j: int| 0 <= j < m.len() ==> m[j].0 != t,
{
    assert forall|j: int| 0 <= j < m.len() implies m[j].0 != t by {
        if m[j].0 == t {
            lemma_has_topic_from_match(m, t, j);
        }
    }
}

/// After updating entry `i` (the entry of `t`) to sessions `s`, the entry of
/// `t` is still entry `i` and carries `s`.
pub proof fn lemma_index_after_update(m: LedgerModel, t: Seq<char>, i: int, s: Seq<u32>)
    requires
        first_match(m, t, i),
    ensures
        has_topic(m.update(i, (t, s)), t),
        topic_index(m.update(i, (t, s)), t) == i,
        topic_sessions(m.update(i, (t, s)), t) == s,
{
    let m2 = m.update(i, (t, s));
    assert(first_match(m2, t, i));
    lemma_first_match_is_index(m2, t, i);
}

/// After appending a fresh entry for `t`, the entry of `t` is the last one.
pub proof fn lemma_index_after_push(m: LedgerModel, t: Seq<char>, s: Seq<u32>)
    requires
        forall|j: int| 0 <= j < m.len() ==> m[j].0 != t,
    ensures
        has_topic(m.push((t, s)), t),
        topic_index(m.push((t, s)), t) == m.len(),
        topic_sessions(m.push((t, s)), t) == s,
{
    let m2 = m.push((t, s));
    assert(first_match(m2, t, m.len() as int));
    lemma_first_match_is_index(m2, t, m.len() as int);
}

/// Removing the entry of `t` from a well-formed ledger leaves `t` absent.
pub proof fn lemma_absent_after_remove(m: LedgerModel, t: Seq<char>, i: int)
    requires
        ledger_wf(m),
        first_match(m, t, i),
    ensures
        !has_topic(m.remove(i), t),
        spec_active(m.remove(i), t) == 0,
        topic_total(m.remove(i), t) == 0,
{
    let m2 = m.remove(i);
    assert forall|j: int| 0 <= j < m2.len() implies m2[j].0 != t by {
        if j < i {
            assert(m2[j] == m[j]);
        } else {
            assert(m2[j] == m[j + 1]);
            assert(m[i].0 != m[j + 1].0);
        }
    }
    lemma_no_match_no_topic(m2, t);
}

/// Session-count sums are never negative.
pub proof fn lemma_sum_nonneg(s: Seq<u32>)
    ensures
        sum(s) >= 0,
    decreases s.len(),
{
    if s.len() > 0 {
        lemma_sum_nonneg(s.drop_last());
    }
}

/// The last session count is at most the sum of all of them.
pub proof fn lemma_last_le_sum(s: Seq<u32>)
    requires
        s.len() > 0,
    ensures
        s.last() <= sum(s),
{
    lemma_sum_nonneg(s.drop_last());
}

/// Raising the last count by `n` raises the sum by `n`.
pub proof fn lemma_sum_bump(s: Seq<u32>, n: int)
    requires
        s.len() >= 1,
        0 <= s.last() + n <= u32::MAX,
    ensures
        sum(bump_last(s, n)) == sum(s) + n,
{
    let s2 = bump_last(s, n);
    assert(s2.drop_last() =~= s.drop_last());
    assert(s2.last() == s.last() + n);
}

/// Unwinding a decrement of `d` lowers the total by `d`, floored at zero.
pub proof fn lemma_unwind_total(s: Seq<u32>, d: int)
    requires
        d >= 0,
    ensures
        sum(unwind(s, d)) == if sum(s) >= d {
            sum(s) - d
        } else {
            0
        },
    decreases s.len(),
{
    lemma_sum_nonneg(s);
    if d <= 0 || s.len() == 0 {
    } else if d >= s.last() {
        lemma_unwind_total(s.drop_last(), d - s.last());
    } else {
        lemma_sum_nonneg(s.drop_last());
        lemma_sum_bump(s, -d);
    }
}

/// Unwinding keeps every session before the last strictly positive.
pub proof fn lemma_unwind_wf(s: Seq<u32>, d: int)
    requires
        forall|j: int| 0 <= j < s.len() - 1 ==> s[j] > 0,
    ensures
        unwind(s, d).len() > 0 ==> sessions_wf(unwind(s, d)),
    decreases s.len(),
{
    if d <= 0 || s.len() == 0 {
    } else if d >= s.last() {
        lemma_unwind_wf(s.drop_last(), d - s.last());
    }
}

/// A decrement at least as large as the (positive) total consumes every
/// session.
pub proof fn lemma_unwind_empties(s: Seq<u32>, d: int)
    requires
        forall|j: int| 0 <= j < s.len() - 1 ==> s[j] > 0,
        d >= sum(s),
        d >= 1,
    ensures
        unwind(s, d).len() == 0,
    decreases s.len(),
{
    if s.len() == 0 {
    } else if s.len() == 1 {
        lemma_sum_nonneg(s.drop_last());
        assert(d >= s.last());
        assert(s.drop_last().len() == 0);
        assert(unwind(s, d) == unwind(s.drop_last(), d - s.last()));
        assert(unwind(s.drop_last(), d - s.last()).len() == 0);
    } else {
        lemma_sum_nonneg(s.drop_last());
        assert(d >= s.last());
        lemma_last_le_sum(s.drop_last());
        lemma_unwind_empties(s.drop_last(), d - s.last());
    }
}

/// A reducer step keeps the ledger well-formed.
pub proof fn lemma_apply_delta_wf(m: LedgerModel, t: Seq<char>, n: int)
    requires
        ledger_wf(m),
    ensures
        ledger_wf(spec_apply_delta(m, t, n)),
{
    if n > 0 {
        if has_topic(m, t) {
            let i = topic_index(m, t);
            assert(first_match(m, t, i));
            assert(sessions_wf(m[i].1));
            assert(sessions_wf(bump_last(m[i].1, n)));
            lemma_wf_update(m, t, i, bump_last(m[i].1, n));
        } else {
            lemma_no_topic_no_match(m, t);
            assert(sessions_wf(seq![n as u32]));
            lemma_wf_push(m, t, seq![n as u32]);
        }
    } else if n < 0 {
        if has_topic(m, t) {
            let i = topic_index(m, t);
            assert(first_match(m, t, i));
            assert(sessions_wf(m[i].1));
            let s1 = unwind(m[i].1, -n);
            lemma_unwind_wf(m[i].1, -n);
            if s1.len() == 0 {
                lemma_wf_remove(m, i);
            } else {
                lemma_wf_update(m, t, i, s1);
            }
        }
    }
}

/// Moves a running total by one signed delta, floored at zero: the effect of
/// one reducer step on a topic's total.
pub open spec fn clamp_step(tot: int, n: int) -> int {
    if tot + n >= 0 {
        tot + n
    } else {
        0
    }
}

/// One reducer step moves the topic's total to `clamp_step` of it: up by a
/// positive delta, down by a negative one but never below zero, per the
/// unwind rule (the floor is on the total, not per session). The active
/// count and the total are never negative.
pub proof fn lemma_apply_delta_total(m: LedgerModel, t: Seq<char>, n: int)
    requires
        ledger_wf(m),
        n > 0 ==> spec_active(m, t) + n <= u32::MAX,
    ensures
        topic_total(spec_apply_delta(m, t, n), t) == clamp_step(topic_total(m, t), n),
        topic_total(m, t) >= 0,
{
    lemma_sum_nonneg(topic_sessions(m, t));
    if n > 0 {
        if has_topic(m, t) {
            let i = topic_index(m, t);
            assert(first_match(m, t, i));
            assert(sessions_wf(m[i].1));
            lemma_index_after_update(m, t, i, bump_last(m[i].1, n));
            lemma_sum_bump(m[i].1, n);
        } else {
            lemma_no_topic_no_match(m, t);
            lemma_index_after_push(m, t, seq![n as u32]);
            assert(seq![n as u32].drop_last() =~= Seq::<u32>::empty());
            assert(sum(seq![n as u32]) == n);
        }
    } else if n < 0 {
        if has_topic(m, t) {
            let i = topic_index(m, t);
            assert(first_match(m, t, i));
            assert(sessions_wf(m[i].1));
            let s = m[i].1;
            let s1 = unwind(s, -n);
            lemma_unwind_total(s, -n);
            if s1.len() == 0 {
                lemma_absent_after_remove(m, t, i);
            } else {
                lemma_index_after_update(m, t, i, s1);
                if sum(s) < -n {
                    lemma_unwind_empties(s, -n);
                }
            }
        }
    }
}

/// The active count never exceeds the topic's total (both are sums of
/// non-negative session counts).
pub proof fn lemma_active_le_total(m: LedgerModel, t: Seq<char>)
    ensures
        0 <= spec_active(m, t) <= topic_total(m, t),
{
    let s = topic_sessions(m, t);
    if s.len() > 0 {
        lemma_last_le_sum(s);
    }
}

/// The ledger after a whole sequence of reducer steps on topic `t`.
pub open spec fn run_deltas(m: LedgerModel, t: Seq<char>, ds: Seq<int>) -> LedgerModel
    decreases ds.len(),
{
    if ds.len() == 0 {
        m
    } else {
        run_deltas(spec_apply_delta(m, t, ds[0]), t, ds.drop_first())
    }
}

/// A running total folded through `clamp_step`: each delta is applied in
/// turn, flooring at zero.
pub open spec fn clamp_net(tot: int, ds: Seq<int>) -> int
    decreases ds.len(),
{
    if ds.len() == 0 {
        tot
    } else {
        clamp_net(clamp_step(tot, ds[0]), ds.drop_first())
    }
}

/// Every positive delta of the sequence keeps the running total within
/// `u32`, so no increment overflows a session count.
pub open spec fn deltas_fit(tot: int, ds: Seq<int>) -> bool
    decreases ds.len(),
{
    if ds.len() == 0 {
        true
    } else {
        &&& (ds[0] > 0 ==> tot + ds[0] <= u32::MAX)
        &&& deltas_fit(clamp_step(tot, ds[0]), ds.drop_first())
    }
}

/// Over any sequence of increments and decrements, a topic's total equals
/// the deltas folded with a floor of zero at each step (the unwind rule's
/// floor is on the total, not per session), and it never goes negative.
pub proof fn lemma_run_deltas_total(m: LedgerModel, t: Seq<char>, ds: Seq<int>)
    requires
        ledger_wf(m),
        deltas_fit(topic_total(m, t), ds),
    ensures
        ledger_wf(run_deltas(m, t, ds)),
        topic_total(run_deltas(m, t, ds), t) == clamp_net(topic_total(m, t), ds),
        topic_total(run_deltas(m, t, ds), t) >= 0,
    decreases ds.len(),
{
    lemma_sum_nonneg(topic_sessions(run_deltas(m, t, ds), t));
    if ds.len() > 0 {
        lemma_active_le_total(m, t);
        lemma_apply_delta_total(m, t, ds[0]);
        lemma_apply_delta_wf(m, t, ds[0]);
        lemma_run_deltas_total(spec_apply_delta(m, t, ds[0]), t, ds.drop_first());
    }
}

/// Decrementing a topic by exactly its (positive) grand total removes the
/// topic from the ledger, and its active count reads as zero afterward.
pub proof fn lemma_decrement_by_total_removes(m: LedgerModel, t: Seq<char>)
    requires
        ledger_wf(m),
        topic_total(m, t) > 0,
    ensures
        !has_topic(spec_apply_delta(m, t, -topic_total(m, t)), t),
        spec_active(spec_apply_delta(m, t, -topic_total(m, t)), t) == 0,
{
    if !has_topic(m, t) {
        assert(topic_total(m, t) == 0);
    }
    let i = topic_index(m, t);
    assert(first_match(m, t, i));
    assert(sessions_wf(m[i].1));
    lemma_unwind_empties(m[i].1, topic_total(m, t));
    lemma_absent_after_remove(m, t, i);
}

/// Ending a session twice with no intervening increment is a no-op the
/// second time: the freshly appended session holds a zero count, so the
/// session list (and its length) is unchanged.
pub proof fn lemma_end_session_idempotent(m: LedgerModel, t: Seq<char>)
    requires
        ledger_wf(m),
    ensures
        spec_end_session(spec_end_session(m, t), t) == spec_end_session(m, t),
{
    if has_topic(m, t) && topic_sessions(m, t).len() > 0 && topic_sessions(m, t).last() > 0 {
        let i = topic_index(m, t);
        assert(first_match(m, t, i));
        lemma_index_after_update(m, t, i, m[i].1.push(0u32));
        assert(topic_sessions(spec_end_session(m, t), t).last() == 0);
    }
}

/// Any match of `t` somewhere in the ledger yields a first match.
pub proof fn lemma_has_topic_from_match(m: LedgerModel, t: Seq<char>, j: int)
    requires
        0 <= j < m.len(),
        m[j].0 == t,
    ensures
        has_topic(m, t),
    decreases j,
{
    if forall|k: int| 0 <= k < j ==> m[k].0 != t {
        assert(first_match(m, t, j));
    } else {
        let k = choose|k: int| 0 <= k < j && m[k].0 == t;
        lemma_has_topic_from_match(m, t, k);
    }
}

} // verus!

//! The weekly aggregator. For the seven days of a chosen week it loads each
//! day's persisted ledger (an absent day is an empty ledger, not an error)
//! and folds it: per topic a display-ready breakdown string and a total, per
//! day a total, and a week grand total. The aggregator only reads; it is a
//! pure function of the persisted state.

use vstd::prelude::*;
use vstd::string::{StrSliceExecFns, StringExecFns};
use crate::clock::{
    day_name, key_of_day, spec_day_name, spec_key_of_day, spec_week_in_range, spec_week_start_day,
    week_start_day, DAY_OFFSET_MS,
};
use crate::digits::{spec_dec, u64_to_string};
use crate::ledger::{sum, DayLedger, LedgerModel};
use crate::store::{store_lookup, LedgerStore, StoreModel};

verus! {

/// The model of one topic's line in a day card.
pub struct TopicLineModel {
    /// The topic name.
    pub topic: Seq<char>,
    /// The breakdown string: the first session count, then " + count" for
    /// each later session whose count is not zero.
    pub display: Seq<char>,
    /// The sum of all the topic's session counts, omitted ones included.
    pub total: int,
}

/// The model of one day of the summary.
pub struct DayModel {
    /// The day-bucket key the ledger was loaded under.
    pub key: Seq<char>,
    /// The fixed day label.
    pub label: Seq<char>,
    /// One line per topic, in the ledger's entry order.
    pub lines: Seq<TopicLineModel>,
    /// The sum of all topic totals of the day.
    pub total: int,
}

/// The model of a whole week summary.
pub struct WeekModel {
    /// The seven days, anchor Saturday first.
    pub days: Seq<DayModel>,
    /// The week grand total: the sum of the day totals.
    pub total: int,
}

/// The trailing part of a breakdown string, from session position `i` on:
/// " + count" for each session with a nonzero count, zero counts skipped.
pub open spec fn spec_display_tail(s: Seq<u32>, i: int) -> Seq<char>
    decreases s.len() - i,
{
    if i < 0 || i >= s.len() {
        Seq::empty()
    } else {
        (if s[i] > 0 {
            " + "@ + spec_dec(s[i] as int)
        } else {
            Seq::empty()
        }) + spec_display_tail(s, i + 1)
    }
}

/// The breakdown string of one topic's session counts: the first count is
/// always shown, later counts only when nonzero.
pub open spec fn spec_display(s: Seq<u32>) -> Seq<char> {
    if s.len() == 0 {
        Seq::empty()
    } else {
        spec_dec(s[0] as int) + spec_display_tail(s, 1)
    }
}

/// The topic lines of one day ledger, in entry order.
pub open spec fn spec_day_lines(m: LedgerModel) -> Seq<TopicLineModel> {
    Seq::new(
        m.len(),
        |i: int| TopicLineModel { topic: m[i].0, display: spec_display(m[i].1), total: sum(m[i].1) },
    )
}

/// The sum of the totals of the first `i` entries of a ledger.
pub open spec fn ledger_total_upto(m: LedgerModel, i: int) -> int
    decreases i,
{
    if i <= 0 {
        0
    } else {
        ledger_total_upto(m, i - 1) + sum(m[i - 1].1)
    }
}

/// A day's total: the sum of all its topics' totals.
pub open spec fn spec_ledger_total(m: LedgerModel) -> int {
    ledger_total_upto(m, m.len() as int)
}

/// The ledger used for key `k`: the persisted one, or empty when absent.
pub open spec fn spec_day_ledger(st: StoreModel, k: Seq<char>) -> LedgerModel {
    match store_lookup(st, k) {
        Some(l) => l,
        None => Seq::empty(),
    }
}

/// The model of day `i` (0 through 6) of the summarised week.
pub open spec fn spec_day_model(st: StoreModel, now: int, w: int, i: int) -> DayModel {
    let key = spec_key_of_day(spec_week_start_day(now, w) + i);
    let led = spec_day_ledger(st, key);
    DayModel {
        key: key,
        label: spec_day_name(i),
        lines: spec_day_lines(led),
        total: spec_ledger_total(led),
    }
}

/// The sum of the totals of the first `i` days of the summarised week.
pub open spec fn week_total_upto(st: StoreModel, now: int, w: int, i: int) -> int
    decreases i,
{
    if i <= 0 {
        0
    } else {
        week_total_upto(st, now, w, i - 1) + spec_day_model(st, now, w, i - 1).total
    }
}

/// The week grand total.
pub open spec fn spec_week_total(st: StoreModel, now: int, w: int) -> int {
    week_total_upto(st, now, w, 7)
}

/// The full model of the summary of week `w` as seen from instant `now`.
pub open spec fn spec_week_model(st: StoreModel, now: int, w: int) -> WeekModel {
    WeekModel {
        days: Seq::new(7, |i: int| spec_day_model(st, now, w, i)),
        total: spec_week_total(st, now, w),
    }
}

/// One topic's line of a day card.
pub struct TopicLine {
    /// The topic name.
    pub topic: String,
    /// The display-ready breakdown string.
    pub display: String,
    /// The topic's total for the day.
    pub total: u64,
}

impl View for TopicLine {
    type V = TopicLineModel;

    open spec fn view(&self) -> TopicLineModel {
        TopicLineModel { topic: self.topic@, display: self.display@, total: self.total as int }
    }
}

/// One day of the week summary.
pub struct DaySummary {
    /// The day-bucket key.
    pub key: String,
    /// The fixed day label.
    pub label: String,
    /// One line per topic of the day's ledger.
    pub lines: Vec<TopicLine>,
    /// The day's total.
    pub total: u64,
}

impl View for DaySummary {
    type V = DayModel;

    open spec fn view(&self) -> DayModel {
        DayModel {
            key: self.key@,
            label: self.label@,
            lines: Seq::new(self.lines@.len(), |i: int| self.lines@[i]@),
            total: self.total as int,
        }
    }
}

/// A whole week summary: seven day cards and a grand total.
pub struct WeekSummary {
    /// The seven days, anchor Saturday first.
    pub days: Vec<DaySummary>,
    /// The week grand total.
    pub total: u64,
}

impl View for WeekSummary {
    type V = WeekModel;

    open spec fn view(&self) -> WeekModel {
        WeekModel {
            days: Seq::new(self.days@.len(), |i: int| self.days@[i]@),
            total: self.total as int,
        }
    }
}

/// Builds the breakdown string of one topic's session counts.
fn display_of(s: &Vec<u32>) -> (r: String)
    ensures
        r@ == spec_display(s@),
{
    if s.len() == 0 {
        let r = String::new();
        proof {
            assert(r@ =~= spec_display(s@));
        }
        return r;
    }
    let mut r = u64_to_string(s[0] as u64);
    let mut i: usize = 1;
    while i < s.len()
        invariant
            1 <= i <= s@.len(),
            r@ + spec_display_tail(s@, i as int) == spec_display(s@),
        decreases s@.len() - i,
    {
        let ghost r0 = r@;
        if s[i] > 0 {
            r.append(" + ");
            let piece = u64_to_string(s[i] as u64);
            r.append(piece.as_str());
            proof {
                assert(r@ =~= r0 + (" + "@ + spec_dec(s@[i as int] as int)));
            }
        }
        proof {
            assert(r@ + spec_display_tail(s@, i as int + 1) =~= r0 + spec_display_tail(
                s@,
                i as int,
            ));
        }
        i = i + 1;
    }
    proof {
        assert(spec_display_tail(s@, s@.len() as int) =~= Seq::<char>::empty());
        assert(r@ =~= r@ + Seq::<char>::empty());
    }
    r
}

/// Sums one topic's session counts, refusing a sum beyond `u64`.
fn sum_checked(s: &Vec<u32>) -> (r: Option<u64>)
    ensures
        match r {
            Some(v) => v as int == sum(s@),
            None => sum(s@) > u64::MAX,
        },
{
    let mut acc: u64 = 0;
    let mut i: usize = 0;
    while i < s.len()
        invariant
            0 <= i <= s@.len(),
            acc as int == sum(s@.take(i as int)),
        decreases s@.len() - i,
    {
        let c = s[i];
        proof {
            assert(s@.take(i as int + 1).drop_last() =~= s@.take(i as int));
            assert(sum(s@.take(i as int + 1)) == acc + c);
        }
        if c as u64 > u64::MAX - acc {
            proof {
                lemma_sum_take_mono(s@, i as int + 1, s@.len() as int);
                assert(s@.take(s@.len() as int) =~= s@);
            }
            return None;
        }
        acc = acc + c as u64;
        i = i + 1;
    }
    proof {
        assert(s@.take(s@.len() as int) =~= s@);
    }
    Some(acc)
}

/// The sum of a longer prefix is at least the sum of a shorter one.
proof fn lemma_sum_take_mono(s: Seq<u32>, i: int, j: int)
    requires
        0 <= i <= j <= s.len(),
    ensures
        sum(s.take(i)) <= sum(s.take(j)),
    decreases j,
{
    if i < j {
        lemma_sum_take_mono(s, i, j - 1);
        assert(s.take(j).drop_last() =~= s.take(j - 1));
        assert(sum(s.take(j)) == sum(s.take(j - 1)) + s[j - 1]);
    }
}

/// Prefix totals of a ledger grow with the prefix.
proof fn lemma_ledger_total_mono(m: LedgerModel, i: int, j: int)
    requires
        0 <= i <= j <= m.len(),
    ensures
        ledger_total_upto(m, i) <= ledger_total_upto(m, j),
    decreases j,
{
    if i < j {
        lemma_ledger_total_mono(m, i, j - 1);
        crate::ledger::lemma_sum_nonneg(m[j - 1].1);
    }
}

/// Folds one day's ledger into its topic lines and day total, refusing a
/// total beyond `u64`.
fn fold_day(led: &DayLedger) -> (r: Option<(Vec<TopicLine>, u64)>)
    ensures
        match r {
            Some(p) => {
                &&& p.1 as int == spec_ledger_total(led@)
                &&& Seq::new(p.0@.len(), |i: int| p.0@[i]@) == spec_day_lines(led@)
            },
            None => spec_ledger_total(led@) > u64::MAX,
        },
{
    let mut lines: Vec<TopicLine> = Vec::new();
    let mut total: u64 = 0;
    let n = led.len();
    let mut i: usize = 0;
    while i < n
        invariant
            n == led@.len(),
            0 <= i <= n,
            lines@.len() == i,
            total as int == ledger_total_upto(led@, i as int),
            forall|j: int| 0 <= j < i ==> lines@[j]@ == spec_day_lines(led@)[j],
        decreases n - i,
    {
        let topic = led.topic_at(i).clone();
        let s = led.sessions_at(i);
        let display = display_of(s);
        let tot = match sum_checked(s) {
            Some(v) => v,
            None => {
                proof {
                    lemma_ledger_total_mono(led@, 0, i as int);
                    lemma_ledger_total_mono(led@, i as int + 1, led@.len() as int);
                }
                return None;
            },
        };
        if tot > u64::MAX - total {
            proof {
                lemma_ledger_total_mono(led@, i as int + 1, led@.len() as int);
            }
            return None;
        }
        total = total + tot;
        lines.push(TopicLine { topic, display, total: tot });
        i = i + 1;
    }
    proof {
        assert(Seq::new(lines@.len(), |j: int| lines@[j]@) =~= spec_day_lines(led@));
    }
    Some((lines, total))
}

/// Prefix totals of a week grow with the prefix.
proof fn lemma_week_total_mono(st: StoreModel, now: int, w: int, i: int, j: int)
    requires
        0 <= i <= j,
    ensures
        week_total_upto(st, now, w, i) <= week_total_upto(st, now, w, j),
    decreases j,
{
    if i < j {
        lemma_week_total_mono(st, now, w, i, j - 1);
        let led = spec_day_ledger(st, spec_key_of_day(spec_week_start_day(now, w) + (j - 1)));
        lemma_ledger_total_mono(led, 0, led.len() as int);
    }
}

/// The summary of the week `week_offset` weeks before the one holding the
/// instant `now`: seven day cards (anchor Saturday first, absent days
/// summarised as empty) and the week grand total. Returns `None` exactly
/// when the week leaves the representable day range or the grand total
/// exceeds `u64`; the summary is a pure function of the persisted state.
pub fn week_summary(store: &LedgerStore, now: u64, week_offset: i32) -> (r: Option<WeekSummary>)
    requires
        store.wf(),
        now >= DAY_OFFSET_MS,
    ensures
        match r {
            Some(ws) => {
                &&& spec_week_in_range(now as int, week_offset as int)
                &&& spec_week_total(store@, now as int, week_offset as int) <= u64::MAX
                &&& ws@ == spec_week_model(store@, now as int, week_offset as int)
            },
            None => !spec_week_in_range(now as int, week_offset as int) || spec_week_total(
                store@,
                now as int,
                week_offset as int,
            ) > u64::MAX,
        },
{
    let start = match week_start_day(now, week_offset) {
        Some(d) => d,
        None => {
            return None;
        },
    };
    let mut days: Vec<DaySummary> = Vec::new();
    let mut total: u64 = 0;
    let mut i: u64 = 0;
    while i < 7
        invariant
            store.wf(),
            now >= DAY_OFFSET_MS,
            spec_week_in_range(now as int, week_offset as int),
            start == spec_week_start_day(now as int, week_offset as int),
            0 <= i <= 7,
            days@.len() == i,
            total as int == week_total_upto(store@, now as int, week_offset as int, i as int),
            forall|j: int| 0 <= j < i ==> days@[j]@ == spec_day_model(
                store@,
                now as int,
                week_offset as int,
                j,
            ),
        decreases 7 - i,
    {
        let day = start + i;
        let key = key_of_day(day);
        let led = match store.get(&key) {
            Some(l) => l,
            None => DayLedger::new(),
        };
        proof {
            assert(led@ == spec_day_ledger(store@, key@));
        }
        let (lines, dtot) = match fold_day(&led) {
            Some(p) => p,
            None => {
                proof {
                    lemma_week_total_mono(
                        store@,
                        now as int,
                        week_offset as int,
                        0,
                        i as int,
                    );
                    lemma_week_total_mono(
                        store@,
                        now as int,
                        week_offset as int,
                        i as int + 1,
                        7,
                    );
                }
                return None;
            },
        };
        if dtot > u64::MAX - total {
            proof {
                lemma_week_total_mono(store@, now as int, week_offset as int, i as int + 1, 7);
            }
            return None;
        }
        let label = day_name(i as usize).to_owned();
        days.push(DaySummary { key, label, lines, total: dtot });
        total = total + dtot;
        i = i + 1;
    }
    let ws = WeekSummary { days, total };
    proof {
        assert(ws@.days =~= spec_week_model(store@, now as int, week_offset as int).days);
        assert(ws@ == spec_week_model(store@, now as int, week_offset as int));
    }
    Some(ws)
}

/// A week with no persisted day summarises to all day totals zero and a
/// grand total of zero — an absent day is not an error.
pub proof fn lemma_empty_week_zero(st: StoreModel, now: int, w: int)
    requires
        forall|i: int| 0 <= i < 7 ==> (#[trigger] store_lookup(
            st,
            spec_key_of_day(spec_week_start_day(now, w) + i),
        )) is None,
    ensures
        spec_week_model(st, now, w).total == 0,
        forall|i: int| 0 <= i < 7 ==> spec_week_model(st, now, w).days[i].total == 0,
        forall|i: int| 0 <= i < 7 ==> spec_week_model(st, now, w).days[i].lines.len() == 0,
{
    assert forall|i: int| 0 <= i < 7 implies spec_day_model(st, now, w, i).total == 0
        && spec_day_model(st, now, w, i).lines.len() == 0 by {
        let led = spec_day_ledger(st, spec_key_of_day(spec_week_start_day(now, w) + i));
        assert(led =~= Seq::<(Seq<char>, Seq<u32>)>::empty());
    }
    assert(week_total_upto(st, now, w, 0) == 0);
    assert(week_total_upto(st, now, w, 1) == 0);
    assert(week_total_upto(st, now, w, 2) == 0);
    assert(week_total_upto(st, now, w, 3) == 0);
    assert(week_total_upto(st, now, w, 4) == 0);
    assert(week_total_upto(st, now, w, 5) == 0);
    assert(week_total_upto(st, now, w, 6) == 0);
    assert(week_total_upto(st, now, w, 7) == 0);
}

/// The week summary is a pure function of the persisted state: two
/// summaries of the same store, instant and offset are structurally equal.
pub proof fn lemma_week_summary_deterministic(st: StoreModel, now: int, w: int, a: WeekModel, b: WeekModel)
    requires
        a == spec_week_model(st, now, w),
        b == spec_week_model(st, now, w),
    ensures
        a == b,
{
}

} // verus!

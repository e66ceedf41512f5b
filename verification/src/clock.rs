//! Day-bucket arithmetic. An instant (milliseconds since the epoch) is
//! shifted back by a fixed eight-hour offset before the calendar day is cut,
//! so the day boundary falls at 08:00 rather than midnight. A day's key is
//! the decimal string of the day-start timestamp cut to ten characters (the
//! seconds value for present-era timestamps). Weeks are anchored on
//! Saturday: the week start is the most recent Saturday at or before today,
//! shifted back by a whole number of weeks.

use vstd::prelude::*;
use vstd::arithmetic::div_mod::{lemma_div_is_ordered, lemma_fundamental_div_mod};
use vstd::arithmetic::mul::lemma_mul_inequality;
use vstd::string::StrSliceExecFns;
use crate::digits::{spec_dec, u64_to_string};

verus! {

/// Milliseconds in one calendar day.
pub const DAY_MS: u64 = 86_400_000;

/// The fixed offset applied before cutting days: eight hours.
pub const DAY_OFFSET_MS: u64 = 8 * 3_600_000;

/// The largest day index whose day-start timestamp still fits in `u64`.
pub const MAX_DAY: u64 = u64::MAX / 86_400_000;

/// A day key keeps at most this many leading characters of the decimal
/// day-start timestamp.
pub const KEY_LEN: usize = 10;

/// The day index (number of whole offset-shifted days since the epoch) an
/// instant falls in. Meaningful for `t >= DAY_OFFSET_MS`.
pub open spec fn spec_day_index(t: int) -> int {
    (t - DAY_OFFSET_MS) / (DAY_MS as int)
}

/// The key of the day with index `day`: the decimal string of its day-start
/// timestamp, cut to `KEY_LEN` characters.
pub open spec fn spec_key_of_day(day: int) -> Seq<char> {
    let s = spec_dec(day * (DAY_MS as int));
    if s.len() <= KEY_LEN {
        s
    } else {
        s.take(KEY_LEN as int)
    }
}

/// The day key of an instant.
pub open spec fn spec_day_key(t: int) -> Seq<char> {
    spec_key_of_day(spec_day_index(t))
}

/// How many days the given day index lies after its most recent Saturday
/// (the epoch day, index 0, was a Thursday).
pub open spec fn spec_days_past_anchor(day: int) -> int {
    (day + 5) % 7
}

/// The day index of the first day (the anchor Saturday) of the week
/// `week_offset` weeks before the current one.
pub open spec fn spec_week_start_day(t: int, week_offset: int) -> int {
    let day = spec_day_index(t);
    day - spec_days_past_anchor(day) - 7 * week_offset
}

/// The requested week lies wholly within the representable day range.
pub open spec fn spec_week_in_range(t: int, week_offset: int) -> bool {
    &&& t >= DAY_OFFSET_MS
    &&& 0 <= spec_week_start_day(t, week_offset)
    &&& spec_week_start_day(t, week_offset) + 6 <= MAX_DAY
}

/// The day-start timestamp of day index `day` fits in `u64`.
proof fn lemma_day_start_fits(day: u64)
    requires
        day <= MAX_DAY,
    ensures
        day * (DAY_MS as int) <= u64::MAX,
{
    lemma_mul_inequality(day as int, MAX_DAY as int, DAY_MS as int);
    lemma_fundamental_div_mod(u64::MAX as int, DAY_MS as int);
}

/// The day index of any representable instant is at most `MAX_DAY`.
proof fn lemma_day_index_bounded(t: u64)
    requires
        t >= DAY_OFFSET_MS,
    ensures
        0 <= spec_day_index(t as int) <= MAX_DAY,
{
    lemma_div_is_ordered((t - DAY_OFFSET_MS) as int, u64::MAX as int, DAY_MS as int);
}

/// The key of the day with index `day`.
pub fn key_of_day(day: u64) -> (r: String)
    requires
        day <= MAX_DAY,
    ensures
        r@ == spec_key_of_day(day as int),
{
    proof {
        lemma_day_start_fits(day);
    }
    let ms = day * DAY_MS;
    let s = u64_to_string(ms);
    let n = s.as_str().unicode_len();
    if n <= KEY_LEN {
        s
    } else {
        let cut = s.as_str().substring_char(0, KEY_LEN);
        let r = cut.to_owned();
        proof {
            assert(r@ =~= spec_key_of_day(day as int));
        }
        r
    }
}

/// The day-bucket key of an instant: the calendar day is cut after shifting
/// the clock back by the fixed eight-hour offset.
pub fn day_key(t: u64) -> (r: String)
    requires
        t >= DAY_OFFSET_MS,
    ensures
        r@ == spec_day_key(t as int),
{
    proof {
        lemma_day_index_bounded(t);
    }
    let day = (t - DAY_OFFSET_MS) / DAY_MS;
    key_of_day(day)
}

/// The first day (anchor Saturday) of the week `week_offset` weeks back from
/// the instant `now`, or `None` when that week leaves the representable day
/// range. A negative offset (a future week) is accepted.
pub fn week_start_day(now: u64, week_offset: i32) -> (r: Option<u64>)
    requires
        now >= DAY_OFFSET_MS,
    ensures
        match r {
            Some(d) => spec_week_in_range(now as int, week_offset as int) && d
                == spec_week_start_day(now as int, week_offset as int),
            None => !spec_week_in_range(now as int, week_offset as int),
        },
{
    proof {
        lemma_day_index_bounded(now);
    }
    let day = (now - DAY_OFFSET_MS) / DAY_MS;
    let back = (day + 5) % 7;
    let start: i128 = day as i128 - back as i128 - 7 * (week_offset as i128);
    if start >= 0 && start <= (MAX_DAY - 6) as i128 {
        Some(start as u64)
    } else {
        None
    }
}

/// The fixed label of position `i` within a week, position 0 being the
/// anchor Saturday.
pub open spec fn spec_day_name(i: int) -> Seq<char> {
    if i == 0 {
        "Cumartesi"@
    } else if i == 1 {
        " Pazar"@
    } else if i == 2 {
        "Pazartesi"@
    } else if i == 3 {
        "Salı"@
    } else if i == 4 {
        "Çarşamba"@
    } else if i == 5 {
        "Perşembe"@
    } else {
        "Cuma"@
    }
}

/// The hard-coded day labels, aligned to the Saturday week anchor.
pub fn day_name(i: usize) -> (r: &'static str)
    requires
        i < 7,
    ensures
        r@ == spec_day_name(i as int),
{
    if i == 0 {
        "Cumartesi"
    } else if i == 1 {
        " Pazar"
    } else if i == 2 {
        "Pazartesi"
    } else if i == 3 {
        "Salı"
    } else if i == 4 {
        "Çarşamba"
    } else if i == 5 {
        "Perşembe"
    } else {
        "Cuma"
    }
}

} // verus!

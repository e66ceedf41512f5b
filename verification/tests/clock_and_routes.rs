use solvetrack::clock::{day_key, day_name, key_of_day, week_start_day, DAY_OFFSET_MS};
use solvetrack::digits::u64_to_string;
use solvetrack::route::{parse_i32, parse_route, Route};

#[test]
fn decimal_rendering() {
    assert_eq!(u64_to_string(0), "0");
    assert_eq!(u64_to_string(7), "7");
    assert_eq!(u64_to_string(1234567890), "1234567890");
    assert_eq!(u64_to_string(u64::MAX), "18446744073709551615");
}

#[test]
fn day_key_applies_eight_hour_offset() {
    // 2023-11-14 22:13:20 UTC; the shifted day starts at
    // 1_699_920_000_000 ms, whose decimal string cut to ten characters is
    // the seconds value.
    assert_eq!(day_key(1_700_000_000_000), "1699920000");
    // One millisecond before the shifted day boundary falls in the
    // previous day bucket.
    assert_eq!(day_key(1_699_948_799_999), "1699833600");
    assert_eq!(day_key(1_699_948_800_000), "1699920000");
}

#[test]
fn day_key_of_the_epoch_day_is_short() {
    // The very first shifted day starts at 0 ms: fewer than ten digits are
    // kept whole.
    assert_eq!(day_key(DAY_OFFSET_MS), "0");
    assert_eq!(key_of_day(0), "0");
}

#[test]
fn week_start_is_the_most_recent_saturday() {
    // 1_700_000_000_000 ms falls in day 19675 (a Tuesday); the most recent
    // Saturday is day 19672.
    assert_eq!(week_start_day(1_700_000_000_000, 0), Some(19672));
    assert_eq!(week_start_day(1_700_000_000_000, 1), Some(19665));
    assert_eq!(week_start_day(1_700_000_000_000, -1), Some(19679));
    // A Saturday is its own week start.
    assert_eq!(week_start_day(19672 * 86_400_000 + DAY_OFFSET_MS, 0), Some(19672));
}

#[test]
fn week_start_out_of_range_is_refused() {
    assert_eq!(week_start_day(1_700_000_000_000, i32::MAX), None);
    // A far negative offset is still representable: weeks far in the
    // future stay within the day range.
    assert_eq!(week_start_day(1_700_000_000_000, i32::MIN), Some(19672 + 7 * 2147483648));
}

#[test]
fn day_labels_are_anchored_on_saturday() {
    let expected = ["Cumartesi", " Pazar", "Pazartesi", "Salı", "Çarşamba", "Perşembe", "Cuma"];
    let mut i = 0;
    while i < 7 {
        assert_eq!(day_name(i), expected[i]);
        i += 1;
    }
}

#[test]
fn parse_i32_accepts_plain_integers() {
    assert_eq!(parse_i32("42"), Some(42));
    assert_eq!(parse_i32("-7"), Some(-7));
    assert_eq!(parse_i32("+3"), Some(3));
    assert_eq!(parse_i32("0"), Some(0));
    assert_eq!(parse_i32("00042"), Some(42));
    assert_eq!(parse_i32("2147483647"), Some(i32::MAX));
    assert_eq!(parse_i32("-2147483648"), Some(i32::MIN));
}

#[test]
fn parse_i32_rejects_everything_else() {
    assert_eq!(parse_i32(""), None);
    assert_eq!(parse_i32("-"), None);
    assert_eq!(parse_i32("+"), None);
    assert_eq!(parse_i32("abc"), None);
    assert_eq!(parse_i32("3.5"), None);
    assert_eq!(parse_i32("4 2"), None);
    assert_eq!(parse_i32(" 42"), None);
    assert_eq!(parse_i32("2147483648"), None);
    assert_eq!(parse_i32("-2147483649"), None);
    assert_eq!(parse_i32("99999999999999999999"), None);
}

#[test]
fn routes_resolve_like_the_two_screens() {
    assert_eq!(parse_route(&vec![]), Route::Home);
    assert_eq!(parse_route(&vec!["history".to_string()]), Route::History(0));
    assert_eq!(parse_route(&vec!["history".to_string(), "3".to_string()]), Route::History(3));
    assert_eq!(parse_route(&vec!["history".to_string(), "-2".to_string()]), Route::History(-2));
    assert_eq!(parse_route(&vec!["history".to_string(), "3.5".to_string()]), Route::NotFound);
    assert_eq!(parse_route(&vec!["foo".to_string()]), Route::NotFound);
    assert_eq!(
        parse_route(&vec!["history".to_string(), "2".to_string(), "x".to_string()]),
        Route::NotFound
    );
}

use solvetrack::ledger::DayLedger;
use solvetrack::store::LedgerStore;
use solvetrack::week::{week_summary, WeekSummary};

const NOW: u64 = 1_700_000_000_000;

fn assert_week_equal(a: &WeekSummary, b: &WeekSummary) {
    assert_eq!(a.total, b.total);
    assert_eq!(a.days.len(), b.days.len());
    let mut i = 0;
    while i < a.days.len() {
        assert_eq!(a.days[i].key, b.days[i].key);
        assert_eq!(a.days[i].label, b.days[i].label);
        assert_eq!(a.days[i].total, b.days[i].total);
        assert_eq!(a.days[i].lines.len(), b.days[i].lines.len());
        let mut j = 0;
        while j < a.days[i].lines.len() {
            assert_eq!(a.days[i].lines[j].topic, b.days[i].lines[j].topic);
            assert_eq!(a.days[i].lines[j].display, b.days[i].lines[j].display);
            assert_eq!(a.days[i].lines[j].total, b.days[i].lines[j].total);
            j += 1;
        }
        i += 1;
    }
}

#[test]
fn store_round_trip_yields_an_equal_ledger() {
    let mut store = LedgerStore::new();
    let key = "1699660800".to_string();
    let mut led = DayLedger::new();
    let t = "Math".to_string();
    led.apply_delta(&t, 3);
    led.end_session(&t);
    led.apply_delta(&t, 2);
    store.set(&key, &led);
    let got = store.get(&key).unwrap();
    assert_eq!(got.len(), 1);
    assert_eq!(got.topic_at(0).as_str(), "Math");
    assert_eq!(got.sessions_at(0), &vec![3u32, 2u32]);
    // Overwriting the same key replaces the record.
    led.apply_delta(&t, 1);
    store.set(&key, &led);
    let got = store.get(&key).unwrap();
    assert_eq!(got.sessions_at(0), &vec![3u32, 3u32]);
}

#[test]
fn topic_preference_record_round_trips() {
    let mut store = LedgerStore::new();
    assert!(store.get_topic().is_none());
    store.set_topic(&"Math".to_string());
    assert_eq!(store.get_topic().unwrap().as_str(), "Math");
    store.set_topic(&"Fen".to_string());
    assert_eq!(store.get_topic().unwrap().as_str(), "Fen");
    // Day records are untouched by the topic record.
    assert!(store.get(&"1699660800".to_string()).is_none());
}

#[test]
fn store_miss_is_not_an_error() {
    let store = LedgerStore::new();
    assert!(store.get(&"1699660800".to_string()).is_none());
}

#[test]
fn empty_week_sums_to_zero() {
    let store = LedgerStore::new();
    let ws = week_summary(&store, NOW, 0).unwrap();
    assert_eq!(ws.total, 0);
    assert_eq!(ws.days.len(), 7);
    for day in &ws.days {
        assert_eq!(day.total, 0);
        assert!(day.lines.is_empty());
    }
}

#[test]
fn week_summary_folds_days_topics_and_sessions() {
    let mut store = LedgerStore::new();

    // Saturday (day 19672) of the current week: Math [3, 2], Fen [5].
    let mut sat = DayLedger::new();
    let math = "Math".to_string();
    let fen = "Fen".to_string();
    sat.apply_delta(&math, 3);
    sat.end_session(&math);
    sat.apply_delta(&math, 2);
    sat.apply_delta(&fen, 5);
    store.set(&"1699660800".to_string(), &sat);

    // Tuesday (day 19675): Math [4, 0] — a freshly ended session; the
    // trailing zero is skipped in the display but the total keeps it.
    let mut tue = DayLedger::new();
    tue.apply_delta(&math, 4);
    tue.end_session(&math);
    store.set(&"1699920000".to_string(), &tue);

    let ws = week_summary(&store, NOW, 0).unwrap();
    assert_eq!(ws.days.len(), 7);

    assert_eq!(ws.days[0].key, "1699660800");
    assert_eq!(ws.days[0].label, "Cumartesi");
    assert_eq!(ws.days[0].total, 10);
    assert_eq!(ws.days[0].lines.len(), 2);
    assert_eq!(ws.days[0].lines[0].topic, "Math");
    assert_eq!(ws.days[0].lines[0].display, "3 + 2");
    assert_eq!(ws.days[0].lines[0].total, 5);
    assert_eq!(ws.days[0].lines[1].topic, "Fen");
    assert_eq!(ws.days[0].lines[1].display, "5");
    assert_eq!(ws.days[0].lines[1].total, 5);

    assert_eq!(ws.days[1].label, " Pazar");
    assert_eq!(ws.days[1].key, "1699747200");
    assert_eq!(ws.days[1].total, 0);

    assert_eq!(ws.days[3].key, "1699920000");
    assert_eq!(ws.days[3].label, "Salı");
    assert_eq!(ws.days[3].total, 4);
    assert_eq!(ws.days[3].lines.len(), 1);
    assert_eq!(ws.days[3].lines[0].display, "4");
    assert_eq!(ws.days[3].lines[0].total, 4);

    assert_eq!(ws.days[6].key, "1700179200");
    assert_eq!(ws.days[6].label, "Cuma");

    assert_eq!(ws.total, 14);
}

#[test]
fn inner_zero_sessions_are_skipped_in_the_display_only() {
    let mut store = LedgerStore::new();
    let mut led = DayLedger::new();
    let t = "Math".to_string();
    // Build sessions [1, 2]: the first count is always shown.
    led.apply_delta(&t, 1);
    led.end_session(&t);
    led.apply_delta(&t, 2);
    store.set(&"1699660800".to_string(), &led);
    let ws = week_summary(&store, NOW, 0).unwrap();
    assert_eq!(ws.days[0].lines[0].display, "1 + 2");
    assert_eq!(ws.days[0].lines[0].total, 3);
}

#[test]
fn week_summary_is_a_pure_function_of_the_store() {
    let mut store = LedgerStore::new();
    let mut led = DayLedger::new();
    let t = "Math".to_string();
    led.apply_delta(&t, 3);
    store.set(&"1699920000".to_string(), &led);
    let a = week_summary(&store, NOW, 0).unwrap();
    let b = week_summary(&store, NOW, 0).unwrap();
    assert_week_equal(&a, &b);
}

#[test]
fn previous_week_reads_its_own_days() {
    let mut store = LedgerStore::new();
    let mut led = DayLedger::new();
    let t = "Math".to_string();
    led.apply_delta(&t, 9);
    // Day 19665: the Saturday one week before.
    store.set(&"1699056000".to_string(), &led);
    let this_week = week_summary(&store, NOW, 0).unwrap();
    assert_eq!(this_week.total, 0);
    let last_week = week_summary(&store, NOW, 1).unwrap();
    assert_eq!(last_week.total, 9);
    assert_eq!(last_week.days[0].key, "1699056000");
}

#[test]
fn out_of_range_week_offset_is_refused() {
    let store = LedgerStore::new();
    assert!(week_summary(&store, NOW, i32::MAX).is_none());
}

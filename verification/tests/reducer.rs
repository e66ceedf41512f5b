use solvetrack::ledger::DayLedger;

fn topic(s: &str) -> String {
    s.to_string()
}

#[test]
fn scenario_increment_end_decrement() {
    let mut led = DayLedger::new();
    let math = topic("Math");
    led.apply_delta(&math, 3);
    assert_eq!(led.active_count(&math), 3);
    assert_eq!(led.sessions_completed(&math), 0);
    let changed = led.end_session(&math);
    assert!(changed);
    assert_eq!(led.sessions_completed(&math), 1);
    assert_eq!(led.active_count(&math), 0);
    led.apply_delta(&math, 2);
    assert_eq!(led.active_count(&math), 2);
    // Sessions are [3, 2]; decrementing 4 unwinds the active session and
    // pulls 2 more from the prior one, leaving [1].
    led.apply_delta(&math, -4);
    assert_eq!(led.len(), 1);
    assert_eq!(led.active_count(&math), 1);
    assert_eq!(led.sessions_completed(&math), 0);
    assert_eq!(led.sessions_at(0), &vec![1u32]);
}

#[test]
fn exactly_consumed_session_is_popped() {
    let mut led = DayLedger::new();
    let t = topic("Math");
    led.apply_delta(&t, 3);
    led.end_session(&t);
    led.apply_delta(&t, 2);
    // Sessions are [3, 2]; decrementing exactly 2 pops the emptied session.
    led.apply_delta(&t, -2);
    assert_eq!(led.sessions_at(0), &vec![3u32]);
    assert_eq!(led.sessions_completed(&t), 0);
    assert_eq!(led.active_count(&t), 3);
}

#[test]
fn decrement_by_grand_total_removes_topic() {
    let mut led = DayLedger::new();
    let t = topic("Math");
    led.apply_delta(&t, 3);
    led.end_session(&t);
    led.apply_delta(&t, 2);
    led.apply_delta(&t, -5);
    assert_eq!(led.len(), 0);
    assert_eq!(led.active_count(&t), 0);
    assert_eq!(led.sessions_completed(&t), 0);
}

#[test]
fn decrement_beyond_total_removes_topic() {
    let mut led = DayLedger::new();
    let t = topic("Math");
    led.apply_delta(&t, 3);
    led.apply_delta(&t, -7);
    assert_eq!(led.len(), 0);
    assert_eq!(led.active_count(&t), 0);
}

#[test]
fn decrement_absent_topic_is_a_no_op() {
    let mut led = DayLedger::new();
    let t = topic("Math");
    led.apply_delta(&t, -2);
    assert_eq!(led.len(), 0);
    assert_eq!(led.active_count(&t), 0);
}

#[test]
fn zero_delta_is_a_no_op() {
    let mut led = DayLedger::new();
    let t = topic("Math");
    led.apply_delta(&t, 0);
    assert_eq!(led.len(), 0);
    led.apply_delta(&t, 3);
    led.end_session(&t);
    led.apply_delta(&t, 0);
    assert_eq!(led.sessions_at(0), &vec![3u32, 0u32]);
    assert_eq!(led.sessions_completed(&t), 1);
}

#[test]
fn increment_absent_topic_creates_one_session() {
    let mut led = DayLedger::new();
    let t = topic("Fen");
    led.apply_delta(&t, 5);
    assert_eq!(led.len(), 1);
    assert_eq!(led.topic_at(0).as_str(), "Fen");
    assert_eq!(led.sessions_at(0), &vec![5u32]);
}

#[test]
fn end_session_is_idempotent() {
    let mut led = DayLedger::new();
    let t = topic("Math");
    led.apply_delta(&t, 3);
    assert!(led.end_session(&t));
    let len_after_first = led.sessions_at(0).len();
    assert!(!led.end_session(&t));
    assert_eq!(led.sessions_at(0).len(), len_after_first);
    assert_eq!(led.sessions_at(0), &vec![3u32, 0u32]);
}

#[test]
fn end_session_on_absent_topic_is_a_no_op() {
    let mut led = DayLedger::new();
    let t = topic("Math");
    assert!(!led.end_session(&t));
    assert_eq!(led.len(), 0);
}

#[test]
fn topics_keep_insertion_order() {
    let mut led = DayLedger::new();
    let a = topic("Math");
    let b = topic("Fen");
    led.apply_delta(&a, 1);
    led.apply_delta(&b, 2);
    led.apply_delta(&a, 1);
    assert_eq!(led.len(), 2);
    assert_eq!(led.topic_at(0).as_str(), "Math");
    assert_eq!(led.topic_at(1).as_str(), "Fen");
    assert_eq!(led.sessions_at(0), &vec![2u32]);
    assert_eq!(led.sessions_at(1), &vec![2u32]);
}

#[test]
fn net_total_floors_at_zero_per_step() {
    // +3, then -5 (floors the total at 0 and removes the topic), then +2:
    // the total is 2, not the clamped net sum 0.
    let mut led = DayLedger::new();
    let t = topic("Math");
    led.apply_delta(&t, 3);
    led.apply_delta(&t, -5);
    assert_eq!(led.active_count(&t), 0);
    led.apply_delta(&t, 2);
    assert_eq!(led.active_count(&t), 2);
    assert_eq!(led.sessions_at(0), &vec![2u32]);
}

#[test]
fn duplicate_is_equal() {
    let mut led = DayLedger::new();
    let t = topic("Math");
    led.apply_delta(&t, 3);
    led.end_session(&t);
    let copy = led.duplicate();
    assert_eq!(copy.len(), 1);
    assert_eq!(copy.topic_at(0).as_str(), "Math");
    assert_eq!(copy.sessions_at(0), &vec![3u32, 0u32]);
}

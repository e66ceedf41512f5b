use solvetrack::ledger::DayLedger;
use solvetrack::route::Route;
use solvetrack::state::{Action, AppState, Event};

#[test]
fn init_defaults_topic_and_ledger() {
    let st = AppState::init(None, None, Route::Home);
    assert_eq!(st.topic.as_str(), "Ödev");
    assert_eq!(st.today.len(), 0);
    assert_eq!(st.route, Route::Home);
    assert!(!st.hold_pending);
}

#[test]
fn init_keeps_saved_topic_and_ledger() {
    let mut led = DayLedger::new();
    let t = "Math".to_string();
    led.apply_delta(&t, 2);
    let st = AppState::init(Some("Math".to_string()), Some(led), Route::History(0));
    assert_eq!(st.topic.as_str(), "Math");
    assert_eq!(st.today.active_count(&t), 2);
    assert_eq!(st.route, Route::History(0));
}

#[test]
fn topic_and_increment_events() {
    let mut st = AppState::init(None, None, Route::Home);
    assert_eq!(st.step(Event::TopicEntered("Math".to_string())), Action::PersistTopic);
    assert_eq!(st.topic.as_str(), "Math");
    assert_eq!(st.step(Event::Increment(3)), Action::PersistDay);
    assert_eq!(st.today.active_count(&"Math".to_string()), 3);
    assert_eq!(st.step(Event::Increment(-1)), Action::PersistDay);
    assert_eq!(st.today.active_count(&"Math".to_string()), 2);
}

#[test]
fn end_session_event_persists_only_on_change() {
    let mut st = AppState::init(None, None, Route::Home);
    st.step(Event::TopicEntered("Math".to_string()));
    // Ending with no recorded count is a no-op.
    assert_eq!(st.step(Event::EndSession), Action::Nothing);
    st.step(Event::Increment(3));
    assert_eq!(st.step(Event::EndSession), Action::PersistDay);
    // Ending a freshly ended session is a no-op again.
    assert_eq!(st.step(Event::EndSession), Action::Nothing);
    assert_eq!(st.today.sessions_completed(&"Math".to_string()), 1);
}

#[test]
fn released_hold_delivers_the_default_increment() {
    let mut st = AppState::init(None, None, Route::Home);
    assert_eq!(st.step(Event::HoldStart), Action::StartHoldTimer);
    assert!(st.hold_pending);
    assert_eq!(st.step(Event::HoldRelease), Action::Deliver(1));
    assert!(!st.hold_pending);
    // The caller feeds the delivered delta back in.
    assert_eq!(st.step(Event::Increment(1)), Action::PersistDay);
    assert_eq!(st.today.active_count(&st.topic.clone()), 1);
    // A release with no outstanding hold does nothing.
    assert_eq!(st.step(Event::HoldRelease), Action::Nothing);
}

#[test]
fn elapsed_hold_prompts_and_parses_the_reply() {
    let mut st = AppState::init(None, None, Route::Home);
    st.step(Event::HoldStart);
    assert_eq!(st.step(Event::HoldFired), Action::ShowPrompt);
    assert!(!st.hold_pending);
    assert_eq!(st.step(Event::PromptReply(Some("5".to_string()))), Action::Deliver(5));
    assert_eq!(st.step(Event::Increment(5)), Action::PersistDay);
    assert_eq!(st.today.active_count(&st.topic.clone()), 5);
}

#[test]
fn invalid_prompt_reply_alerts_and_mutates_nothing() {
    let mut st = AppState::init(None, None, Route::Home);
    st.step(Event::HoldStart);
    st.step(Event::HoldFired);
    assert_eq!(st.step(Event::PromptReply(Some("abc".to_string()))), Action::ShowAlert);
    assert_eq!(st.today.len(), 0);
    // A dismissed prompt completes as cancelled.
    assert_eq!(st.step(Event::PromptReply(None)), Action::Nothing);
    assert_eq!(st.today.len(), 0);
}

#[test]
fn negative_prompt_reply_is_invalid_input() {
    // Only a valid non-negative integer becomes the increment; a negative
    // reply is rejected with the alert and mutates nothing.
    let mut st = AppState::init(None, None, Route::Home);
    st.step(Event::Increment(4));
    st.step(Event::HoldStart);
    st.step(Event::HoldFired);
    assert_eq!(st.step(Event::PromptReply(Some("-5".to_string()))), Action::ShowAlert);
    assert_eq!(st.today.active_count(&st.topic.clone()), 4);
    // Zero is a valid non-negative reply.
    assert_eq!(st.step(Event::PromptReply(Some("0".to_string()))), Action::Deliver(0));
}

#[test]
fn empty_topic_entry_is_ignored() {
    let mut st = AppState::init(None, None, Route::Home);
    assert_eq!(st.step(Event::TopicEntered(String::new())), Action::Nothing);
    assert_eq!(st.topic.as_str(), "Ödev");
    assert_eq!(st.step(Event::TopicEntered("Math".to_string())), Action::PersistTopic);
    assert_eq!(st.topic.as_str(), "Math");
    assert_eq!(st.step(Event::TopicEntered(String::new())), Action::Nothing);
    assert_eq!(st.topic.as_str(), "Math");
}

#[test]
fn init_replaces_an_empty_saved_topic_with_the_default() {
    let st = AppState::init(Some(String::new()), None, Route::Home);
    assert_eq!(st.topic.as_str(), "Ödev");
}

#[test]
fn navigation_resolves_routes() {
    let mut st = AppState::init(None, None, Route::Home);
    let a = st.step(Event::Navigate(vec!["history".to_string(), "2".to_string()]));
    assert_eq!(a, Action::Nothing);
    assert_eq!(st.route, Route::History(2));
    st.step(Event::Navigate(vec!["nowhere".to_string()]));
    assert_eq!(st.route, Route::NotFound);
    st.step(Event::Navigate(vec![]));
    assert_eq!(st.route, Route::Home);
}

//! The application state machine. Every user-triggered event becomes one
//! call of [`AppState::step`], which updates the in-memory state and tells
//! the caller which outside effect to perform: persist a record, start or
//! drop the hold timer, prompt for a count, show an alert, or feed a
//! resulting increment back in as the next event. The caller runs that
//! loop; all decisions are made here.

use vstd::prelude::*;
use vstd::string::StringExecFns;
use crate::ledger::{
    ledger_wf, spec_active, spec_apply_delta, spec_end_session, DayLedger, LedgerModel,
};
use crate::route::{parse_route, seg_views, spec_parse_i32, spec_route, Route};

verus! {

/// A discrete user-triggered event, handed to [`AppState::step`].
pub enum Event {
    /// The URL changed; the payload is the remaining path segments.
    Navigate(Vec<String>),
    /// The topic text input changed.
    TopicEntered(String),
    /// The increment (positive) or decrement (negative) control fired.
    Increment(i32),
    /// The end-session control fired.
    EndSession,
    /// A press-and-hold gesture began.
    HoldStart,
    /// The hold deadline elapsed with the press still down.
    HoldFired,
    /// The prompt issued after a fired hold came back (`None`: dismissed).
    PromptReply(Option<String>),
    /// The press was released.
    HoldRelease,
}

/// The single outside effect the caller must perform after a step.
#[derive(Clone, Copy, PartialEq, Eq, Structural, Debug)]
pub enum Action {
    /// No effect.
    Nothing,
    /// Persist the current topic string under its fixed key.
    PersistTopic,
    /// Persist today's ledger under today's day key.
    PersistDay,
    /// Schedule the cancellable hold-completion timer.
    StartHoldTimer,
    /// Ask the user for a count (the reply comes back as `PromptReply`).
    ShowPrompt,
    /// Tell the user the entered count was not a number.
    ShowAlert,
    /// Feed this delta back in as an `Increment` event.
    Deliver(i32),
}

/// The in-memory application state: the active topic, today's ledger, the
/// current route, and whether a hold-completion timer is outstanding.
pub struct AppState {
    /// The topic increments and decrements apply to.
    pub topic: String,
    /// Today's ledger, persisted through the store after every mutation.
    pub today: DayLedger,
    /// The view currently shown.
    pub route: Route,
    /// Whether a hold-completion timer is outstanding.
    pub hold_pending: bool,
}

impl AppState {
    /// Structural well-formedness: today's ledger is well-formed and the
    /// topic is a non-empty display string.
    pub open spec fn wf(&self) -> bool {
        &&& ledger_wf(self.today@)
        &&& self.topic@.len() > 0
    }

    /// The startup state: the saved topic (or the fixed default on first
    /// run, or when the saved one is empty), the ledger persisted for
    /// today (or an empty one), the route the application was opened on,
    /// and no outstanding hold timer.
    pub fn init(saved_topic: Option<String>, saved_today: Option<DayLedger>, route: Route) -> (r:
        AppState)
        requires
            match saved_today {
                Some(d) => d.wf(),
                None => true,
            },
        ensures
            r.topic@ == match saved_topic {
                Some(t) => if t@.len() > 0 {
                    t@
                } else {
                    "Ödev"@
                },
                None => "Ödev"@,
            },
            r.today@ == match saved_today {
                Some(d) => d@,
                None => Seq::<(Seq<char>, Seq<u32>)>::empty(),
            },
            r.route == route,
            !r.hold_pending,
            r.wf(),
    {
        proof {
            reveal_strlit("Ödev");
        }
        let topic = match saved_topic {
            Some(t) => {
                if t.as_str().is_empty() {
                    String::from_str("Ödev")
                } else {
                    t
                }
            },
            None => String::from_str("Ödev"),
        };
        let today = match saved_today {
            Some(d) => d,
            None => DayLedger::new(),
        };
        AppState { topic, today, route, hold_pending: false }
    }

    /// Processes one event to completion and names the single outside
    /// effect the caller must perform. Increments and decrements go through
    /// the session reducer against the current topic; an empty topic entry
    /// is ignored (a topic is a non-empty string); ending a session asks
    /// for persistence only when it changed the ledger; the hold gesture
    /// either delivers the fixed default increment (released in time) or
    /// prompts for a count, whose reply is parsed here and delivered only
    /// when it is a valid non-negative integer — anything else is rejected
    /// with an alert and mutates nothing.
    pub fn step(&mut self, ev: Event) -> (a: Action)
        requires
            old(self).wf(),
            match ev {
                Event::Increment(n) => n > 0 ==> spec_active(old(self).today@, old(self).topic@)
                    + n <= u32::MAX,
                _ => true,
            },
        ensures
            final(self).wf(),
            match ev {
                Event::Navigate(segs) => {
                    &&& final(self).route == spec_route(seg_views(segs@))
                    &&& final(self).topic == old(self).topic
                    &&& final(self).today == old(self).today
                    &&& final(self).hold_pending == old(self).hold_pending
                    &&& a == Action::Nothing
                },
                Event::TopicEntered(t) => {
                    &&& (t@.len() == 0 ==> *final(self) == *old(self) && a == Action::Nothing)
                    &&& (t@.len() > 0 ==> {
                        &&& final(self).topic == t
                        &&& final(self).today == old(self).today
                        &&& final(self).route == old(self).route
                        &&& final(self).hold_pending == old(self).hold_pending
                        &&& a == Action::PersistTopic
                    })
                },
                Event::Increment(n) => {
                    &&& final(self).today@ == spec_apply_delta(
                        old(self).today@,
                        old(self).topic@,
                        n as int,
                    )
                    &&& final(self).topic == old(self).topic
                    &&& final(self).route == old(self).route
                    &&& final(self).hold_pending == old(self).hold_pending
                    &&& a == Action::PersistDay
                },
                Event::EndSession => {
                    &&& final(self).today@ == spec_end_session(old(self).today@, old(self).topic@)
                    &&& final(self).topic == old(self).topic
                    &&& final(self).route == old(self).route
                    &&& final(self).hold_pending == old(self).hold_pending
                    &&& a == (if final(self).today@ == old(self).today@ {
                        Action::Nothing
                    } else {
                        Action::PersistDay
                    })
                },
                Event::HoldStart => {
                    &&& final(self).hold_pending
                    &&& final(self).topic == old(self).topic
                    &&& final(self).today == old(self).today
                    &&& final(self).route == old(self).route
                    &&& a == Action::StartHoldTimer
                },
                Event::HoldFired => {
                    &&& !final(self).hold_pending
                    &&& final(self).topic == old(self).topic
                    &&& final(self).today == old(self).today
                    &&& final(self).route == old(self).route
                    &&& a == Action::ShowPrompt
                },
                Event::PromptReply(reply) => {
                    &&& *final(self) == *old(self)
                    &&& a == (match reply {
                        Some(s) => match spec_parse_i32(s@) {
                            Some(v) => if v >= 0 {
                                Action::Deliver(v as i32)
                            } else {
                                Action::ShowAlert
                            },
                            None => Action::ShowAlert,
                        },
                        None => Action::Nothing,
                    })
                },
                Event::HoldRelease => {
                    &&& !final(self).hold_pending
                    &&& final(self).topic == old(self).topic
                    &&& final(self).today == old(self).today
                    &&& final(self).route == old(self).route
                    &&& a == (if old(self).hold_pending {
                        Action::Deliver(1)
                    } else {
                        Action::Nothing
                    })
                },
            },
    {
        match ev {
            Event::Navigate(segs) => {
                self.route = parse_route(&segs);
                Action::Nothing
            },
            Event::TopicEntered(t) => {
                if t.as_str().is_empty() {
                    Action::Nothing
                } else {
                    self.topic = t;
                    Action::PersistTopic
                }
            },
            Event::Increment(n) => {
                let topic = clone_topic(&self.topic);
                self.today.apply_delta(&topic, n);
                proof {
                    assert(final(self).today@ == spec_apply_delta(
                        old(self).today@,
                        old(self).topic@,
                        n as int,
                    ));
                }
                Action::PersistDay
            },
            Event::EndSession => {
                let topic = clone_topic(&self.topic);
                let changed = self.today.end_session(&topic);
                if changed {
                    Action::PersistDay
                } else {
                    Action::Nothing
                }
            },
            Event::HoldStart => {
                self.hold_pending = true;
                Action::StartHoldTimer
            },
            Event::HoldFired => {
                self.hold_pending = false;
                Action::ShowPrompt
            },
            Event::PromptReply(reply) => {
                match reply {
                    Some(s) => match crate::route::parse_i32(s.as_str()) {
                        Some(v) => {
                            if v >= 0 {
                                Action::Deliver(v)
                            } else {
                                Action::ShowAlert
                            }
                        },
                        None => Action::ShowAlert,
                    },
                    None => Action::Nothing,
                }
            },
            Event::HoldRelease => {
                let was_pending = self.hold_pending;
                self.hold_pending = false;
                if was_pending {
                    Action::Deliver(1)
                } else {
                    Action::Nothing
                }
            },
        }
    }
}

/// A copy of the topic string with the same characters.
fn clone_topic(s: &String) -> (r: String)
    ensures
        r@ == s@,
{
    s.clone()
}

} // verus!

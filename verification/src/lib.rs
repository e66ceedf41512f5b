//! A verified solve-count ledger for a personal study tracker.
//!
//! The library keeps, per calendar day, a ledger that maps a study topic to
//! the ordered sequence of per-session solve counts. Its core pieces are the
//! session reducer (a signed increment that unwinds partially filled test
//! sessions when a decrement exceeds the active session), the day-bucket
//! clock arithmetic, a key-value ledger store, and the weekly aggregator
//! that folds seven persisted days into per-day and week totals.

pub mod clock;
pub mod digits;
pub mod ledger;
pub mod route;
pub mod state;
pub mod store;
pub mod week;

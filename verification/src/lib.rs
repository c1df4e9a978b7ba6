//! Core of a birthday-notification service for group chats.
//!
//! The library holds the verified logic: the record store with its
//! uniqueness invariant, the time-zone precedence rule, the UTF-16
//! message composer, the daily wake-up computation, the per-recipient
//! failure classification of a dispatch run, and the localized label
//! table with its fallback rule.  Network and disk access live outside
//! the library and talk to it through plain values.

pub mod commands;
pub mod compose;
pub mod dispatch;
pub mod lang;
pub mod lookup;
pub mod schedule;
pub mod store;
pub mod text;

pub use store::Birthday;
pub use store::Database;
pub use store::RemoveBirthday;

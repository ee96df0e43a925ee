//! The synchronization core of a calendar-to-channel bot: change detection
//! over fetched event lists, grouping of subscriptions by rendering options,
//! the edit-or-create message reconciliation machine, and the rendering of
//! event lists into display sections.
pub mod calendar;
pub mod dates;
pub mod diff;
pub mod events;
pub mod fmt;
pub mod laws;
pub mod models;
pub mod parse;
pub mod reconcile;
pub mod render;
pub mod sync;
pub mod tz;
pub mod verify_id;

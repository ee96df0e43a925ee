//! Messages exchanged between the poller, the reconciliation worker, and the
//! command layer.
use vstd::prelude::*;

use crate::calendar::{CalendarEvent, CalendarOptions};

verus! {

/// A request to check that a calendar id names a valid and reachable
/// calendar.
pub struct VerifyCalendarEvent {
    pub calendar_id: String,
}

/// One update task: everything the reconciliation worker needs to bring one
/// group of channels up to date with a calendar.
#[derive(Clone, Debug)]
pub struct UpdateCalendarEvent {
    pub calendar_id: String,
    pub new_events: Vec<CalendarEvent>,
    pub calendar_options: CalendarOptions,
    pub discord_channel_and_message_ids: Vec<(u64, Option<u64>)>,
}

} // verus!

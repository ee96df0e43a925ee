//! Rows of the configuration store, as the core reads and writes them.
#![allow(non_snake_case)]
use vstd::prelude::*;

verus! {

/// A tracked calendar: a row binding an internal id to the provider's
/// calendar id.
#[derive(Debug, Clone)]
pub struct Calendar {
    pub id: i32,
    pub googleId: String,
}

/// A guild known to the store.
#[derive(Debug, Clone)]
pub struct Guild {
    pub id: i32,
    pub discordId: String,
}

/// A subscription: one channel attached to a calendar, with its display
/// configuration and the id of the last message written to the channel.
#[derive(Debug, Clone)]
pub struct GuildCalendar {
    pub guild_id: i32,
    pub calendar_id: i32,
    pub channelId: String,
    pub messageId: Option<String>,
    pub forceUpdate: bool,
    pub timezone: String,
    pub pollInterval: i32,
    pub nbDisplayedDays: i32,
    pub skipWeekend: bool,
    pub skipEmptyDays: bool,
}

pub open spec fn spec_opt_string_view(o: Option<String>) -> Option<Seq<char>> {
    match o {
        Some(s) => Some(s@),
        None => None,
    }
}

/// Merge a settings change into a subscription row: absent fields keep their
/// stored value, and any change raises the force-update flag so the next
/// poll re-delivers the message.
pub exec fn apply_settings(
    base: GuildCalendar,
    timezone: Option<String>,
    nb_displayed_days: Option<i32>,
    skip_weekends: Option<bool>,
    skip_empty_days: Option<bool>,
) -> (r: GuildCalendar)
    ensures
        r.timezone@ == (match timezone {
            Some(t) => t@,
            None => base.timezone@,
        }),
        r.nbDisplayedDays == (match nb_displayed_days {
            Some(n) => n,
            None => base.nbDisplayedDays,
        }),
        r.skipWeekend == (match skip_weekends {
            Some(b) => b,
            None => base.skipWeekend,
        }),
        r.skipEmptyDays == (match skip_empty_days {
            Some(b) => b,
            None => base.skipEmptyDays,
        }),
        r.forceUpdate == true,
        r.guild_id == base.guild_id,
        r.calendar_id == base.calendar_id,
        r.channelId@ == base.channelId@,
        spec_opt_string_view(r.messageId) == spec_opt_string_view(base.messageId),
        r.pollInterval == base.pollInterval,
{
    let mut values = base;
    if let Some(t) = timezone {
        values.timezone = t;
    }
    if let Some(n) = nb_displayed_days {
        values.nbDisplayedDays = n;
    }
    if let Some(b) = skip_weekends {
        values.skipWeekend = b;
    }
    if let Some(b) = skip_empty_days {
        values.skipEmptyDays = b;
    }
    values.forceUpdate = true;
    values
}

} // verus!

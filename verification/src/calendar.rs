//! Calendar events and per-channel rendering options, with the structural
//! equality that drives change detection and option grouping.
use vstd::prelude::*;
use core::cmp::Ordering;

use crate::models::GuildCalendar;
use crate::tz::{canonicalize_tz, tz_canon, MIN_TIMESTAMP_MS, MAX_TIMESTAMP_MS};

verus! {

/// Where an event came from; only one provider is supported.
#[derive(Debug, Copy, Clone)]
pub enum CalendarEventSource {
    GoogleCalendar,
}

/// A calendar event. Timestamps are Unix milliseconds (UTC); an absent
/// timestamp models an all-day or otherwise time-less boundary.
#[derive(Clone, Debug)]
pub struct CalendarEvent {
    pub id: String,
    pub summary: String,
    pub description: String,
    pub start: Option<i64>,
    pub end: Option<i64>,
    pub event_source: CalendarEventSource,
}

/// Structural equality over the fields that matter for change detection:
/// identity, texts, and both timestamps. The provenance field is ignored.
pub open spec fn spec_event_eq(a: CalendarEvent, b: CalendarEvent) -> bool {
    &&& a.id@ == b.id@
    &&& a.summary@ == b.summary@
    &&& a.description@ == b.description@
    &&& a.start == b.start
    &&& a.end == b.end
}

impl CalendarEvent {
    /// Timestamps the rendering engine accepts: both present or both absent,
    /// and present ones within the representable civil-time range.
    pub open spec fn wf(self) -> bool {
        &&& self.start is Some <==> self.end is Some
        &&& (self.start matches Some(t) ==> MIN_TIMESTAMP_MS <= t <= MAX_TIMESTAMP_MS)
        &&& (self.end matches Some(t) ==> MIN_TIMESTAMP_MS <= t <= MAX_TIMESTAMP_MS)
    }

    /// Assemble an event from the loose fields a provider hands over:
    /// the id is required, texts default to empty.
    pub exec fn from_parts(
        id: Option<String>,
        summary: Option<String>,
        description: Option<String>,
        start: Option<i64>,
        end: Option<i64>,
    ) -> (r: Result<CalendarEvent, EventError>)
        ensures
            match r {
                Ok(e) => {
                    &&& id matches Some(i) && e.id@ == i@
                    &&& e.summary@ == (match summary {
                        Some(s) => s@,
                        None => Seq::<char>::empty(),
                    })
                    &&& e.description@ == (match description {
                        Some(s) => s@,
                        None => Seq::<char>::empty(),
                    })
                    &&& e.start == start
                    &&& e.end == end
                },
                Err(e) => id is None && e == EventError::MissingId,
            },
    {
        let id = match id {
            Some(i) => i,
            None => {
                return Err(EventError::MissingId);
            },
        };
        let summary = match summary {
            Some(s) => s,
            None => String::new(),
        };
        let description = match description {
            Some(s) => s,
            None => String::new(),
        };
        Ok(CalendarEvent { id, summary, description, start, end, event_source: CalendarEventSource::GoogleCalendar })
    }
}

/// Whether an event carries no time at all: both boundaries absent. Such an
/// event is invalid and is dropped before any comparison or rendering.
pub open spec fn spec_is_timeless(e: CalendarEvent) -> bool {
    e.start is None && e.end is None
}

/// The events that keep at least one boundary, among the first `n`, in order.
pub open spec fn spec_drop_timeless(s: Seq<CalendarEvent>, n: int) -> Seq<CalendarEvent>
    decreases n,
{
    if n <= 0 {
        Seq::empty()
    } else if spec_is_timeless(s[n - 1]) {
        spec_drop_timeless(s, n - 1)
    } else {
        spec_drop_timeless(s, n - 1).push(s[n - 1])
    }
}

/// Drop events lacking both a start and an end, keeping everything else in
/// order; the change detector and the renderer never see such events.
pub exec fn drop_timeless_events(events: Vec<CalendarEvent>) -> (r: Vec<CalendarEvent>)
    ensures
        r@ == spec_drop_timeless(events@, events@.len() as int),
        r@.len() <= events@.len(),
{
    let mut r: Vec<CalendarEvent> = Vec::new();
    let mut rest = events;
    let ghost all = rest@;
    let ghost mut i: int = 0;
    while rest.len() > 0
        invariant
            0 <= i,
            i + rest@.len() == all.len(),
            rest@ =~= all.subrange(i, all.len() as int),
            r@ == spec_drop_timeless(all, i),
            r@.len() <= i,
        decreases rest@.len(),
    {
        let e = rest.remove(0);
        proof {
            assert(e == all[i]);
            assert(rest@ =~= all.subrange(i + 1, all.len() as int));
        }
        let timeless: bool = match (&e.start, &e.end) {
            (None, None) => true,
            _ => false,
        };
        if !timeless {
            r.push(e);
        }
        proof {
            i = i + 1;
        }
    }
    proof {
        assert(all.subrange(0, all.len() as int) =~= all);
    }
    r
}

pub exec fn opt_i64_eq(a: &Option<i64>, b: &Option<i64>) -> (r: bool)
    ensures
        r == (*a == *b),
{
    match (a, b) {
        (Some(x), Some(y)) => *x == *y,
        (None, None) => true,
        _ => false,
    }
}

impl PartialEq for CalendarEvent {
    exec fn eq(&self, other: &Self) -> bool {
        self.id == other.id && self.summary == other.summary && self.description
            == other.description && opt_i64_eq(&self.start, &other.start) && opt_i64_eq(
            &self.end,
            &other.end,
        )
    }
}

impl vstd::std_specs::cmp::PartialEqSpecImpl for CalendarEvent {
    open spec fn obeys_eq_spec() -> bool {
        true
    }

    open spec fn eq_spec(&self, other: &Self) -> bool {
        spec_event_eq(*self, *other)
    }
}

impl Eq for CalendarEvent {

}

/// A failure to assemble an event from provider data.
#[derive(Debug, Copy, Clone, PartialEq, Eq, Structural)]
pub enum EventError {
    MissingId,
}

/// A configuration fault that makes a subscription unusable this cycle.
#[derive(Debug, Copy, Clone, PartialEq, Eq, Structural)]
pub enum ConfigError {
    InvalidTimezone,
}

/// The subset of a subscription's configuration that decides what is
/// rendered. The timezone is kept as the zone's canonical name, so that
/// field-wise equality matches equality of the parsed zones.
#[derive(Clone, Debug)]
pub struct CalendarOptions {
    pub timezone: String,
    pub num_of_days: i32,
    pub skip_weekend: bool,
    pub show_if_no_events: bool,
}

pub open spec fn spec_options_eq(a: CalendarOptions, b: CalendarOptions) -> bool {
    &&& a.timezone@ == b.timezone@
    &&& a.num_of_days == b.num_of_days
    &&& a.skip_weekend == b.skip_weekend
    &&& a.show_if_no_events == b.show_if_no_events
}

/// The total preorder used to order option groups deterministically:
/// lexicographic over the displayed-days count and the two flags. The
/// timezone takes part in equality but not in this ordering, as in the
/// stored configuration's comparison; grouping therefore always goes by
/// [`spec_options_eq`], never by this relation alone.
pub open spec fn spec_options_cmp(a: CalendarOptions, b: CalendarOptions) -> Ordering {
    if a.num_of_days < b.num_of_days {
        Ordering::Less
    } else if a.num_of_days > b.num_of_days {
        Ordering::Greater
    } else if !a.skip_weekend && b.skip_weekend {
        Ordering::Less
    } else if a.skip_weekend && !b.skip_weekend {
        Ordering::Greater
    } else if !a.show_if_no_events && b.show_if_no_events {
        Ordering::Less
    } else if a.show_if_no_events && !b.show_if_no_events {
        Ordering::Greater
    } else {
        Ordering::Equal
    }
}

impl PartialEq for CalendarOptions {
    exec fn eq(&self, other: &Self) -> bool {
        self.timezone == other.timezone && self.num_of_days == other.num_of_days
            && self.skip_weekend == other.skip_weekend && self.show_if_no_events
            == other.show_if_no_events
    }
}

impl vstd::std_specs::cmp::PartialEqSpecImpl for CalendarOptions {
    open spec fn obeys_eq_spec() -> bool {
        true
    }

    open spec fn eq_spec(&self, other: &Self) -> bool {
        spec_options_eq(*self, *other)
    }
}

impl PartialOrd for CalendarOptions {
    exec fn partial_cmp(&self, other: &Self) -> Option<Ordering> {
        if self.num_of_days < other.num_of_days {
            Some(Ordering::Less)
        } else if self.num_of_days > other.num_of_days {
            Some(Ordering::Greater)
        } else if !self.skip_weekend && other.skip_weekend {
            Some(Ordering::Less)
        } else if self.skip_weekend && !other.skip_weekend {
            Some(Ordering::Greater)
        } else if !self.show_if_no_events && other.show_if_no_events {
            Some(Ordering::Less)
        } else if self.show_if_no_events && !other.show_if_no_events {
            Some(Ordering::Greater)
        } else {
            Some(Ordering::Equal)
        }
    }
}

impl vstd::std_specs::cmp::PartialOrdSpecImpl for CalendarOptions {
    open spec fn obeys_partial_cmp_spec() -> bool {
        true
    }

    open spec fn partial_cmp_spec(&self, other: &Self) -> Option<Ordering> {
        Some(spec_options_cmp(*self, *other))
    }
}

impl CalendarOptions {
    /// Resolve a subscription row into rendering options. Fails exactly when
    /// the stored timezone string names no zone of the tz database; the
    /// other fields carry over, with the stored skip-empty-days flag
    /// inverted into show-if-no-events.
    pub exec fn resolve(guild_calendar: &GuildCalendar) -> (r: Result<CalendarOptions, ConfigError>)
        ensures
            match r {
                Ok(o) => {
                    &&& tz_canon(guild_calendar.timezone@) == Some(o.timezone@)
                    &&& tz_canon(o.timezone@) == Some(o.timezone@)
                    &&& o.num_of_days == guild_calendar.nbDisplayedDays
                    &&& o.skip_weekend == guild_calendar.skipWeekend
                    &&& o.show_if_no_events == !guild_calendar.skipEmptyDays
                },
                Err(e) => tz_canon(guild_calendar.timezone@) is None && e
                    == ConfigError::InvalidTimezone,
            },
    {
        let timezone = match canonicalize_tz(guild_calendar.timezone.as_str()) {
            Some(tz) => tz,
            None => {
                return Err(ConfigError::InvalidTimezone);
            },
        };
        Ok(
            CalendarOptions {
                timezone,
                num_of_days: guild_calendar.nbDisplayedDays,
                show_if_no_events: !guild_calendar.skipEmptyDays,
                skip_weekend: guild_calendar.skipWeekend,
            },
        )
    }

    /// Write these options back into a subscription row, leaving the row's
    /// identity and message bookkeeping untouched.
    pub exec fn to_guild_calendar(&self, base_calendar: GuildCalendar) -> (r: GuildCalendar)
        ensures
            r.timezone@ == self.timezone@,
            r.skipWeekend == self.skip_weekend,
            r.skipEmptyDays == !self.show_if_no_events,
            r.nbDisplayedDays == self.num_of_days,
            r.guild_id == base_calendar.guild_id,
            r.calendar_id == base_calendar.calendar_id,
            r.channelId@ == base_calendar.channelId@,
            crate::models::spec_opt_string_view(r.messageId) == crate::models::spec_opt_string_view(
                base_calendar.messageId,
            ),
            r.forceUpdate == base_calendar.forceUpdate,
            r.pollInterval == base_calendar.pollInterval,
    {
        let mut new_calendar = base_calendar;
        new_calendar.timezone = self.timezone.clone();
        new_calendar.skipWeekend = self.skip_weekend;
        new_calendar.skipEmptyDays = !self.show_if_no_events;
        new_calendar.nbDisplayedDays = self.num_of_days;
        new_calendar
    }
}

} // verus!

use calendarbot::calendar::{CalendarEvent, CalendarEventSource, CalendarOptions};
use calendarbot::render::to_embed;

fn event(id: &str, summary: &str, start: i64, end: i64) -> CalendarEvent {
    CalendarEvent {
        id: String::from(id),
        summary: String::from(summary),
        description: String::new(),
        start: Some(start),
        end: Some(end),
        event_source: CalendarEventSource::GoogleCalendar,
    }
}

fn options(tz: &str, days: i32, skip_weekend: bool, show_if_no_events: bool) -> CalendarOptions {
    CalendarOptions {
        timezone: String::from(tz),
        num_of_days: days,
        skip_weekend,
        show_if_no_events,
    }
}

// 2024-03-04 is a Monday. Midnight UTC of that day, in Unix milliseconds.
const MAR4: i64 = 1709510400000;
const HOUR: i64 = 3600000;
const DAY: i64 = 86400000;

#[test]
fn one_event_renders_one_group() {
    // One event 2024-03-04 09:00-10:00 "Standup", default options: one group
    // headed Monday, 4 March, holding the one time line.
    let events = vec![event("e1", "Standup", MAR4 + 9 * HOUR, MAR4 + 10 * HOUR)];
    let r = to_embed(events, options("UTC", 7, false, false), MAR4 + HOUR);
    assert_eq!(r.title, "Events");
    assert_eq!(r.fields.len(), 1);
    assert_eq!(r.fields[0].name, "**Monday** -  4 March");
    assert_eq!(r.fields[0].value, "```09:00 - 10:00 | Standup\n```");
    assert!(!r.fields[0].inline);
}

#[test]
fn rendering_is_idempotent() {
    let mk = || vec![
        event("e1", "Standup", MAR4 + 9 * HOUR, MAR4 + 10 * HOUR),
        event("e2", "Review", MAR4 + DAY + 9 * HOUR, MAR4 + DAY + 10 * HOUR),
    ];
    let r1 = to_embed(mk(), options("UTC", 7, false, true), MAR4 + HOUR);
    let r2 = to_embed(mk(), options("UTC", 7, false, true), MAR4 + HOUR);
    assert_eq!(r1.title, r2.title);
    assert_eq!(r1.fields.len(), r2.fields.len());
    for (f1, f2) in r1.fields.iter().zip(r2.fields.iter()) {
        assert_eq!(f1.name, f2.name);
        assert_eq!(f1.value, f2.value);
        assert_eq!(f1.inline, f2.inline);
    }
}

#[test]
fn same_day_events_share_a_group_in_order() {
    // Two events with the same local (start date, end date) always land in
    // one group, keeping their original relative order.
    let events = vec![
        event("e2", "Late", MAR4 + 15 * HOUR, MAR4 + 16 * HOUR),
        event("e1", "Early", MAR4 + 9 * HOUR, MAR4 + 10 * HOUR),
    ];
    let r = to_embed(events, options("UTC", 7, false, false), MAR4 + HOUR);
    assert_eq!(r.fields.len(), 1);
    assert_eq!(
        r.fields[0].value,
        "```15:00 - 16:00 | Late\n09:00 - 10:00 | Early\n```"
    );
}

#[test]
fn window_boundary_is_inclusive() {
    // num_of_days = 2 from Monday: an event starting exactly on Wednesday is
    // kept, one on Thursday is not.
    let events = vec![
        event("on", "OnBoundary", MAR4 + 2 * DAY + 9 * HOUR, MAR4 + 2 * DAY + 10 * HOUR),
        event("past", "PastBoundary", MAR4 + 3 * DAY + 9 * HOUR, MAR4 + 3 * DAY + 10 * HOUR),
    ];
    let r = to_embed(events, options("UTC", 2, false, false), MAR4 + HOUR);
    assert_eq!(r.fields.len(), 1);
    assert_eq!(r.fields[0].name, "**Wednesday** -  6 March");
    assert_eq!(r.fields[0].value, "```09:00 - 10:00 | OnBoundary\n```");
}

#[test]
fn weekend_event_is_skipped() {
    // 2024-03-09 is a Saturday; with skip_weekend the event never shows,
    // although it is inside the window.
    let sat = MAR4 + 5 * DAY;
    let events = vec![
        event("wd", "Weekday", MAR4 + 9 * HOUR, MAR4 + 10 * HOUR),
        event("we", "Weekend", sat + 9 * HOUR, sat + 10 * HOUR),
    ];
    let r = to_embed(events, options("UTC", 10, true, false), MAR4 + HOUR);
    assert_eq!(r.fields.len(), 1);
    assert_eq!(r.fields[0].value, "```09:00 - 10:00 | Weekday\n```");
}

#[test]
fn weekend_shown_when_not_skipped() {
    let sat = MAR4 + 5 * DAY;
    let events = vec![event("we", "Weekend", sat + 9 * HOUR, sat + 10 * HOUR)];
    let r = to_embed(events, options("UTC", 10, false, false), MAR4 + HOUR);
    assert_eq!(r.fields.len(), 1);
    assert_eq!(r.fields[0].name, "**Saturday** -  9 March");
}

#[test]
fn empty_days_synthesized_once_each() {
    // No events, three-day window with placeholders: each date of
    // [today, today + 2] appears exactly once, as "No events".
    let r = to_embed(vec![], options("UTC", 2, false, true), MAR4 + HOUR);
    assert_eq!(r.fields.len(), 3);
    assert_eq!(r.fields[0].name, "**Monday** -  4 March");
    assert_eq!(r.fields[1].name, "**Tuesday** -  5 March");
    assert_eq!(r.fields[2].name, "**Wednesday** -  6 March");
    for f in &r.fields {
        assert_eq!(f.value, "```No events```");
    }
}

#[test]
fn covered_dates_get_no_placeholder() {
    // An event spanning Monday evening into Tuesday covers both dates: the
    // spanning group is the only entry, with no synthetic "No events" line
    // for either date.
    let events = vec![event("span", "Overnight", MAR4 + 23 * HOUR, MAR4 + 25 * HOUR)];
    let r = to_embed(events, options("UTC", 1, false, true), MAR4 + HOUR);
    assert_eq!(r.fields.len(), 1);
    assert_eq!(r.fields[0].name, "**Monday** -  4 March // **Tuesday** -  5 March");
    assert_eq!(r.fields[0].value, "```23:00 - 01:00 | Overnight\n```");
}

#[test]
fn uncovered_middle_dates_keep_their_placeholders() {
    // The event covers Monday; Tuesday and Wednesday stay uncovered and get
    // one placeholder each.
    let events = vec![event("mon", "OnlyMonday", MAR4 + 9 * HOUR, MAR4 + 10 * HOUR)];
    let r = to_embed(events, options("UTC", 2, false, true), MAR4 + HOUR);
    assert_eq!(r.fields.len(), 3);
    assert_eq!(r.fields[0].name, "**Monday** -  4 March");
    assert_eq!(r.fields[0].value, "```09:00 - 10:00 | OnlyMonday\n```");
    assert_eq!(r.fields[1].name, "**Tuesday** -  5 March");
    assert_eq!(r.fields[1].value, "```No events```");
    assert_eq!(r.fields[2].name, "**Wednesday** -  6 March");
    assert_eq!(r.fields[2].value, "```No events```");
}

#[test]
fn groups_are_sorted_by_date() {
    let events = vec![
        event("b", "Later", MAR4 + DAY + 9 * HOUR, MAR4 + DAY + 10 * HOUR),
        event("a", "Sooner", MAR4 + 9 * HOUR, MAR4 + 10 * HOUR),
    ];
    let r = to_embed(events, options("UTC", 7, false, false), MAR4 + HOUR);
    assert_eq!(r.fields.len(), 2);
    assert_eq!(r.fields[0].name, "**Monday** -  4 March");
    assert_eq!(r.fields[1].name, "**Tuesday** -  5 March");
}

#[test]
fn other_year_uses_iso_headers() {
    // An event whose year differs from the current UTC year is headed by the
    // unambiguous ISO date.
    let jan1_2025 = MAR4 + 303 * DAY;  // 2025-01-01 (2024 is a leap year)
    let events = vec![event("ny", "Kickoff", jan1_2025 + 9 * HOUR, jan1_2025 + 10 * HOUR)];
    let r = to_embed(events, options("UTC", 400, false, false), MAR4 + HOUR);
    assert_eq!(r.fields.len(), 1);
    assert_eq!(r.fields[0].name, "2025-01-01");
}

#[test]
fn timezone_shifts_grouping_date() {
    // 2024-03-05 01:00 UTC is still Monday 2024-03-04 20:00 in New York.
    let events = vec![event("tz", "LateCall", MAR4 + 25 * HOUR, MAR4 + 26 * HOUR)];
    let r = to_embed(events, options("America/New_York", 7, false, false), MAR4 + HOUR);
    assert_eq!(r.fields.len(), 1);
    assert_eq!(r.fields[0].name, "**Monday** -  4 March");
    assert_eq!(r.fields[0].value, "```20:00 - 21:00 | LateCall\n```");
}

#[test]
fn work_day_window_spans_weekend() {
    // Friday 2024-03-08, five work days: the window runs through Thursday
    // 2024-03-14; an event that Thursday is kept, Friday the 15th is not.
    let fri = MAR4 + 4 * DAY;
    let events = vec![
        event("in", "LastDay", fri + 6 * DAY + 9 * HOUR, fri + 6 * DAY + 10 * HOUR),
        event("out", "TooLate", fri + 7 * DAY + 9 * HOUR, fri + 7 * DAY + 10 * HOUR),
    ];
    let r = to_embed(events, options("UTC", 5, true, false), fri + HOUR);
    assert_eq!(r.fields.len(), 1);
    assert_eq!(r.fields[0].name, "**Thursday** - 14 March");
}

#[test]
fn skipped_weekend_days_get_no_placeholder() {
    // Friday with a two-work-day window and placeholders: Friday and Monday
    // appear, Saturday and Sunday do not.
    let fri = MAR4 + 4 * DAY;
    let r = to_embed(vec![], options("UTC", 2, true, true), fri + HOUR);
    assert_eq!(r.fields.len(), 2);
    assert_eq!(r.fields[0].name, "**Friday** -  8 March");
    assert_eq!(r.fields[1].name, "**Monday** - 11 March");
}

#[test]
fn timeless_events_are_dropped() {
    let mut e = event("x", "Ghost", 0, 0);
    e.start = None;
    e.end = None;
    let events = vec![e, event("e1", "Standup", MAR4 + 9 * HOUR, MAR4 + 10 * HOUR)];
    let r = to_embed(events, options("UTC", 7, false, false), MAR4 + HOUR);
    assert_eq!(r.fields.len(), 1);
    assert_eq!(r.fields[0].value, "```09:00 - 10:00 | Standup\n```");
}

#[test]
fn no_events_and_no_placeholders_renders_empty() {
    let r = to_embed(vec![], options("UTC", 7, false, false), MAR4 + HOUR);
    assert_eq!(r.title, "Events");
    assert_eq!(r.fields.len(), 0);
}

#[test]
fn spanning_group_in_other_year_joins_iso_dates() {
    let jan1_2025 = MAR4 + 303 * DAY;
    let events = vec![event("ny", "Party", jan1_2025 + 23 * HOUR, jan1_2025 + 25 * HOUR)];
    let r = to_embed(events, options("UTC", 400, false, false), MAR4 + HOUR);
    assert_eq!(r.fields.len(), 1);
    assert_eq!(r.fields[0].name, "2025-01-01 // 2025-01-02");
}

#[test]
fn leap_day_renders_with_its_weekday() {
    let feb29 = MAR4 - 4 * DAY;
    let events = vec![event("ld", "LeapDay", feb29 + 9 * HOUR, feb29 + 10 * HOUR)];
    let r = to_embed(events, options("UTC", 7, false, false), feb29 + HOUR);
    assert_eq!(r.fields.len(), 1);
    assert_eq!(r.fields[0].name, "**Thursday** - 29 February");
}

use calendarbot::verify_id::{calendar_id_well_formed, calendar_id_valid};
use calendarbot::calendar::{CalendarOptions, CalendarEvent, EventError};
use calendarbot::models::GuildCalendar;
use calendarbot::events::VerifyCalendarEvent;

fn sub_with_tz(tz: &str) -> GuildCalendar {
    GuildCalendar {
        guild_id: 1,
        calendar_id: 1,
        channelId: String::from("100"),
        messageId: None,
        forceUpdate: false,
        timezone: String::from(tz),
        pollInterval: 10,
        nbDisplayedDays: 7,
        skipWeekend: false,
        skipEmptyDays: true,
    }
}

#[test]
fn plain_address_shapes_pass() {
    assert!(calendar_id_well_formed("team@example.com"));
    assert!(calendar_id_well_formed("a@b"));
    assert!(calendar_id_well_formed("a.b.c.d@x.y.z.w"));
    assert!(calendar_id_well_formed("c_3@group.calendar.google.com"));
}

#[test]
fn malformed_ids_fail() {
    assert!(!calendar_id_well_formed(""));
    assert!(!calendar_id_well_formed("plainname"));
    assert!(!calendar_id_well_formed("@example.com"));
    assert!(!calendar_id_well_formed("team@"));
    assert!(!calendar_id_well_formed("te..am@example.com"));
    assert!(!calendar_id_well_formed(".team@example.com"));
    assert!(!calendar_id_well_formed("team.@example.com"));
    assert!(!calendar_id_well_formed("a.b.c.d.e@x"));
    assert!(!calendar_id_well_formed("a@b@c"));
    assert!(!calendar_id_well_formed("te am@example.com"));
}

#[test]
fn validity_needs_both_shape_and_access() {
    assert!(calendar_id_valid("team@example.com", true));
    assert!(!calendar_id_valid("team@example.com", false));
    assert!(!calendar_id_valid("not an id", true));
}

#[test]
fn verification_request_carries_the_id() {
    let req = VerifyCalendarEvent { calendar_id: String::from("team@example.com") };
    assert_eq!(req.calendar_id, "team@example.com");
}

#[test]
fn zone_names_canonicalize_through_resolution() {
    let o = CalendarOptions::resolve(&sub_with_tz("Europe/Zurich")).unwrap();
    assert_eq!(o.timezone, "Europe/Zurich");
    assert!(CalendarOptions::resolve(&sub_with_tz("Not/AZone")).is_err());
    assert!(CalendarOptions::resolve(&sub_with_tz("")).is_err());
    // Resolving the canonical name again returns it unchanged.
    let o2 = CalendarOptions::resolve(&sub_with_tz(&o.timezone)).unwrap();
    assert_eq!(o2.timezone, "Europe/Zurich");
}

#[test]
fn event_from_parts_requires_an_id() {
    let e = CalendarEvent::from_parts(
        Some(String::from("e1")),
        None,
        None,
        Some(1709542800000),
        Some(1709546400000),
    )
    .unwrap();
    assert_eq!(e.id, "e1");
    assert_eq!(e.summary, "");
    assert_eq!(e.description, "");
    assert_eq!(e.start, Some(1709542800000));
    let missing = CalendarEvent::from_parts(None, Some(String::from("x")), None, None, None);
    assert_eq!(missing, Err(EventError::MissingId));
}

use calendarbot::calendar::{CalendarEvent, CalendarEventSource};
use calendarbot::diff::{matching_count, lists_match, EventsCache};

fn event(id: &str, summary: &str, start: Option<i64>, end: Option<i64>) -> CalendarEvent {
    CalendarEvent {
        id: String::from(id),
        summary: String::from(summary),
        description: String::new(),
        start,
        end,
        event_source: CalendarEventSource::GoogleCalendar,
    }
}

// 2024-03-04 09:00 and 10:00 UTC, in Unix milliseconds.
const E1_START: i64 = 1709542800000;
const E1_END: i64 = 1709546400000;

fn standup() -> CalendarEvent {
    event("e1", "Standup", Some(E1_START), Some(E1_END))
}

#[test]
fn empty_lists_match() {
    let a: Vec<CalendarEvent> = vec![];
    let b: Vec<CalendarEvent> = vec![];
    assert_eq!(matching_count(&a, &b), 0);
    assert!(lists_match(&a, &b));
}

#[test]
fn equal_lists_match() {
    let a = vec![standup(), event("e2", "Review", Some(E1_END), Some(E1_END + 3600000))];
    let b = vec![standup(), event("e2", "Review", Some(E1_END), Some(E1_END + 3600000))];
    assert_eq!(matching_count(&a, &b), 2);
    assert!(lists_match(&a, &b));
}

#[test]
fn changed_summary_differs() {
    let a = vec![standup()];
    let b = vec![event("e1", "Standup moved", Some(E1_START), Some(E1_END))];
    assert!(!lists_match(&a, &b));
}

#[test]
fn changed_time_differs() {
    let a = vec![standup()];
    let b = vec![event("e1", "Standup", Some(E1_START + 60000), Some(E1_END))];
    assert!(!lists_match(&a, &b));
}

#[test]
fn reorder_counts_as_change() {
    // The diff is positional: swapping two otherwise identical events is a
    // change even though the set of events is the same.
    let e1 = standup();
    let e2 = event("e2", "Review", Some(E1_END), Some(E1_END + 3600000));
    let a = vec![e1.clone(), e2.clone()];
    let b = vec![e2, e1];
    assert_eq!(matching_count(&a, &b), 0);
    assert!(!lists_match(&a, &b));
}

#[test]
fn prefix_is_not_enough() {
    let a = vec![standup()];
    let b = vec![standup(), event("e2", "Review", Some(E1_END), Some(E1_END + 3600000))];
    assert_eq!(matching_count(&a, &b), 1);
    assert!(!lists_match(&a, &b));
}

#[test]
fn provenance_is_ignored_by_equality() {
    let a = standup();
    let b = standup();
    assert!(a == b);
}

#[test]
fn first_fetch_of_one_event_updates() {
    // Cached events are [], the new fetch returns one event: an update is due.
    let cache = EventsCache::new();
    let cal = String::from("team@example.com");
    let new_events = vec![standup()];
    assert!(cache.should_update(&cal, &new_events, false));
}

#[test]
fn unchanged_fetch_does_not_update() {
    // After committing [E1], fetching [E1] again calls for no update.
    let mut cache = EventsCache::new();
    let cal = String::from("team@example.com");
    cache.commit(&cal, vec![standup()]);
    let refetch = vec![standup()];
    assert!(!cache.should_update(&cal, &refetch, false));
}

#[test]
fn force_update_overrides_unchanged() {
    let mut cache = EventsCache::new();
    let cal = String::from("team@example.com");
    cache.commit(&cal, vec![standup()]);
    let refetch = vec![standup()];
    assert!(cache.should_update(&cal, &refetch, true));
}

#[test]
fn empty_against_empty_before_any_commit() {
    let cache = EventsCache::new();
    let cal = String::from("team@example.com");
    let none: Vec<CalendarEvent> = vec![];
    assert!(!cache.should_update(&cal, &none, false));
}

#[test]
fn commit_replaces_wholesale() {
    let mut cache = EventsCache::new();
    let cal = String::from("team@example.com");
    cache.commit(&cal, vec![standup()]);
    cache.commit(&cal, vec![]);
    // The comparison basis moved forward: the old event now reads as new.
    assert!(cache.should_update(&cal, &vec![standup()], false));
    assert!(!cache.should_update(&cal, &vec![], false));
}

#[test]
fn cache_is_per_calendar() {
    let mut cache = EventsCache::new();
    let a = String::from("a@example.com");
    let b = String::from("b@example.com");
    cache.commit(&a, vec![standup()]);
    assert!(!cache.should_update(&a, &vec![standup()], false));
    assert!(cache.should_update(&b, &vec![standup()], false));
}

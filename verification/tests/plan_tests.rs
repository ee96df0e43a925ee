use calendarbot::calendar::{
    CalendarEvent, CalendarEventSource, CalendarOptions, ConfigError, drop_timeless_events,
};
use calendarbot::models::{GuildCalendar, apply_settings};
use calendarbot::sync::plan_calendar_update;
use calendarbot::parse::parse_u64;

fn sub(guild: i32, channel: &str, message: Option<&str>, force: bool, tz: &str) -> GuildCalendar {
    GuildCalendar {
        guild_id: guild,
        calendar_id: 1,
        channelId: String::from(channel),
        messageId: message.map(String::from),
        forceUpdate: force,
        timezone: String::from(tz),
        pollInterval: 10,
        nbDisplayedDays: 7,
        skipWeekend: false,
        skipEmptyDays: true,
    }
}

fn event(id: &str, summary: &str) -> CalendarEvent {
    CalendarEvent {
        id: String::from(id),
        summary: String::from(summary),
        description: String::new(),
        start: Some(1709542800000),
        end: Some(1709546400000),
        event_source: CalendarEventSource::GoogleCalendar,
    }
}

#[test]
fn equal_options_share_one_task() {
    // Two channels with identical options get one task listing both, so the
    // engine renders once for the pair.
    let cal = String::from("team@example.com");
    let events = vec![event("e1", "Standup")];
    let subs = vec![sub(1, "100", Some("500"), false, "UTC"), sub(1, "200", None, false, "UTC")];
    let plan = plan_calendar_update(&cal, &events, &subs);
    assert!(!plan.forced);
    assert_eq!(plan.tasks.len(), 1);
    assert_eq!(plan.tasks[0].calendar_id, "team@example.com");
    assert_eq!(plan.tasks[0].new_events.len(), 1);
    assert_eq!(
        plan.tasks[0].discord_channel_and_message_ids,
        vec![(100, Some(500)), (200, None)]
    );
    assert!(plan.clear_force_update.is_empty());
}

#[test]
fn different_options_get_separate_sorted_tasks() {
    let cal = String::from("team@example.com");
    let events = vec![event("e1", "Standup")];
    let mut a = sub(1, "100", None, false, "UTC");
    a.nbDisplayedDays = 14;
    let b = sub(1, "200", None, false, "UTC");
    let subs = vec![a, b];
    let plan = plan_calendar_update(&cal, &events, &subs);
    assert_eq!(plan.tasks.len(), 2);
    // Ordered by the displayed-days count.
    assert_eq!(plan.tasks[0].calendar_options.num_of_days, 7);
    assert_eq!(plan.tasks[0].discord_channel_and_message_ids, vec![(200, None)]);
    assert_eq!(plan.tasks[1].calendar_options.num_of_days, 14);
    assert_eq!(plan.tasks[1].discord_channel_and_message_ids, vec![(100, None)]);
}

#[test]
fn timezone_differences_keep_tasks_apart() {
    // Same ordering fields but different zones: equality, not the ordering
    // relation, decides the grouping, so these stay separate tasks.
    let cal = String::from("team@example.com");
    let events = vec![event("e1", "Standup")];
    let subs = vec![sub(1, "100", None, false, "UTC"), sub(1, "200", None, false, "Europe/Zurich")];
    let plan = plan_calendar_update(&cal, &events, &subs);
    assert_eq!(plan.tasks.len(), 2);
}

#[test]
fn forced_cycle_serves_only_flagged_subscriptions() {
    // One subscription forces an update: only it is served, and exactly its
    // key is scheduled for the flag reset.
    let cal = String::from("team@example.com");
    let events = vec![event("e1", "Standup")];
    let subs = vec![sub(1, "100", Some("500"), false, "UTC"), sub(2, "200", None, true, "UTC")];
    let plan = plan_calendar_update(&cal, &events, &subs);
    assert!(plan.forced);
    assert_eq!(plan.tasks.len(), 1);
    assert_eq!(plan.tasks[0].discord_channel_and_message_ids, vec![(200, None)]);
    assert_eq!(plan.clear_force_update.len(), 1);
    assert_eq!(plan.clear_force_update[0].guild_id, 2);
    assert_eq!(plan.clear_force_update[0].channel_id, "200");
}

#[test]
fn unserved_flagged_subscription_keeps_its_flag() {
    // A force-flagged subscription whose timezone names no zone is served by
    // no task, so its flag must not be scheduled for clearing either.
    let cal = String::from("team@example.com");
    let events = vec![event("e1", "Standup")];
    let subs = vec![
        sub(1, "100", None, true, "UTC"),
        sub(2, "200", None, true, "Mars/Olympus"),
        sub(3, "not-a-number", None, true, "UTC"),
    ];
    let plan = plan_calendar_update(&cal, &events, &subs);
    assert!(plan.forced);
    assert_eq!(plan.tasks.len(), 1);
    assert_eq!(plan.tasks[0].discord_channel_and_message_ids, vec![(100, None)]);
    assert_eq!(plan.clear_force_update.len(), 1);
    assert_eq!(plan.clear_force_update[0].guild_id, 1);
    assert_eq!(plan.clear_force_update[0].channel_id, "100");
}

#[test]
fn every_task_has_a_recipient() {
    let cal = String::from("team@example.com");
    let events = vec![event("e1", "Standup")];
    let subs = vec![sub(1, "100", None, false, "UTC"), sub(1, "bad", None, false, "UTC")];
    let plan = plan_calendar_update(&cal, &events, &subs);
    for task in &plan.tasks {
        assert!(!task.discord_channel_and_message_ids.is_empty());
    }
}

#[test]
fn timeless_events_are_dropped_before_comparison() {
    // An event with both boundaries absent is invalid: the filter removes it
    // and keeps everything else in order.
    let mut ghost_event = event("ghost", "NoTimes");
    ghost_event.start = None;
    ghost_event.end = None;
    let kept = event("e1", "Standup");
    let filtered = drop_timeless_events(vec![ghost_event, kept.clone()]);
    assert_eq!(filtered.len(), 1);
    assert!(filtered[0] == kept);
    let none_left = drop_timeless_events(vec![]);
    assert!(none_left.is_empty());
}

#[test]
fn half_timed_events_are_kept_by_the_filter() {
    let mut half = event("h1", "OpenEnd");
    half.end = None;
    let filtered = drop_timeless_events(vec![half]);
    assert_eq!(filtered.len(), 1);
}

#[test]
fn bad_channel_id_is_skipped() {
    let cal = String::from("team@example.com");
    let events = vec![event("e1", "Standup")];
    let subs = vec![sub(1, "not-a-number", None, false, "UTC"), sub(1, "200", None, false, "UTC")];
    let plan = plan_calendar_update(&cal, &events, &subs);
    assert_eq!(plan.tasks.len(), 1);
    assert_eq!(plan.tasks[0].discord_channel_and_message_ids, vec![(200, None)]);
}

#[test]
fn bad_timezone_is_skipped() {
    let cal = String::from("team@example.com");
    let events = vec![event("e1", "Standup")];
    let subs = vec![sub(1, "100", None, false, "Mars/Olympus"), sub(1, "200", None, false, "UTC")];
    let plan = plan_calendar_update(&cal, &events, &subs);
    assert_eq!(plan.tasks.len(), 1);
    assert_eq!(plan.tasks[0].discord_channel_and_message_ids, vec![(200, None)]);
}

#[test]
fn bad_message_id_becomes_absent() {
    let cal = String::from("team@example.com");
    let events = vec![event("e1", "Standup")];
    let subs = vec![sub(1, "100", Some("not-a-number"), false, "UTC")];
    let plan = plan_calendar_update(&cal, &events, &subs);
    assert_eq!(plan.tasks.len(), 1);
    assert_eq!(plan.tasks[0].discord_channel_and_message_ids, vec![(100, None)]);
}

#[test]
fn resolve_maps_fields_and_inverts_skip_empty_days() {
    let s = sub(1, "100", None, false, "Europe/Zurich");
    let o = CalendarOptions::resolve(&s).unwrap();
    assert_eq!(o.timezone, "Europe/Zurich");
    assert_eq!(o.num_of_days, 7);
    assert!(!o.skip_weekend);
    assert!(!o.show_if_no_events);
}

#[test]
fn resolve_rejects_unknown_zone() {
    let s = sub(1, "100", None, false, "Nowhere/Atlantis");
    assert_eq!(CalendarOptions::resolve(&s), Err(ConfigError::InvalidTimezone));
}

#[test]
fn options_equality_and_order() {
    let s = sub(1, "100", None, false, "UTC");
    let a = CalendarOptions::resolve(&s).unwrap();
    let b = CalendarOptions::resolve(&s).unwrap();
    assert!(a == b);
    let mut c = b.clone();
    c.num_of_days = 8;
    assert!(a != c);
    assert!(a < c);
    // The ordering ignores the timezone: equal ordering fields compare
    // Equal even across zones, so grouping must use full equality.
    let mut d = a.clone();
    d.timezone = String::from("Europe/Zurich");
    assert_eq!(a.partial_cmp(&d), Some(std::cmp::Ordering::Equal));
    assert!(a != d);
}

#[test]
fn to_guild_calendar_writes_options_back() {
    let s = sub(1, "100", Some("500"), false, "UTC");
    let mut o = CalendarOptions::resolve(&s).unwrap();
    o.num_of_days = 3;
    o.skip_weekend = true;
    o.show_if_no_events = true;
    let row = o.to_guild_calendar(s);
    assert_eq!(row.nbDisplayedDays, 3);
    assert!(row.skipWeekend);
    assert!(!row.skipEmptyDays);
    assert_eq!(row.timezone, "UTC");
    assert_eq!(row.messageId.as_deref(), Some("500"));
}

#[test]
fn apply_settings_merges_and_raises_force_update() {
    let s = sub(1, "100", Some("500"), false, "UTC");
    let merged = apply_settings(s, Some(String::from("Europe/Zurich")), None, Some(true), None);
    assert_eq!(merged.timezone, "Europe/Zurich");
    assert_eq!(merged.nbDisplayedDays, 7);
    assert!(merged.skipWeekend);
    assert!(merged.skipEmptyDays);
    assert!(merged.forceUpdate);
    assert_eq!(merged.messageId.as_deref(), Some("500"));
}

#[test]
fn parse_u64_accepts_decimal_and_plus() {
    assert_eq!(parse_u64("0"), Some(0));
    assert_eq!(parse_u64("123456789012345678"), Some(123456789012345678));
    assert_eq!(parse_u64("+42"), Some(42));
    assert_eq!(parse_u64("18446744073709551615"), Some(u64::MAX));
}

#[test]
fn parse_u64_rejects_garbage_and_overflow() {
    assert_eq!(parse_u64(""), None);
    assert_eq!(parse_u64("+"), None);
    assert_eq!(parse_u64("-1"), None);
    assert_eq!(parse_u64("12a"), None);
    assert_eq!(parse_u64(" 12"), None);
    assert_eq!(parse_u64("18446744073709551616"), None);
}

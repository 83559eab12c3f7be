use calendar_notice::models::{Event, EventFindMany, Notification};
use calendar_notice::notification::{
    filter_by_start_time, filter_upcoming_events, meeting_link, notification_tick,
    notification_window, MeetingLink,
};
use calendar_notice::repository::EventStore;

fn epoch(s: &str) -> i64 {
    chrono::DateTime::parse_from_rfc3339(s).unwrap().timestamp()
}

fn event(id: &str, start: &str) -> Event {
    Event {
        id: id.to_string(),
        summary: "Standup".to_string(),
        description: None,
        status: None,
        hangout_link: None,
        zoom_link: None,
        teams_link: None,
        start_datetime: start.to_string(),
        end_datetime: start.to_string(),
    }
}

fn setting(id: &str, enabled: bool, lead: i32) -> Notification {
    Notification {
        event_id: id.to_string(),
        enabled,
        notification_sec_from_start: lead,
    }
}

#[test]
fn test_filter_by_start_time() {
    let now = epoch("2023-08-01T12:00:00+09:00");
    let duration = 60 * 10;

    let event1 = (
        event("e1", "2023-08-01T12:10:00+09:00"),
        setting("e1", true, duration),
    );
    let result1 = filter_by_start_time(&event1, now);
    assert_eq!(result1, false);

    let event2 = (
        event("e2", "2023-08-01T12:09:59+09:00"),
        setting("e2", true, duration),
    );
    let result2 = filter_by_start_time(&event2, now);
    assert_eq!(result2, true);

    let event3 = (
        event("e3", "2023-08-01T12:10:00+09:00"),
        setting("e3", false, duration),
    );
    let result3 = filter_by_start_time(&event3, now);
    assert_eq!(result3, false);
}

#[test]
fn threshold_boundary_at_lead_600() {
    // With a lead of 600 seconds: 601 seconds out is not due, 599 is,
    // and a disabled notification is never due.
    let now = epoch("2023-08-01T12:00:00+09:00");
    let in_601 = (event("a", "2023-08-01T12:10:01+09:00"), setting("a", true, 600));
    assert_eq!(filter_by_start_time(&in_601, now), false);
    let in_599 = (event("b", "2023-08-01T12:09:59+09:00"), setting("b", true, 600));
    assert_eq!(filter_by_start_time(&in_599, now), true);
    let disabled = (event("c", "2023-08-01T12:09:59+09:00"), setting("c", false, 600));
    assert_eq!(filter_by_start_time(&disabled, now), false);
    let disabled_past = (event("d", "2023-08-01T11:00:00+09:00"), setting("d", false, 600));
    assert_eq!(filter_by_start_time(&disabled_past, now), false);
}

#[test]
fn unreadable_start_is_never_due() {
    let now = epoch("2023-08-01T12:00:00+09:00");
    let broken = (event("a", "soon"), setting("a", true, 600));
    assert_eq!(filter_by_start_time(&broken, now), false);
}

#[test]
fn filter_keeps_only_due_events_in_order() {
    let now = epoch("2023-08-01T12:00:00+09:00");
    let pairs = vec![
        (event("far", "2023-08-01T18:00:00+09:00"), setting("far", true, 600)),
        (event("soon", "2023-08-01T12:05:00+09:00"), setting("soon", true, 600)),
        (event("off", "2023-08-01T12:05:00+09:00"), setting("off", false, 600)),
        (event("close", "2023-08-01T12:01:00+09:00"), setting("close", true, 600)),
    ];
    let due = filter_upcoming_events(pairs, now);
    let ids: Vec<&str> = due.iter().map(|e| e.id.as_str()).collect();
    assert_eq!(ids, vec!["soon", "close"]);
}

#[test]
fn fired_notification_does_not_refire_after_disable() {
    // A due event fires once; the disable-write lands; the next tick is
    // silent.
    let mut store = EventStore::new();
    store
        .create_many(vec![event("abc", "2023-08-01T12:05:00+09:00")])
        .unwrap();
    store
        .create_many_notifications(vec![setting("abc", true, 600)])
        .unwrap();
    let now = epoch("2023-08-01T12:00:00+09:00");

    let pairs = store.find_many(&EventFindMany { from: None, to: None, ids_in: None });
    let (due, disables) = notification_tick(pairs, now);
    assert_eq!(due.len(), 1);
    assert_eq!(due[0].id, "abc");
    assert_eq!(disables.len(), 1);
    assert_eq!(disables[0].0, "abc");
    assert_eq!(disables[0].1.enabled, Some(false));
    assert_eq!(disables[0].1.notification_sec_from_start, None);

    for (id, update) in disables {
        store.update_notification(id, update).unwrap();
    }
    let pairs = store.find_many(&EventFindMany { from: None, to: None, ids_in: None });
    let (due, _) = notification_tick(pairs, now + 1);
    assert_eq!(due.len(), 0);
}

#[test]
fn failed_disable_write_refires_on_the_next_tick() {
    // The sole exception path: when the disable-write does not land, the
    // event stays due and alerts again - delivery is at least once.
    let mut store = EventStore::new();
    store
        .create_many(vec![event("abc", "2023-08-01T12:05:00+09:00")])
        .unwrap();
    store
        .create_many_notifications(vec![setting("abc", true, 600)])
        .unwrap();
    let now = epoch("2023-08-01T12:00:00+09:00");

    let pairs = store.find_many(&EventFindMany { from: None, to: None, ids_in: None });
    let (due, _ignored_disables) = notification_tick(pairs, now);
    assert_eq!(due.len(), 1);

    let pairs = store.find_many(&EventFindMany { from: None, to: None, ids_in: None });
    let (due, _) = notification_tick(pairs, now + 1);
    assert_eq!(due.len(), 1);
    assert_eq!(due[0].id, "abc");
}

#[test]
fn poll_window_spans_the_coming_days() {
    let now = 1_000_000i64;
    let (from, to) = notification_window(now);
    assert_eq!(from, now);
    assert_eq!(to, now + 7 * 86400);
}

#[test]
fn window_query_bounds_start_and_end() {
    let mut store = EventStore::new();
    store
        .create_many(vec![
            event("in", "2023-08-02T12:00:00+09:00"),
            event("early", "2023-07-01T12:00:00+09:00"),
            event("late", "2023-09-30T12:00:00+09:00"),
        ])
        .unwrap();
    store
        .create_many_notifications(vec![
            setting("in", true, 600),
            setting("early", true, 600),
            setting("late", true, 600),
        ])
        .unwrap();
    let pairs = store.find_many(&EventFindMany {
        from: Some("2023-08-01T00:00:00+09:00".to_string()),
        to: Some("2023-08-08T00:00:00+09:00".to_string()),
        ids_in: None,
    });
    assert_eq!(pairs.len(), 1);
    assert_eq!(pairs[0].0.id, "in");
}

#[test]
fn query_orders_by_start_time() {
    let mut store = EventStore::new();
    store
        .create_many(vec![
            event("late", "2023-08-03T12:00:00+09:00"),
            event("early", "2023-08-01T12:00:00+09:00"),
            event("mid", "2023-08-02T12:00:00+09:00"),
        ])
        .unwrap();
    store
        .create_many_notifications(vec![
            setting("late", true, 600),
            setting("early", true, 600),
            setting("mid", true, 600),
        ])
        .unwrap();
    let pairs = store.find_many(&EventFindMany { from: None, to: None, ids_in: None });
    let ids: Vec<&str> = pairs.iter().map(|p| p.0.id.as_str()).collect();
    assert_eq!(ids, vec!["early", "mid", "late"]);
}

#[test]
fn equal_starts_keep_stored_order() {
    let mut store = EventStore::new();
    store
        .create_many(vec![
            event("first", "2023-08-01T12:00:00+09:00"),
            event("second", "2023-08-01T12:00:00+09:00"),
        ])
        .unwrap();
    store
        .create_many_notifications(vec![
            setting("first", true, 600),
            setting("second", true, 600),
        ])
        .unwrap();
    let pairs = store.find_many(&EventFindMany { from: None, to: None, ids_in: None });
    let ids: Vec<&str> = pairs.iter().map(|p| p.0.id.as_str()).collect();
    assert_eq!(ids, vec!["first", "second"]);
}

#[test]
fn alert_prefers_the_meeting_link() {
    let mut e = event("abc", "2023-08-01T12:05:00+09:00");
    e.zoom_link = Some("https://zoom.us/j/123".to_string());
    e.hangout_link = Some("https://meet.example/xyz".to_string());
    assert_eq!(
        meeting_link(&e),
        MeetingLink::Zoom("https://zoom.us/j/123".to_string())
    );
    e.zoom_link = None;
    assert_eq!(
        meeting_link(&e),
        MeetingLink::Hangout("https://meet.example/xyz".to_string())
    );
    e.hangout_link = None;
    assert_eq!(meeting_link(&e), MeetingLink::NoLink);
}

#[test]
fn notification_query_filters_by_key() {
    let mut store = EventStore::new();
    store
        .create_many_notifications(vec![
            setting("abc", true, 600),
            setting("def", false, 300),
            setting("ghi", true, 120),
        ])
        .unwrap();
    let hits = store.find_many_notifications(&calendar_notice::models::NotificationFindMany {
        event_ids_in: Some(vec!["def".to_string(), "ghi".to_string()]),
    });
    let keys: Vec<&str> = hits.iter().map(|n| n.event_id.as_str()).collect();
    assert_eq!(keys, vec!["def", "ghi"]);
    let all = store.find_many_notifications(&calendar_notice::models::NotificationFindMany {
        event_ids_in: None,
    });
    assert_eq!(all.len(), 3);
}

#[test]
fn join_returns_nothing_for_an_event_without_setting() {
    let mut store = EventStore::new();
    store
        .create_many(vec![event("abc", "2023-08-01T12:05:00+09:00")])
        .unwrap();
    let pairs = store.find_many(&EventFindMany { from: None, to: None, ids_in: None });
    assert_eq!(pairs.len(), 0);
}

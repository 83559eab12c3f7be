use calendar_notice::google_calendar::{
    handle_google_calendar_event_result, reconcile, update_events, Error, EventStatus,
    FetchFollowUp, GoogleCalendarEvent, GoogleCalendarParent,
};
use calendar_notice::models::{Event, EventFindMany, Notification, OAuthToken};
use calendar_notice::repository::EventStore;

fn remote(id: &str, summary: &str, start: &str, end: &str) -> GoogleCalendarEvent {
    let mut e = GoogleCalendarEvent::default();
    e.id = id.to_string();
    e.summary = summary.to_string();
    e.status = Some(EventStatus::Confirmed);
    e.start.date_time = Some(start.to_string());
    e.end.date_time = Some(end.to_string());
    e
}

fn parent(items: Vec<GoogleCalendarEvent>) -> GoogleCalendarParent {
    GoogleCalendarParent {
        kind: "calendar#events".to_string(),
        etag: String::new(),
        summary: "primary".to_string(),
        description: None,
        updated: String::new(),
        time_zone: None,
        access_role: None,
        default_reminders: None,
        next_page_token: None,
        items,
    }
}

fn all_events(store: &EventStore) -> Vec<(Event, Notification)> {
    store.find_many(&EventFindMany { from: None, to: None, ids_in: None })
}

#[test]
fn new_event_yields_one_create_and_enabled_notification() {
    // One new remote event and no prior local record: one create, one
    // default notification.
    let items = vec![remote(
        "abc",
        "Standup",
        "2023-08-01T12:05:00+09:00",
        "2023-08-01T12:30:00+09:00",
    )];
    let local: Vec<(Event, Notification)> = Vec::new();
    let out = reconcile(&items, &local);
    assert_eq!(out.creates.len(), 1);
    assert_eq!(out.updates.len(), 0);
    assert_eq!(out.notification_creates.len(), 1);
    assert_eq!(out.skipped.len(), 0);
    assert_eq!(out.creates[0].id, "abc");
    assert_eq!(out.creates[0].summary, "Standup");
    assert_eq!(out.creates[0].status.as_deref(), Some("confirmed"));
    assert_eq!(out.creates[0].start_datetime, "2023-08-01T12:05:00+09:00");
    assert_eq!(out.notification_creates[0].event_id, "abc");
    assert_eq!(out.notification_creates[0].enabled, true);
    assert_eq!(out.notification_creates[0].notification_sec_from_start, 600);
}

#[test]
fn reconcile_twice_gives_identical_operations() {
    let items = vec![
        remote("abc", "Standup", "2023-08-01T12:05:00+09:00", "2023-08-01T12:30:00+09:00"),
        remote("def", "Retro", "2023-08-02T15:00:00+09:00", "2023-08-02T16:00:00+09:00"),
    ];
    let local: Vec<(Event, Notification)> = vec![(
        Event {
            id: "def".to_string(),
            summary: "Old".to_string(),
            description: None,
            status: None,
            hangout_link: None,
            zoom_link: None,
            teams_link: None,
            start_datetime: "2023-08-02T15:00:00+09:00".to_string(),
            end_datetime: "2023-08-02T16:00:00+09:00".to_string(),
        },
        Notification {
            event_id: "def".to_string(),
            enabled: true,
            notification_sec_from_start: 600,
        },
    )];
    let first = reconcile(&items, &local);
    let second = reconcile(&items, &local);
    assert_eq!(first.creates, second.creates);
    assert_eq!(first.updates, second.updates);
    assert_eq!(first.notification_creates, second.notification_creates);
    assert_eq!(first.skipped, second.skipped);
    assert_eq!(first.creates.len(), 1);
    assert_eq!(first.updates.len(), 1);
    assert_eq!(first.updates[0].0, "def");
    assert_eq!(first.updates[0].1.summary.as_deref(), Some("Retro"));
}

#[test]
fn applied_snapshot_is_a_fixed_point() {
    // After one whole pass, a second reconciliation of the same snapshot
    // creates nothing, and its updates carry the same remote fields.
    let mut store = EventStore::new();
    let batch = parent(vec![
        remote("abc", "Standup", "2023-08-01T12:05:00+09:00", "2023-08-01T12:30:00+09:00"),
        remote("def", "Retro", "2023-08-02T15:00:00+09:00", "2023-08-02T16:00:00+09:00"),
    ]);
    update_events(&mut store, &batch).unwrap();

    let local = store.find_many(&EventFindMany {
        from: None,
        to: None,
        ids_in: Some(vec!["abc".to_string(), "def".to_string()]),
    });
    let out = reconcile(&batch.items, &local);
    assert_eq!(out.creates.len(), 0);
    assert_eq!(out.notification_creates.len(), 0);
    assert_eq!(out.updates.len(), 2);
    assert_eq!(out.updates[0].1.summary.as_deref(), Some("Standup"));
    assert_eq!(out.updates[1].1.summary.as_deref(), Some("Retro"));
}

#[test]
fn created_event_reads_back_field_for_field() {
    // Round trip: what reconciliation stored is what a fetch returns.
    let mut store = EventStore::new();
    let batch = parent(vec![remote(
        "abc",
        "Standup",
        "2023-08-01T12:05:00+09:00",
        "2023-08-01T12:30:00+09:00",
    )]);
    update_events(&mut store, &batch).unwrap();

    let pairs = store.find_many(&EventFindMany {
        from: None,
        to: None,
        ids_in: Some(vec!["abc".to_string()]),
    });
    assert_eq!(pairs.len(), 1);
    let (event, notification) = &pairs[0];
    assert_eq!(event.id, "abc");
    assert_eq!(event.summary, "Standup");
    assert_eq!(event.status.as_deref(), Some("confirmed"));
    assert_eq!(event.start_datetime, "2023-08-01T12:05:00+09:00");
    assert_eq!(event.end_datetime, "2023-08-01T12:30:00+09:00");
    assert_eq!(notification.event_id, "abc");
    assert_eq!(notification.enabled, true);
}

#[test]
fn known_event_is_updated_not_created() {
    // The store already holds "abc" as "Standup"; the remote batch renames
    // it: one update, zero creates, and the read shows the new summary.
    let mut store = EventStore::new();
    let first = parent(vec![remote(
        "abc",
        "Standup",
        "2023-08-01T12:05:00+09:00",
        "2023-08-01T12:30:00+09:00",
    )]);
    update_events(&mut store, &first).unwrap();

    let moved = parent(vec![remote(
        "abc",
        "Standup (moved)",
        "2023-08-01T13:05:00+09:00",
        "2023-08-01T13:30:00+09:00",
    )]);
    let local = store.find_many(&EventFindMany {
        from: None,
        to: None,
        ids_in: Some(vec!["abc".to_string()]),
    });
    let out = reconcile(&moved.items, &local);
    assert_eq!(out.creates.len(), 0);
    assert_eq!(out.updates.len(), 1);

    update_events(&mut store, &moved).unwrap();
    let pairs = all_events(&store);
    assert_eq!(pairs.len(), 1);
    assert_eq!(pairs[0].0.summary, "Standup (moved)");
    assert_eq!(pairs[0].0.start_datetime, "2023-08-01T13:05:00+09:00");
}

#[test]
fn update_leaves_user_owned_notification_fields_alone() {
    let mut store = EventStore::new();
    let first = parent(vec![remote(
        "abc",
        "Standup",
        "2023-08-01T12:05:00+09:00",
        "2023-08-01T12:30:00+09:00",
    )]);
    update_events(&mut store, &first).unwrap();
    // The user tightened the lead time; a later sync must not reset it.
    store
        .update_notification(
            "abc".to_string(),
            calendar_notice::models::NotificationUpdate {
                enabled: Some(false),
                notification_sec_from_start: Some(120),
            },
        )
        .unwrap();
    let moved = parent(vec![remote(
        "abc",
        "Standup (moved)",
        "2023-08-01T13:05:00+09:00",
        "2023-08-01T13:30:00+09:00",
    )]);
    update_events(&mut store, &moved).unwrap();
    let pairs = all_events(&store);
    assert_eq!(pairs[0].1.enabled, false);
    assert_eq!(pairs[0].1.notification_sec_from_start, 120);
}

#[test]
fn event_without_timestamps_is_skipped_and_recorded() {
    let mut all_day = GoogleCalendarEvent::default();
    all_day.id = "allday".to_string();
    all_day.summary = "Holiday".to_string();
    all_day.start.date = Some("2023-08-11".to_string());
    all_day.end.date = Some("2023-08-12".to_string());
    let items = vec![
        all_day,
        remote("abc", "Standup", "2023-08-01T12:05:00+09:00", "2023-08-01T12:30:00+09:00"),
    ];
    let out = reconcile(&items, &Vec::new());
    assert_eq!(out.skipped, vec!["allday".to_string()]);
    assert_eq!(out.creates.len(), 1);
    assert_eq!(out.creates[0].id, "abc");
}

#[test]
fn absent_remote_event_deletes_nothing() {
    let mut store = EventStore::new();
    let both = parent(vec![
        remote("abc", "Standup", "2023-08-01T12:05:00+09:00", "2023-08-01T12:30:00+09:00"),
        remote("def", "Retro", "2023-08-02T15:00:00+09:00", "2023-08-02T16:00:00+09:00"),
    ]);
    update_events(&mut store, &both).unwrap();
    let only_one = parent(vec![remote(
        "abc",
        "Standup",
        "2023-08-01T12:05:00+09:00",
        "2023-08-01T12:30:00+09:00",
    )]);
    update_events(&mut store, &only_one).unwrap();
    assert_eq!(all_events(&store).len(), 2);
}

#[test]
fn missing_status_is_stored_as_unknown() {
    let mut e = remote("abc", "Standup", "2023-08-01T12:05:00+09:00", "2023-08-01T12:30:00+09:00");
    e.status = None;
    let out = reconcile(&vec![e], &Vec::new());
    assert_eq!(out.creates[0].status.as_deref(), Some("unknown"));
}

#[test]
fn status_texts_match_the_provider() {
    assert_eq!(EventStatus::Confirmed.to_string(), "confirmed");
    assert_eq!(EventStatus::Tentative.to_string(), "tentative");
    assert_eq!(EventStatus::Cancelled.to_string(), "cancelled");
    assert_eq!(EventStatus::Unknown.to_string(), "unknown");
}

fn bearer_token() -> OAuthToken {
    OAuthToken {
        id: "tok-1".to_string(),
        access_token: "SECRET-REDACTED".to_string(),
        expires_in: Some("3600".to_string()),
        refresh_token: Some("SECRET-REDACTED".to_string()),
        scope: None,
        token_type: Some("Bearer".to_string()),
        created_at: "2021-07-01T00:00:00+09:00".to_string(),
        updated_at: "2021-07-01T00:00:00+09:00".to_string(),
    }
}

#[test]
fn fetch_success_proceeds_to_reconciliation() {
    let r = handle_google_calendar_event_result(Ok(parent(vec![])), &bearer_token());
    assert!(matches!(r, FetchFollowUp::Proceed(_)));
}

#[test]
fn unauthorized_fetch_refreshes_once_and_skips() {
    let r = handle_google_calendar_event_result(Err(Error::Unauthorized), &bearer_token());
    assert!(matches!(r, FetchFollowUp::RefreshAndSkip));

    let mut bare = bearer_token();
    bare.refresh_token = None;
    let r = handle_google_calendar_event_result(Err(Error::Unauthorized), &bare);
    assert!(matches!(r, FetchFollowUp::ReauthorizeAndSkip));
}

#[test]
fn other_fetch_failures_skip_the_cycle() {
    let r = handle_google_calendar_event_result(
        Err(Error::Parse("bad payload".to_string())),
        &bearer_token(),
    );
    assert!(matches!(r, FetchFollowUp::Skip(Error::Parse(ref s)) if s == "bad payload"));
    let r = handle_google_calendar_event_result(
        Err(Error::Reqwest("timed out".to_string())),
        &bearer_token(),
    );
    assert!(matches!(r, FetchFollowUp::Skip(Error::Reqwest(_))));
}

#[test]
fn fetch_window_spans_lookback_to_horizon() {
    let now = 1_000_000i64;
    let (from, to) = calendar_notice::google_calendar::fetch_window(now);
    assert_eq!(from, now - 600);
    assert_eq!(to, now + 3 * 86400);
}

#[test]
fn duplicate_create_leaves_the_store_unchanged() {
    let mut store = EventStore::new();
    let batch = parent(vec![remote(
        "abc",
        "Standup",
        "2023-08-01T12:05:00+09:00",
        "2023-08-01T12:30:00+09:00",
    )]);
    update_events(&mut store, &batch).unwrap();
    let twin = Event {
        id: "abc".to_string(),
        summary: "Twin".to_string(),
        description: None,
        status: None,
        hangout_link: None,
        zoom_link: None,
        teams_link: None,
        start_datetime: "2023-08-01T12:05:00+09:00".to_string(),
        end_datetime: "2023-08-01T12:30:00+09:00".to_string(),
    };
    let result = store.create_many(vec![twin]);
    assert!(matches!(
        result,
        Err(calendar_notice::repository::StoreError::DuplicateId)
    ));
    assert_eq!(all_events(&store).len(), 1);
    assert_eq!(all_events(&store)[0].0.summary, "Standup");
}

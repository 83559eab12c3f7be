use calendar_notice::command_line::{
    command_line_step, handle_update_enabled, is_blank, CommandAction, CommandLineState,
    ToggleError,
};
use calendar_notice::decimal::{parse_i64, u64_to_string};
use calendar_notice::models::{Event, Notification};

#[test]
fn blank_line_quits() {
    assert!(is_blank(""));
    assert!(is_blank("  \t"));
    assert!(!is_blank(" q "));
    let (action, state) = command_line_step(CommandLineState::Top, "  ");
    assert_eq!(action, CommandAction::Quit);
    assert_eq!(state, CommandLineState::End);
}

#[test]
fn commands_dispatch_by_name() {
    let top = CommandLineState::Top;
    assert_eq!(command_line_step(top, "token"), (CommandAction::ShowToken, CommandLineState::Top));
    assert_eq!(command_line_step(top, "refresh"), (CommandAction::Refresh, CommandLineState::Top));
    assert_eq!(command_line_step(top, "sync"), (CommandAction::Sync, CommandLineState::Top));
    assert_eq!(
        command_line_step(top, "list"),
        (CommandAction::ListNotifications, CommandLineState::UpdateEnable)
    );
    assert_eq!(command_line_step(top, "help"), (CommandAction::Ignore, CommandLineState::Top));
}

#[test]
fn after_a_list_the_next_line_toggles() {
    let (action, state) = command_line_step(CommandLineState::UpdateEnable, "2");
    assert_eq!(action, CommandAction::ToggleByNumber);
    assert_eq!(state, CommandLineState::Top);
}

fn listed() -> Vec<(Event, Notification)> {
    let ev = |id: &str| Event {
        id: id.to_string(),
        summary: "Standup".to_string(),
        description: None,
        status: None,
        hangout_link: None,
        zoom_link: None,
        teams_link: None,
        start_datetime: "2023-08-01T12:05:00+09:00".to_string(),
        end_datetime: "2023-08-01T12:30:00+09:00".to_string(),
    };
    vec![
        (ev("abc"), Notification { event_id: "abc".to_string(), enabled: true, notification_sec_from_start: 600 }),
        (ev("def"), Notification { event_id: "def".to_string(), enabled: false, notification_sec_from_start: 300 }),
    ]
}

#[test]
fn toggle_flips_the_numbered_entry() {
    let events = listed();
    let (id, update) = handle_update_enabled(&events, "1").unwrap();
    assert_eq!(id, "abc");
    assert_eq!(update.enabled, Some(false));
    assert_eq!(update.notification_sec_from_start, None);

    let (id, update) = handle_update_enabled(&events, "2").unwrap();
    assert_eq!(id, "def");
    assert_eq!(update.enabled, Some(true));
}

#[test]
fn toggle_rejects_bad_input() {
    let events = listed();
    assert_eq!(handle_update_enabled(&events, "two"), Err(ToggleError::NotANumber));
    assert_eq!(handle_update_enabled(&events, ""), Err(ToggleError::NotANumber));
    assert_eq!(handle_update_enabled(&events, "0"), Err(ToggleError::OutOfRange));
    assert_eq!(handle_update_enabled(&events, "3"), Err(ToggleError::OutOfRange));
    assert_eq!(handle_update_enabled(&events, "-1"), Err(ToggleError::OutOfRange));
}

#[test]
fn decimal_parse_reads_exact_values() {
    assert_eq!(parse_i64("0"), Some(0));
    assert_eq!(parse_i64("3600"), Some(3600));
    assert_eq!(parse_i64("-42"), Some(-42));
    assert_eq!(parse_i64("9223372036854775807"), Some(i64::MAX));
    assert_eq!(parse_i64("9223372036854775808"), None);
    assert_eq!(parse_i64(""), None);
    assert_eq!(parse_i64("-"), None);
    assert_eq!(parse_i64("12a"), None);
    assert_eq!(parse_i64(" 12"), None);
}

#[test]
fn decimal_print_writes_exact_digits() {
    assert_eq!(u64_to_string(0), "0");
    assert_eq!(u64_to_string(7), "7");
    assert_eq!(u64_to_string(3599), "3599");
    assert_eq!(u64_to_string(1234567890), "1234567890");
    assert_eq!(u64_to_string(u64::MAX), "18446744073709551615");
}

#[test]
fn decimal_print_and_parse_round_trip() {
    for n in [0u64, 1, 59, 600, 86400, 1699999999] {
        assert_eq!(parse_i64(&u64_to_string(n)), Some(n as i64));
    }
}

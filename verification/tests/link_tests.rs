use calendar_notice::links::{extract_teams_link, extract_zoom_link};

#[test]
fn finds_a_teams_link_in_text() {
    let description =
        "Meeting link: https://teams.microsoft.com/l/meetup-join/19%3ameeting_ABC123...";
    assert_eq!(
        extract_teams_link(description),
        Some("https://teams.microsoft.com/l/meetup-join/19%3ameeting_ABC123...".to_string())
    );
}

#[test]
fn teams_link_ends_at_whitespace() {
    let description = "join https://teams.microsoft.com/l/meetup-join/abc123 today";
    assert_eq!(
        extract_teams_link(description),
        Some("https://teams.microsoft.com/l/meetup-join/abc123".to_string())
    );
}

#[test]
fn text_without_teams_link_gives_nothing() {
    assert_eq!(extract_teams_link("no conferencing in this text"), None);
    // The prefix alone, with nothing after it, is not a link.
    assert_eq!(
        extract_teams_link("https://teams.microsoft.com/l/meetup-join/"),
        None
    );
}

#[test]
fn finds_a_zoom_link_with_password() {
    let description =
        "Meeting link: https://zoom.us/j/95428352872?pwd=SYUHanJf8xXQR51lhTKI8u3RSDWLVF.1";
    assert_eq!(
        extract_zoom_link(description),
        Some("https://zoom.us/j/95428352872?pwd=SYUHanJf8xXQR51lhTKI8u3RSDWLVF.1".to_string())
    );
}

#[test]
fn text_without_zoom_link_gives_nothing() {
    assert_eq!(extract_zoom_link("no conferencing in this text"), None);
    assert_eq!(extract_zoom_link("https://zoom.us/x/123"), None);
}

#[test]
fn webinar_link_is_rebuilt_as_a_join_link() {
    let webinar_link = "Join the webinar: https://us02.zoom.us/w/98765432100";
    assert_eq!(
        extract_zoom_link(webinar_link),
        Some("https://zoom.us/j/98765432100".to_string())
    );
}

#[test]
fn zoom_conference_room_link_is_rebuilt_too() {
    assert_eq!(
        extract_zoom_link("https://zoom.us/wc/12345"),
        Some("https://zoom.us/j/12345".to_string())
    );
}

use calendar_notice::google_calendar::SyncAction;
use calendar_notice::models::{OAuthToken, OAuthTokenUpdate};
use calendar_notice::oauth::{
    build_new_token, build_token_update, generate_code_challenge, is_token_expired, OAuthResponse,
};
use calendar_notice::repository::OAuthTokenStore;

fn epoch(s: &str) -> i64 {
    chrono::DateTime::parse_from_rfc3339(s).unwrap().timestamp()
}

fn token(expires_in: Option<&str>, updated_at: &str) -> OAuthToken {
    OAuthToken {
        id: "tok-1".to_string(),
        access_token: "SECRET-REDACTED".to_string(),
        expires_in: expires_in.map(|s| s.to_string()),
        refresh_token: Some("SECRET-REDACTED".to_string()),
        scope: None,
        token_type: Some("Bearer".to_string()),
        created_at: updated_at.to_string(),
        updated_at: updated_at.to_string(),
    }
}

#[test]
fn test_is_token_expired() {
    let token = token(Some("3600"), "2021-07-01T00:00:00+09:00");

    let now = epoch("2021-07-01T00:59:00+09:00");
    assert_eq!(is_token_expired(&token, now), false);

    let now = epoch("2021-07-01T01:59:01+09:00");
    assert_eq!(is_token_expired(&token, now), true);
}

#[test]
fn expiry_boundary_one_second_each_side() {
    // Margin-adjusted expiry lies at updated_at + 3600 - 60.
    let t = token(Some("3600"), "2021-07-01T00:00:00+09:00");
    let adjusted = epoch("2021-07-01T00:00:00+09:00") + 3600 - 60;
    assert_eq!(is_token_expired(&t, adjusted - 1), false);
    assert_eq!(is_token_expired(&t, adjusted), false);
    assert_eq!(is_token_expired(&t, adjusted + 1), true);
}

#[test]
fn missing_or_malformed_lifetime_is_expired() {
    let now = epoch("2021-07-01T00:00:00+09:00");
    assert_eq!(is_token_expired(&token(None, "2021-07-01T00:00:00+09:00"), now), true);
    assert_eq!(is_token_expired(&token(Some("soon"), "2021-07-01T00:00:00+09:00"), now), true);
    assert_eq!(is_token_expired(&token(Some("3600"), "not a timestamp"), now), true);
}

#[test]
fn expired_credential_is_refreshed_before_any_fetch() {
    // The credential expires at T; at now = T + 30 with a margin of 60 it
    // counts as expired, and the cycle refreshes before fetching.
    let t = token(Some("3600"), "2021-07-01T00:00:00+09:00");
    let expiry = epoch("2021-07-01T00:00:00+09:00") + 3600;
    let now = expiry + 30;
    assert!(is_token_expired(&t, now));
    let action = calendar_notice::google_calendar::sync_cycle_action(&Some(t), now);
    assert_eq!(action, SyncAction::RefreshThenSync);
}

#[test]
fn sync_cycle_without_credential_reauthorizes() {
    let now = epoch("2021-07-01T00:00:00+09:00");
    assert_eq!(
        calendar_notice::google_calendar::sync_cycle_action(&None, now),
        SyncAction::Reauthorize
    );

    let mut t = token(Some("3600"), "2021-07-01T00:00:00+09:00");
    t.refresh_token = None;
    let now_late = epoch("2021-07-03T00:00:00+09:00");
    assert_eq!(
        calendar_notice::google_calendar::sync_cycle_action(&Some(t), now_late),
        SyncAction::Reauthorize
    );
}

#[test]
fn live_credential_syncs_directly() {
    let t = token(Some("3600"), "2021-07-01T00:00:00+09:00");
    let now = epoch("2021-07-01T00:10:00+09:00");
    assert_eq!(
        calendar_notice::google_calendar::sync_cycle_action(&Some(t), now),
        SyncAction::SyncNow
    );
}

fn response(refresh: Option<&str>) -> OAuthResponse {
    OAuthResponse {
        access_token: "SECRET-REDACTED".to_string(),
        expires_in: 3599,
        refresh_token: refresh.map(|s| s.to_string()),
        scope: "calendar.readonly".to_string(),
        token_type: "Bearer".to_string(),
    }
}

#[test]
fn token_update_carries_wire_fields() {
    let u = build_token_update(&response(Some("SECRET-REDACTED")), "2021-07-01T01:00:00+09:00".to_string());
    assert_eq!(u.access_token.as_deref(), Some("SECRET-REDACTED"));
    assert_eq!(u.expires_in.as_deref(), Some("3599"));
    assert_eq!(u.refresh_token.as_deref(), Some("SECRET-REDACTED"));
    assert_eq!(u.scope.as_deref(), Some("calendar.readonly"));
    assert_eq!(u.token_type.as_deref(), Some("Bearer"));
    assert_eq!(u.updated_at, "2021-07-01T01:00:00+09:00");
}

#[test]
fn refresh_without_new_secret_retains_the_stored_one() {
    // The provider issued no new refresh secret: the in-place update leaves
    // the stored one untouched.
    let mut store = OAuthTokenStore::new();
    store.create(token(Some("3600"), "2021-07-01T00:00:00+09:00")).unwrap();
    let update = build_token_update(&response(None), "2021-07-01T01:00:00+09:00".to_string());
    assert!(update.refresh_token.is_none());
    store.update("tok-1".to_string(), update).unwrap();
    let latest = store.find_latest().unwrap().unwrap();
    assert_eq!(latest.refresh_token.as_deref(), Some("SECRET-REDACTED"));
    assert_eq!(latest.expires_in.as_deref(), Some("3599"));
    assert_eq!(latest.updated_at, "2021-07-01T01:00:00+09:00");
    assert_eq!(latest.created_at, "2021-07-01T00:00:00+09:00");
}

#[test]
fn new_token_gets_fresh_identifier_and_timestamps() {
    let t = build_new_token(&response(Some("SECRET-REDACTED")), "2021-07-01T00:00:00+09:00".to_string());
    assert_eq!(t.id.len(), 36);
    assert_eq!(t.access_token, "SECRET-REDACTED");
    assert_eq!(t.expires_in.as_deref(), Some("3599"));
    assert_eq!(t.created_at, "2021-07-01T00:00:00+09:00");
    assert_eq!(t.updated_at, "2021-07-01T00:00:00+09:00");
}

#[test]
fn find_latest_picks_most_recent_creation() {
    let mut store = OAuthTokenStore::new();
    let mut older = token(Some("3600"), "2021-01-01T00:00:00+09:00");
    older.id = "tok-old".to_string();
    let mut newer = token(Some("3600"), "2022-01-01T00:00:00+09:00");
    newer.id = "tok-new".to_string();
    // Inserted newest first: creation order must not decide.
    store.create(newer).unwrap();
    store.create(older).unwrap();
    let latest = store.find_latest().unwrap().unwrap();
    assert_eq!(latest.id, "tok-new");
}

#[test]
fn find_latest_on_empty_store_is_none() {
    let store = OAuthTokenStore::new();
    assert!(store.find_latest().unwrap().is_none());
}

#[test]
fn duplicate_token_id_is_rejected() {
    let mut store = OAuthTokenStore::new();
    store.create(token(Some("3600"), "2021-07-01T00:00:00+09:00")).unwrap();
    let result = store.create(token(Some("7200"), "2021-07-02T00:00:00+09:00"));
    assert!(matches!(
        result,
        Err(calendar_notice::repository::StoreError::DuplicateId)
    ));
}

#[test]
fn code_challenge_is_long_alphanumeric() {
    let c = generate_code_challenge();
    assert_eq!(c.len(), 60);
    assert!(c.chars().all(|ch| ch.is_ascii_alphanumeric()));
    // Two draws almost surely differ; equal draws would point at a stuck
    // generator.
    let d = generate_code_challenge();
    assert!(c != d || c.is_empty());
}

#[test]
fn request_bodies_carry_the_form_fields() {
    let secret = calendar_notice::oauth::OAuthSecret {
        client_id: "client".to_string(),
        client_secret: "SECRET-REDACTED".to_string(),
        token_uri: "https://example.com/token".to_string(),
    };
    let body = calendar_notice::oauth::refresh_request_body(&secret, "SECRET-REDACTED".to_string());
    assert_eq!(body.len(), 4);
    assert_eq!(body[0], ("client_id".to_string(), "client".to_string()));
    assert_eq!(body[3].0, "grant_type");
    assert_eq!(body[3].1, "refresh_token");

    let body = calendar_notice::oauth::redirect_request_body(
        &secret,
        "code-1".to_string(),
        "challenge".to_string(),
        "http://localhost:8990/auth".to_string(),
    );
    assert_eq!(body.len(), 6);
    assert_eq!(body[0], ("code".to_string(), "code-1".to_string()));
    assert_eq!(body[3].1, "authorization_code");
    assert_eq!(body[5].1, "http://localhost:8990/auth");
}

#[test]
fn token_update_applies_field_wise() {
    let mut store = OAuthTokenStore::new();
    store.create(token(Some("3600"), "2021-07-01T00:00:00+09:00")).unwrap();
    let update = OAuthTokenUpdate {
        access_token: Some("SECRET-REDACTED".to_string()),
        expires_in: None,
        refresh_token: None,
        scope: None,
        token_type: None,
        updated_at: "2021-07-01T02:00:00+09:00".to_string(),
    };
    store.update("tok-1".to_string(), update).unwrap();
    let t = store.find_latest().unwrap().unwrap();
    assert_eq!(t.expires_in.as_deref(), Some("3600"));
    assert_eq!(t.updated_at, "2021-07-01T02:00:00+09:00");
}

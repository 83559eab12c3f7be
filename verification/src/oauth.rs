//! Credential lifecycle: deciding expiry, assembling refreshed credentials,
//! and preparing the request bodies for the provider's token endpoint.

use vstd::prelude::*;

use crate::decimal::{dec_digits, parse_i64, parse_i64_spec};
use crate::models::{clone_opt_string, OAuthToken, OAuthTokenUpdate, OAuthTokenView};
use crate::timestamp::{parse_rfc3339_epoch, rfc3339_epoch};

use rand::distr::SampleString;

verus! {

/// Margin, in seconds, subtracted from a credential's lifetime so that a
/// credential stops being used slightly before the provider rejects it.
pub const EXPIRED_MARGIN_SEC: i64 = 60;

/// The expiry rule: a credential last written at `updated` with `lifetime`
/// seconds to live counts as expired at `now` once the margin-adjusted expiry
/// instant lies in the past.
pub open spec fn expired_at(updated: int, lifetime: int, now: int) -> bool {
    updated + lifetime - EXPIRED_MARGIN_SEC < now
}

/// What `is_token_expired` decides: the expiry rule where both the update
/// timestamp and the lifetime are readable; expired (fail safe) where either
/// is absent or malformed.
pub open spec fn spec_is_token_expired(t: OAuthTokenView, now: int) -> bool {
    match t.expires_in {
        Some(es) => match parse_i64_spec(es) {
            Some(lifetime) => match rfc3339_epoch(t.updated_at) {
                Some(updated) => expired_at(updated as int, lifetime as int, now),
                None => true,
            },
            None => true,
        },
        None => true,
    }
}

/// Decides whether a credential is expired at `now` (seconds since the Unix
/// epoch), with a safety margin. A credential without a readable lifetime or
/// update timestamp counts as already expired, so it is never used.
pub fn is_token_expired(token: &OAuthToken, now: i64) -> (r: bool)
    ensures
        r == spec_is_token_expired(token@, now as int),
{
    let lifetime: i64 = match &token.expires_in {
        Some(es) => match parse_i64(es.as_str()) {
            Some(lifetime) => lifetime,
            None => {
                return true;
            },
        },
        None => {
            return true;
        },
    };
    let updated: i64 = match parse_rfc3339_epoch(token.updated_at.as_str()) {
        Some(updated) => updated,
        None => {
            return true;
        },
    };
    (updated as i128) + (lifetime as i128) - (EXPIRED_MARGIN_SEC as i128) < (now as i128)
}

/// One second before the margin-adjusted expiry instant a credential is not
/// yet expired; one second after it, it is.
pub proof fn lemma_expiry_boundary(updated: int, lifetime: int)
    ensures
        !expired_at(updated, lifetime, updated + lifetime - EXPIRED_MARGIN_SEC - 1),
        expired_at(updated, lifetime, updated + lifetime - EXPIRED_MARGIN_SEC + 1),
{
}

/// A refresh that carries no new refresh secret retains the stored one: the
/// in-place update leaves the field as it was.
pub proof fn lemma_refresh_retains_secret(
    t: OAuthTokenView,
    u: crate::models::OAuthTokenUpdateView,
)
    requires
        u.refresh_token is None,
    ensures
        crate::models::apply_token_update(t, u).refresh_token == t.refresh_token,
{
}

/// A credential's wire shape as the token endpoint returns it.
pub struct OAuthResponse {
    pub access_token: String,
    pub expires_in: u64,
    pub refresh_token: Option<String>,
    pub scope: String,
    pub token_type: String,
}

/// Mathematical view of an [`OAuthResponse`].
pub struct OAuthResponseView {
    pub access_token: Seq<char>,
    pub expires_in: u64,
    pub refresh_token: Option<Seq<char>>,
    pub scope: Seq<char>,
    pub token_type: Seq<char>,
}

impl View for OAuthResponse {
    type V = OAuthResponseView;

    open spec fn view(&self) -> OAuthResponseView {
        OAuthResponseView {
            access_token: self.access_token@,
            expires_in: self.expires_in,
            refresh_token: self.refresh_token.deep_view(),
            scope: self.scope@,
            token_type: self.token_type@,
        }
    }
}

/// The in-place update a successful refresh writes back: every wire field is
/// written; the refresh secret is carried over only when the provider issued
/// a new one (`None` leaves the stored secret in place).
pub fn build_token_update(response: &OAuthResponse, updated_at: String) -> (u: OAuthTokenUpdate)
    ensures
        u@.access_token == Some(response@.access_token),
        u@.expires_in == Some(dec_digits(response.expires_in as nat)),
        u@.refresh_token == response@.refresh_token,
        u@.scope == Some(response@.scope),
        u@.token_type == Some(response@.token_type),
        u@.updated_at == updated_at@,
{
    OAuthTokenUpdate {
        access_token: Some(response.access_token.clone()),
        expires_in: Some(crate::decimal::u64_to_string(response.expires_in)),
        refresh_token: clone_opt_string(&response.refresh_token),
        scope: Some(response.scope.clone()),
        token_type: Some(response.token_type.clone()),
        updated_at,
    }
}

/// Relies on uuid's `Uuid::new_v4` and its hyphenated text form, which is
/// exactly 36 characters.
#[verifier::external_body]
fn new_uuid_string() -> (r: String)
    ensures
        r@.len() == 36,
{
    uuid::Uuid::new_v4().to_string()
}

/// The credential a fresh authorization handshake persists: a new 36-character
/// identifier, the wire fields, and `now` as both creation and update time.
pub fn build_new_token(response: &OAuthResponse, now: String) -> (t: OAuthToken)
    ensures
        t@.id.len() == 36,
        t@.access_token == response@.access_token,
        t@.expires_in == Some(dec_digits(response.expires_in as nat)),
        t@.refresh_token == response@.refresh_token,
        t@.scope == Some(response@.scope),
        t@.token_type == Some(response@.token_type),
        t@.created_at == now@,
        t@.updated_at == now@,
{
    OAuthToken {
        id: new_uuid_string(),
        access_token: response.access_token.clone(),
        expires_in: Some(crate::decimal::u64_to_string(response.expires_in)),
        refresh_token: clone_opt_string(&response.refresh_token),
        scope: Some(response.scope.clone()),
        token_type: Some(response.token_type.clone()),
        created_at: now.clone(),
        updated_at: now,
    }
}

/// Whether `c` is an ASCII letter or digit.
pub open spec fn is_alphanumeric_char(c: char) -> bool {
    (48 <= c as u32 && c as u32 <= 57) || (65 <= c as u32 && c as u32 <= 90) || (97 <= c as u32
        && c as u32 <= 122)
}

/// Relies on rand's `Alphanumeric` distribution through `SampleString`:
/// the sample is exactly `len` characters, each drawn from a-z, A-Z and 0-9.
#[verifier::external_body]
fn random_alphanumeric(len: usize) -> (r: String)
    ensures
        r@.len() == len,
        forall|i: int| 0 <= i < r@.len() ==> is_alphanumeric_char(#[trigger] r@[i]),
{
    rand::distr::Alphanumeric.sample_string(&mut rand::rng(), len)
}

/// Length of the code-challenge verifier handed to the authorization flow.
pub const CODE_CHALLENGE_LEN: usize = 60;

/// A fresh code-challenge verifier: alphanumeric text of the fixed length.
pub fn generate_code_challenge() -> (r: String)
    ensures
        r@.len() == CODE_CHALLENGE_LEN,
        forall|i: int| 0 <= i < r@.len() ==> is_alphanumeric_char(#[trigger] r@[i]),
{
    random_alphanumeric(CODE_CHALLENGE_LEN)
}

/// Secrets of the OAuth client, as read out of its configuration file.
pub struct OAuthSecret {
    pub client_id: String,
    pub client_secret: String,
    pub token_uri: String,
}

/// Mathematical view of an [`OAuthSecret`].
pub struct OAuthSecretView {
    pub client_id: Seq<char>,
    pub client_secret: Seq<char>,
    pub token_uri: Seq<char>,
}

impl View for OAuthSecret {
    type V = OAuthSecretView;

    open spec fn view(&self) -> OAuthSecretView {
        OAuthSecretView {
            client_id: self.client_id@,
            client_secret: self.client_secret@,
            token_uri: self.token_uri@,
        }
    }
}

impl Clone for OAuthSecret {
    fn clone(&self) -> (r: Self)
        ensures
            r@ == self@,
    {
        OAuthSecret {
            client_id: self.client_id.clone(),
            client_secret: self.client_secret.clone(),
            token_uri: self.token_uri.clone(),
        }
    }
}

/// The form fields of a refresh request to the token endpoint.
pub fn refresh_request_body(secret: &OAuthSecret, refresh_token: String) -> (r: Vec<
    (String, String),
>)
    ensures
        r@.len() == 4,
        r@[0].0@ == "client_id"@ && r@[0].1@ == secret@.client_id,
        r@[1].0@ == "client_secret"@ && r@[1].1@ == secret@.client_secret,
        r@[2].0@ == "refresh_token"@ && r@[2].1@ == refresh_token@,
        r@[3].0@ == "grant_type"@ && r@[3].1@ == "refresh_token"@,
{
    let mut r: Vec<(String, String)> = Vec::new();
    r.push(("client_id".to_owned(), secret.client_id.clone()));
    r.push(("client_secret".to_owned(), secret.client_secret.clone()));
    r.push(("refresh_token".to_owned(), refresh_token));
    r.push(("grant_type".to_owned(), "refresh_token".to_owned()));
    r
}

/// The form fields of an authorization-code exchange at the token endpoint.
pub fn redirect_request_body(
    secret: &OAuthSecret,
    code: String,
    code_challenge: String,
    redirect_uri: String,
) -> (r: Vec<(String, String)>)
    ensures
        r@.len() == 6,
        r@[0].0@ == "code"@ && r@[0].1@ == code@,
        r@[1].0@ == "client_id"@ && r@[1].1@ == secret@.client_id,
        r@[2].0@ == "client_secret"@ && r@[2].1@ == secret@.client_secret,
        r@[3].0@ == "grant_type"@ && r@[3].1@ == "authorization_code"@,
        r@[4].0@ == "code_challenge"@ && r@[4].1@ == code_challenge@,
        r@[5].0@ == "redirect_uri"@ && r@[5].1@ == redirect_uri@,
{
    let mut r: Vec<(String, String)> = Vec::new();
    r.push(("code".to_owned(), code));
    r.push(("client_id".to_owned(), secret.client_id.clone()));
    r.push(("client_secret".to_owned(), secret.client_secret.clone()));
    r.push(("grant_type".to_owned(), "authorization_code".to_owned()));
    r.push(("code_challenge".to_owned(), code_challenge));
    r.push(("redirect_uri".to_owned(), redirect_uri));
    r
}

} // verus!

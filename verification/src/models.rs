//! Data model of the synchronization core: locally stored events, their
//! notification settings, and OAuth credentials, together with the update
//! and query shapes that the stores accept.
//!
//! Each executable type has a mathematical view (`...View`) over sequences of
//! characters; all contracts in the crate speak of those views.

use vstd::prelude::*;

verus! {

/// Clones an optional string, keeping its view.
pub fn clone_opt_string(o: &Option<String>) -> (r: Option<String>)
    ensures
        r.deep_view() == o.deep_view(),
{
    match o {
        Some(s) => Some(s.clone()),
        None => None,
    }
}

/// A locally persisted calendar event, keyed by the provider-issued id.
/// Timestamps keep the provider's literal RFC 3339 representation.
#[derive(Debug, PartialEq, Eq)]
pub struct Event {
    pub id: String,
    pub summary: String,
    pub description: Option<String>,
    pub status: Option<String>,
    pub hangout_link: Option<String>,
    pub zoom_link: Option<String>,
    pub teams_link: Option<String>,
    pub start_datetime: String,
    pub end_datetime: String,
}

/// Mathematical view of an [`Event`].
pub struct EventView {
    pub id: Seq<char>,
    pub summary: Seq<char>,
    pub description: Option<Seq<char>>,
    pub status: Option<Seq<char>>,
    pub hangout_link: Option<Seq<char>>,
    pub zoom_link: Option<Seq<char>>,
    pub teams_link: Option<Seq<char>>,
    pub start_datetime: Seq<char>,
    pub end_datetime: Seq<char>,
}

impl View for Event {
    type V = EventView;

    open spec fn view(&self) -> EventView {
        EventView {
            id: self.id@,
            summary: self.summary@,
            description: self.description.deep_view(),
            status: self.status.deep_view(),
            hangout_link: self.hangout_link.deep_view(),
            zoom_link: self.zoom_link.deep_view(),
            teams_link: self.teams_link.deep_view(),
            start_datetime: self.start_datetime@,
            end_datetime: self.end_datetime@,
        }
    }
}

impl DeepView for Event {
    type V = EventView;

    open spec fn deep_view(&self) -> EventView {
        self.view()
    }
}

impl Clone for Event {
    fn clone(&self) -> (r: Self)
        ensures
            r@ == self@,
    {
        Event {
            id: self.id.clone(),
            summary: self.summary.clone(),
            description: clone_opt_string(&self.description),
            status: clone_opt_string(&self.status),
            hangout_link: clone_opt_string(&self.hangout_link),
            zoom_link: clone_opt_string(&self.zoom_link),
            teams_link: clone_opt_string(&self.teams_link),
            start_datetime: self.start_datetime.clone(),
            end_datetime: self.end_datetime.clone(),
        }
    }
}

/// The per-event notification setting; one exists per stored event,
/// keyed by the event's id.
#[derive(Debug, PartialEq, Eq)]
pub struct Notification {
    pub event_id: String,
    pub enabled: bool,
    pub notification_sec_from_start: i32,
}

/// Mathematical view of a [`Notification`].
pub struct NotificationView {
    pub event_id: Seq<char>,
    pub enabled: bool,
    pub notification_sec_from_start: i32,
}

impl View for Notification {
    type V = NotificationView;

    open spec fn view(&self) -> NotificationView {
        NotificationView {
            event_id: self.event_id@,
            enabled: self.enabled,
            notification_sec_from_start: self.notification_sec_from_start,
        }
    }
}

impl DeepView for Notification {
    type V = NotificationView;

    open spec fn deep_view(&self) -> NotificationView {
        self.view()
    }
}

impl Clone for Notification {
    fn clone(&self) -> (r: Self)
        ensures
            r@ == self@,
    {
        Notification {
            event_id: self.event_id.clone(),
            enabled: self.enabled,
            notification_sec_from_start: self.notification_sec_from_start,
        }
    }
}

/// An OAuth credential as persisted: access/refresh secrets plus metadata.
/// `expires_in` is the lifetime in seconds, kept in its wire form (decimal
/// text); timestamps keep their RFC 3339 text.
#[derive(Debug, PartialEq, Eq)]
pub struct OAuthToken {
    pub id: String,
    pub access_token: String,
    pub expires_in: Option<String>,
    pub refresh_token: Option<String>,
    pub scope: Option<String>,
    pub token_type: Option<String>,
    pub created_at: String,
    pub updated_at: String,
}

/// Mathematical view of an [`OAuthToken`].
pub struct OAuthTokenView {
    pub id: Seq<char>,
    pub access_token: Seq<char>,
    pub expires_in: Option<Seq<char>>,
    pub refresh_token: Option<Seq<char>>,
    pub scope: Option<Seq<char>>,
    pub token_type: Option<Seq<char>>,
    pub created_at: Seq<char>,
    pub updated_at: Seq<char>,
}

impl View for OAuthToken {
    type V = OAuthTokenView;

    open spec fn view(&self) -> OAuthTokenView {
        OAuthTokenView {
            id: self.id@,
            access_token: self.access_token@,
            expires_in: self.expires_in.deep_view(),
            refresh_token: self.refresh_token.deep_view(),
            scope: self.scope.deep_view(),
            token_type: self.token_type.deep_view(),
            created_at: self.created_at@,
            updated_at: self.updated_at@,
        }
    }
}

impl DeepView for OAuthToken {
    type V = OAuthTokenView;

    open spec fn deep_view(&self) -> OAuthTokenView {
        self.view()
    }
}

impl Clone for OAuthToken {
    fn clone(&self) -> (r: Self)
        ensures
            r@ == self@,
    {
        OAuthToken {
            id: self.id.clone(),
            access_token: self.access_token.clone(),
            expires_in: clone_opt_string(&self.expires_in),
            refresh_token: clone_opt_string(&self.refresh_token),
            scope: clone_opt_string(&self.scope),
            token_type: clone_opt_string(&self.token_type),
            created_at: self.created_at.clone(),
            updated_at: self.updated_at.clone(),
        }
    }
}

/// Field-wise update of a stored event: a `Some` field is written, a `None`
/// field keeps the stored value.
#[derive(Clone, Debug, PartialEq, Eq)]
pub struct EventUpdate {
    pub summary: Option<String>,
    pub description: Option<String>,
    pub status: Option<String>,
    pub hangout_link: Option<String>,
    pub zoom_link: Option<String>,
    pub teams_link: Option<String>,
    pub start_datetime: Option<String>,
    pub end_datetime: Option<String>,
}

/// Mathematical view of an [`EventUpdate`].
pub struct EventUpdateView {
    pub summary: Option<Seq<char>>,
    pub description: Option<Seq<char>>,
    pub status: Option<Seq<char>>,
    pub hangout_link: Option<Seq<char>>,
    pub zoom_link: Option<Seq<char>>,
    pub teams_link: Option<Seq<char>>,
    pub start_datetime: Option<Seq<char>>,
    pub end_datetime: Option<Seq<char>>,
}

impl View for EventUpdate {
    type V = EventUpdateView;

    open spec fn view(&self) -> EventUpdateView {
        EventUpdateView {
            summary: self.summary.deep_view(),
            description: self.description.deep_view(),
            status: self.status.deep_view(),
            hangout_link: self.hangout_link.deep_view(),
            zoom_link: self.zoom_link.deep_view(),
            teams_link: self.teams_link.deep_view(),
            start_datetime: self.start_datetime.deep_view(),
            end_datetime: self.end_datetime.deep_view(),
        }
    }
}

impl DeepView for EventUpdate {
    type V = EventUpdateView;

    open spec fn deep_view(&self) -> EventUpdateView {
        self.view()
    }
}

/// The stored [`EventView`] that results from applying an update: `Some`
/// fields overwrite, `None` fields are left as they were.
pub open spec fn apply_event_update(e: EventView, u: EventUpdateView) -> EventView {
    EventView {
        id: e.id,
        summary: if u.summary is Some { u.summary->0 } else { e.summary },
        description: if u.description is Some { u.description } else { e.description },
        status: if u.status is Some { u.status } else { e.status },
        hangout_link: if u.hangout_link is Some { u.hangout_link } else { e.hangout_link },
        zoom_link: if u.zoom_link is Some { u.zoom_link } else { e.zoom_link },
        teams_link: if u.teams_link is Some { u.teams_link } else { e.teams_link },
        start_datetime: if u.start_datetime is Some { u.start_datetime->0 } else { e.start_datetime },
        end_datetime: if u.end_datetime is Some { u.end_datetime->0 } else { e.end_datetime },
    }
}

/// Field-wise update of a notification setting; `None` keeps the stored value.
#[derive(Clone, Debug, PartialEq, Eq)]
pub struct NotificationUpdate {
    pub enabled: Option<bool>,
    pub notification_sec_from_start: Option<i32>,
}

/// Mathematical view of a [`NotificationUpdate`].
pub struct NotificationUpdateView {
    pub enabled: Option<bool>,
    pub notification_sec_from_start: Option<i32>,
}

impl View for NotificationUpdate {
    type V = NotificationUpdateView;

    open spec fn view(&self) -> NotificationUpdateView {
        NotificationUpdateView {
            enabled: self.enabled,
            notification_sec_from_start: self.notification_sec_from_start,
        }
    }
}

impl DeepView for NotificationUpdate {
    type V = NotificationUpdateView;

    open spec fn deep_view(&self) -> NotificationUpdateView {
        self.view()
    }
}

/// The stored [`NotificationView`] that results from applying an update.
pub open spec fn apply_notification_update(
    n: NotificationView,
    u: NotificationUpdateView,
) -> NotificationView {
    NotificationView {
        event_id: n.event_id,
        enabled: if u.enabled is Some { u.enabled->0 } else { n.enabled },
        notification_sec_from_start: if u.notification_sec_from_start is Some {
            u.notification_sec_from_start->0
        } else {
            n.notification_sec_from_start
        },
    }
}

/// Field-wise update of a stored credential; `None` keeps the stored value,
/// so a refresh that carries no new refresh secret retains the old one.
/// `updated_at` is always written.
#[derive(Clone, Debug, PartialEq, Eq)]
pub struct OAuthTokenUpdate {
    pub access_token: Option<String>,
    pub expires_in: Option<String>,
    pub refresh_token: Option<String>,
    pub scope: Option<String>,
    pub token_type: Option<String>,
    pub updated_at: String,
}

/// Mathematical view of an [`OAuthTokenUpdate`].
pub struct OAuthTokenUpdateView {
    pub access_token: Option<Seq<char>>,
    pub expires_in: Option<Seq<char>>,
    pub refresh_token: Option<Seq<char>>,
    pub scope: Option<Seq<char>>,
    pub token_type: Option<Seq<char>>,
    pub updated_at: Seq<char>,
}

impl View for OAuthTokenUpdate {
    type V = OAuthTokenUpdateView;

    open spec fn view(&self) -> OAuthTokenUpdateView {
        OAuthTokenUpdateView {
            access_token: self.access_token.deep_view(),
            expires_in: self.expires_in.deep_view(),
            refresh_token: self.refresh_token.deep_view(),
            scope: self.scope.deep_view(),
            token_type: self.token_type.deep_view(),
            updated_at: self.updated_at@,
        }
    }
}

impl DeepView for OAuthTokenUpdate {
    type V = OAuthTokenUpdateView;

    open spec fn deep_view(&self) -> OAuthTokenUpdateView {
        self.view()
    }
}

/// The stored [`OAuthTokenView`] that results from applying an update.
pub open spec fn apply_token_update(
    t: OAuthTokenView,
    u: OAuthTokenUpdateView,
) -> OAuthTokenView {
    OAuthTokenView {
        id: t.id,
        access_token: if u.access_token is Some { u.access_token->0 } else { t.access_token },
        expires_in: if u.expires_in is Some { u.expires_in } else { t.expires_in },
        refresh_token: if u.refresh_token is Some { u.refresh_token } else { t.refresh_token },
        scope: if u.scope is Some { u.scope } else { t.scope },
        token_type: if u.token_type is Some { u.token_type } else { t.token_type },
        created_at: t.created_at,
        updated_at: u.updated_at,
    }
}

/// Range and membership query over stored events: `from`/`to` bound the
/// start and end timestamps, `ids_in` restricts to the given identifiers.
pub struct EventFindMany {
    pub from: Option<String>,
    pub to: Option<String>,
    pub ids_in: Option<Vec<String>>,
}

/// Mathematical view of an [`EventFindMany`].
pub struct EventFindManyView {
    pub from: Option<Seq<char>>,
    pub to: Option<Seq<char>>,
    pub ids_in: Option<Seq<Seq<char>>>,
}

impl View for EventFindMany {
    type V = EventFindManyView;

    open spec fn view(&self) -> EventFindManyView {
        EventFindManyView {
            from: self.from.deep_view(),
            to: self.to.deep_view(),
            ids_in: self.ids_in.deep_view(),
        }
    }
}

/// Membership query over stored notification settings.
pub struct NotificationFindMany {
    pub event_ids_in: Option<Vec<String>>,
}

/// Mathematical view of a [`NotificationFindMany`].
pub struct NotificationFindManyView {
    pub event_ids_in: Option<Seq<Seq<char>>>,
}

impl View for NotificationFindMany {
    type V = NotificationFindManyView;

    open spec fn view(&self) -> NotificationFindManyView {
        NotificationFindManyView { event_ids_in: self.event_ids_in.deep_view() }
    }
}

} // verus!

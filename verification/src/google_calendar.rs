//! Remote calendar events as the provider returns them, and the
//! reconciliation engine that diffs a remote batch against the local store.

use vstd::prelude::*;

use crate::models::{
    clone_opt_string, Event, EventFindMany, EventUpdate, EventUpdateView, EventView, Notification,
    NotificationView, OAuthToken,
};
use crate::oauth::spec_is_token_expired;
use crate::repository::{
    apply_updates, event_ids_fresh, find_many_spec, find_notification, has_event_id,
    has_notification_id, ids_query, lemma_apply_updates_preserves_ids, lemma_find_many_complete,
    lemma_find_notification_some, notification_ids_fresh, EventStore,
};

pub use crate::links::{extract_teams_link, extract_zoom_link};

verus! {

/// Wrapper of a provider response: calendar metadata plus the event items.
pub struct GoogleCalendarParent {
    pub kind: String,
    pub etag: String,
    pub summary: String,
    pub description: Option<String>,
    pub updated: String,
    pub time_zone: Option<String>,
    pub access_role: Option<String>,
    pub default_reminders: Option<Vec<Reminder>>,
    pub next_page_token: Option<String>,
    pub items: Vec<GoogleCalendarEvent>,
}

/// Mathematical view of a [`GoogleCalendarParent`]: the fields the
/// synchronization core reads.
pub struct GoogleCalendarParentView {
    pub summary: Seq<char>,
    pub items: Seq<GoogleCalendarEventView>,
}

impl View for GoogleCalendarParent {
    type V = GoogleCalendarParentView;

    open spec fn view(&self) -> GoogleCalendarParentView {
        GoogleCalendarParentView { summary: self.summary@, items: self.items.deep_view() }
    }
}

/// A default reminder attached to the calendar.
pub struct Reminder {
    pub method: String,
    pub minutes: i32,
}

/// The provider's confirmation state of an event.
#[derive(Clone, Copy, Debug, PartialEq, Eq, Structural)]
pub enum EventStatus {
    Confirmed,
    Tentative,
    Cancelled,
    Unknown,
}

/// The text the provider uses for each confirmation state.
pub open spec fn status_text(s: EventStatus) -> Seq<char> {
    match s {
        EventStatus::Confirmed => "confirmed"@,
        EventStatus::Tentative => "tentative"@,
        EventStatus::Cancelled => "cancelled"@,
        EventStatus::Unknown => "unknown"@,
    }
}

impl EventStatus {
    /// The provider's text for this state.
    pub fn to_string(&self) -> (r: String)
        ensures
            r@ == status_text(*self),
    {
        match self {
            EventStatus::Confirmed => "confirmed".to_owned(),
            EventStatus::Tentative => "tentative".to_owned(),
            EventStatus::Cancelled => "cancelled".to_owned(),
            EventStatus::Unknown => "unknown".to_owned(),
        }
    }
}

/// An event item as the provider returns it.
pub struct GoogleCalendarEvent {
    pub kind: String,
    pub etag: String,
    pub id: String,
    pub status: Option<EventStatus>,
    pub html_link: Option<String>,
    pub created: String,
    pub updated: String,
    pub summary: String,
    pub description: Option<String>,
    pub creator: EventPerson,
    pub organizer: EventPerson,
    pub start: EventDateTime,
    pub end: EventDateTime,
    pub recurring_event_id: Option<String>,
    pub original_start_time: Option<EventDateTime>,
    pub transparency: Option<String>,
    pub visibility: Option<String>,
    pub i_cal_uid: Option<String>,
    pub sequence: i32,
    pub attendees: Option<Vec<Attendee>>,
    pub reminders: Option<Reminders>,
    pub event_type: Option<String>,
    pub hangout_link: Option<String>,
    pub conference_data: Option<ConferenceData>,
}

/// Mathematical view of a remote event: the fields reconciliation reads.
pub struct GoogleCalendarEventView {
    pub id: Seq<char>,
    pub status: Option<EventStatus>,
    pub summary: Seq<char>,
    pub description: Option<Seq<char>>,
    pub hangout_link: Option<Seq<char>>,
    pub start_datetime: Option<Seq<char>>,
    pub end_datetime: Option<Seq<char>>,
}

impl View for GoogleCalendarEvent {
    type V = GoogleCalendarEventView;

    open spec fn view(&self) -> GoogleCalendarEventView {
        GoogleCalendarEventView {
            id: self.id@,
            status: self.status,
            summary: self.summary@,
            description: self.description.deep_view(),
            hangout_link: self.hangout_link.deep_view(),
            start_datetime: self.start.date_time.deep_view(),
            end_datetime: self.end.date_time.deep_view(),
        }
    }
}

impl DeepView for GoogleCalendarEvent {
    type V = GoogleCalendarEventView;

    open spec fn deep_view(&self) -> GoogleCalendarEventView {
        self.view()
    }
}

impl Default for GoogleCalendarEvent {
    /// An empty event: blank text, tentative status, no timestamps.
    fn default() -> (r: Self)
        ensures
            r@.id.len() == 0,
            r@.summary.len() == 0,
            r@.status == Some(EventStatus::Tentative),
            r@.description is None,
            r@.hangout_link is None,
            r@.start_datetime is None,
            r@.end_datetime is None,
            r.sequence == 0,
    {
        GoogleCalendarEvent {
            kind: String::new(),
            etag: String::new(),
            id: String::new(),
            status: Some(EventStatus::Tentative),
            html_link: None,
            created: String::new(),
            updated: String::new(),
            summary: String::new(),
            description: None,
            creator: EventPerson::default(),
            organizer: EventPerson::default(),
            start: EventDateTime::default(),
            end: EventDateTime::default(),
            recurring_event_id: None,
            original_start_time: None,
            transparency: None,
            visibility: None,
            i_cal_uid: None,
            sequence: 0,
            attendees: None,
            reminders: None,
            event_type: None,
            hangout_link: None,
            conference_data: None,
        }
    }
}

/// A person attached to an event.
pub struct EventPerson {
    pub email: String,
    pub display_name: Option<String>,
    pub self_: Option<bool>,
}

impl Default for EventPerson {
    /// A person with a blank address and nothing else.
    fn default() -> (r: Self)
        ensures
            r.email@.len() == 0,
            r.display_name is None,
            r.self_ is None,
    {
        EventPerson { email: String::new(), display_name: None, self_: None }
    }
}

/// A point in time as the provider encodes it: a date-time for timed events,
/// a bare date for all-day events.
pub struct EventDateTime {
    pub date_time: Option<String>,
    pub date: Option<String>,
    pub time_zone: Option<String>,
}

impl Default for EventDateTime {
    /// No point in time at all.
    fn default() -> (r: Self)
        ensures
            r.date_time is None,
            r.date is None,
            r.time_zone is None,
    {
        EventDateTime { date_time: None, date: None, time_zone: None }
    }
}

/// An attendee of an event.
pub struct Attendee {
    pub email: String,
    pub display_name: Option<String>,
    pub organizer: Option<bool>,
    pub self_: Option<bool>,
    pub response_status: Option<String>,
}

/// Reminder settings of an event.
pub struct Reminders {
    pub use_default: Option<bool>,
}

/// Conferencing data attached to an event.
pub struct ConferenceData {
    pub entry_points: Vec<EntryPoint>,
    pub conference_solution: ConferenceSolution,
    pub conference_id: String,
}

/// One way of joining a conference.
pub struct EntryPoint {
    pub entry_point_type: String,
    pub uri: String,
    pub label: Option<String>,
    pub pin: Option<String>,
    pub region_code: Option<String>,
}

/// The conferencing product of an event.
pub struct ConferenceSolution {
    pub key: ConferenceSolutionKey,
    pub name: String,
    pub icon_uri: String,
}

/// Key of a conferencing product.
pub struct ConferenceSolutionKey {
    pub type_: String,
}

/// Failures of a remote fetch.
pub enum Error {
    /// The transport failed; the text describes how.
    Reqwest(String),
    /// The provider rejected the credential.
    Unauthorized,
    /// The provider's payload could not be read.
    Parse(String),
}

/// Mathematical view of an [`Error`].
pub enum ErrorView {
    Reqwest(Seq<char>),
    Unauthorized,
    Parse(Seq<char>),
}

impl View for Error {
    type V = ErrorView;

    open spec fn view(&self) -> ErrorView {
        match self {
            Error::Reqwest(s) => ErrorView::Reqwest(s@),
            Error::Unauthorized => ErrorView::Unauthorized,
            Error::Parse(s) => ErrorView::Parse(s@),
        }
    }
}

/// Seconds of lookback when fetching the upcoming window.
pub const FETCH_LOOKBACK_SEC: i64 = 60 * 10;

/// Days of forward horizon when fetching the upcoming window.
pub const FETCH_HORIZON_DAYS: i64 = 3;

/// The window of interest of a remote fetch around `now`: a short lookback
/// and a few days of horizon, in seconds since the Unix epoch.
pub fn fetch_window(now: i64) -> (r: (i64, i64))
    requires
        i64::MIN + FETCH_LOOKBACK_SEC <= now,
        now <= i64::MAX - FETCH_HORIZON_DAYS * 86400,
    ensures
        r.0 == now - FETCH_LOOKBACK_SEC,
        r.1 == now + FETCH_HORIZON_DAYS * 86400,
{
    (now - FETCH_LOOKBACK_SEC, now + FETCH_HORIZON_DAYS * 86400)
}

/// Default lead time, in seconds, of the notification created for a newly
/// observed event.
pub const DEFAULT_NOTIFICATION_SEC: i32 = 60 * 10;

/// Whether a remote event carries both timestamps; one without them (an
/// all-day event) cannot be stored and is skipped with a recorded error.
pub open spec fn is_complete(it: GoogleCalendarEventView) -> bool {
    it.start_datetime is Some && it.end_datetime is Some
}

/// The status text stored for a remote event; an absent status reads as
/// unknown.
pub open spec fn remote_status_text(st: Option<EventStatus>) -> Seq<char> {
    match st {
        Some(s) => status_text(s),
        None => status_text(EventStatus::Unknown),
    }
}

/// The update written for a remote event already stored locally: every
/// provider-supplied field overwrites; fields the provider left out keep
/// their stored value, and user-owned notification settings are untouched.
pub open spec fn update_of(it: GoogleCalendarEventView) -> EventUpdateView {
    EventUpdateView {
        summary: Some(it.summary),
        description: it.description,
        status: Some(remote_status_text(it.status)),
        hangout_link: it.hangout_link,
        zoom_link: None,
        teams_link: None,
        start_datetime: Some(it.start_datetime->0),
        end_datetime: Some(it.end_datetime->0),
    }
}

/// The stored event created for a remote event seen for the first time.
pub open spec fn create_of(it: GoogleCalendarEventView) -> EventView {
    EventView {
        id: it.id,
        summary: it.summary,
        description: it.description,
        status: Some(remote_status_text(it.status)),
        hangout_link: it.hangout_link,
        zoom_link: None,
        teams_link: None,
        start_datetime: it.start_datetime->0,
        end_datetime: it.end_datetime->0,
    }
}

/// The default notification setting paired with a newly created event:
/// enabled, with the fixed default lead time.
pub open spec fn notification_of(id: Seq<char>) -> NotificationView {
    NotificationView {
        event_id: id,
        enabled: true,
        notification_sec_from_start: DEFAULT_NOTIFICATION_SEC,
    }
}

/// What reconciliation emits for a remote batch.
pub struct ReconcileOutput {
    /// One update per remote event whose id is already stored.
    pub updates: Vec<(String, EventUpdate)>,
    /// One create per remote event seen for the first time.
    pub creates: Vec<Event>,
    /// The default notification setting paired with each create.
    pub notification_creates: Vec<Notification>,
    /// Ids of remote events without both timestamps, skipped rather than
    /// stored; recorded so the caller can report them.
    pub skipped: Vec<String>,
}

/// Mathematical view of a [`ReconcileOutput`].
pub struct ReconcileView {
    pub updates: Seq<(Seq<char>, EventUpdateView)>,
    pub creates: Seq<EventView>,
    pub notification_creates: Seq<NotificationView>,
    pub skipped: Seq<Seq<char>>,
}

impl View for ReconcileOutput {
    type V = ReconcileView;

    open spec fn view(&self) -> ReconcileView {
        ReconcileView {
            updates: self.updates.deep_view(),
            creates: self.creates.deep_view(),
            notification_creates: self.notification_creates.deep_view(),
            skipped: self.skipped.deep_view(),
        }
    }
}

/// The ids present in a queried slice of the local store.
pub open spec fn local_id_set(local: Seq<(EventView, NotificationView)>) -> Set<Seq<char>> {
    Set::new(|id: Seq<char>| exists|j: int| 0 <= j < local.len() && #[trigger] local[j].0.id == id)
}

/// What reconciliation emits, one remote event at a time: an incomplete event
/// is skipped, a known id becomes an update, a new id becomes a create with
/// its default notification.
pub open spec fn reconcile_spec(items: Seq<GoogleCalendarEventView>, local_ids: Set<Seq<char>>)
    -> ReconcileView
    decreases items.len(),
{
    if items.len() == 0 {
        ReconcileView {
            updates: Seq::empty(),
            creates: Seq::empty(),
            notification_creates: Seq::empty(),
            skipped: Seq::empty(),
        }
    } else {
        let prev = reconcile_spec(items.drop_last(), local_ids);
        let it = items.last();
        if !is_complete(it) {
            ReconcileView {
                updates: prev.updates,
                creates: prev.creates,
                notification_creates: prev.notification_creates,
                skipped: prev.skipped.push(it.id),
            }
        } else if local_ids.contains(it.id) {
            ReconcileView {
                updates: prev.updates.push((it.id, update_of(it))),
                creates: prev.creates,
                notification_creates: prev.notification_creates,
                skipped: prev.skipped,
            }
        } else {
            ReconcileView {
                updates: prev.updates,
                creates: prev.creates.push(create_of(it)),
                notification_creates: prev.notification_creates.push(notification_of(it.id)),
                skipped: prev.skipped,
            }
        }
    }
}

/// Whether `id` is among the events of the queried local slice.
fn contains_local_id(local: &Vec<(Event, Notification)>, id: &String) -> (r: bool)
    ensures
        r == local_id_set(local.deep_view()).contains(id@),
{
    let ghost lv = local.deep_view();
    let mut j: usize = 0;
    while j < local.len()
        invariant
            j <= local.len(),
            lv == local.deep_view(),
            lv.len() == local.len(),
            forall|k: int| 0 <= k < j ==> #[trigger] lv[k].0.id != id@,
        decreases local.len() - j,
    {
        proof {
            assert(lv[j as int].0.id == local@[j as int].0.id@);
        }
        if local[j].0.id == *id {
            return true;
        }
        j = j + 1;
    }
    proof {
        if local_id_set(lv).contains(id@) {
            let w = choose|k: int| 0 <= k < lv.len() && #[trigger] lv[k].0.id == id@;
            assert(lv[w].0.id != id@);
        }
    }
    false
}

/// The update carrying a remote event's provider-supplied fields.
fn make_update(item: &GoogleCalendarEvent, sdt: String, edt: String) -> (u: EventUpdate)
    requires
        item@.start_datetime == Some(sdt@),
        item@.end_datetime == Some(edt@),
    ensures
        u@ == update_of(item@),
{
    let status = match &item.status {
        Some(st) => st.to_string(),
        None => EventStatus::Unknown.to_string(),
    };
    EventUpdate {
        summary: Some(item.summary.clone()),
        description: clone_opt_string(&item.description),
        status: Some(status),
        hangout_link: clone_opt_string(&item.hangout_link),
        zoom_link: None,
        teams_link: None,
        start_datetime: Some(sdt),
        end_datetime: Some(edt),
    }
}

/// The stored event a first-seen remote event becomes.
fn make_create(item: &GoogleCalendarEvent, sdt: String, edt: String) -> (e: Event)
    requires
        item@.start_datetime == Some(sdt@),
        item@.end_datetime == Some(edt@),
    ensures
        e@ == create_of(item@),
{
    let status = match &item.status {
        Some(st) => st.to_string(),
        None => EventStatus::Unknown.to_string(),
    };
    Event {
        id: item.id.clone(),
        summary: item.summary.clone(),
        description: clone_opt_string(&item.description),
        status: Some(status),
        hangout_link: clone_opt_string(&item.hangout_link),
        zoom_link: None,
        teams_link: None,
        start_datetime: sdt,
        end_datetime: edt,
    }
}

/// Diffs a remote batch against the locally stored events that share its
/// ids: a remote event whose id is stored becomes a full-overwrite update; a
/// new id becomes a create paired with a default notification; an event
/// without both timestamps is skipped and recorded. The local slice is left
/// untouched: absence from the remote batch never deletes.
pub fn reconcile(items: &Vec<GoogleCalendarEvent>, local: &Vec<(Event, Notification)>) -> (r:
    ReconcileOutput)
    ensures
        r@ == reconcile_spec(items.deep_view(), local_id_set(local.deep_view())),
{
    let ghost iv = items.deep_view();
    let ghost ids = local_id_set(local.deep_view());
    let mut out = ReconcileOutput {
        updates: Vec::new(),
        creates: Vec::new(),
        notification_creates: Vec::new(),
        skipped: Vec::new(),
    };
    proof {
        assert(out@.updates =~= reconcile_spec(iv.take(0), ids).updates);
        assert(out@.creates =~= reconcile_spec(iv.take(0), ids).creates);
        assert(out@.notification_creates =~= reconcile_spec(iv.take(0), ids).notification_creates);
        assert(out@.skipped =~= reconcile_spec(iv.take(0), ids).skipped);
    }
    let mut i: usize = 0;
    while i < items.len()
        invariant
            i <= items.len(),
            iv == items.deep_view(),
            ids == local_id_set(local.deep_view()),
            iv.len() == items.len(),
            out@ == reconcile_spec(iv.take(i as int), ids),
        decreases items.len() - i,
    {
        let item = &items[i];
        proof {
            assert(iv.take(i + 1).drop_last() =~= iv.take(i as int));
            assert(iv.take(i + 1).last() == item@);
        }
        let ghost prev = out@;
        let sdt_opt = clone_opt_string(&item.start.date_time);
        let edt_opt = clone_opt_string(&item.end.date_time);
        match (sdt_opt, edt_opt) {
            (Some(sdt), Some(edt)) => {
                if contains_local_id(local, &item.id) {
                    let u = make_update(item, sdt, edt);
                    out.updates.push((item.id.clone(), u));
                    proof {
                        assert(out@.updates =~= prev.updates.push((item@.id, update_of(item@))));
                    }
                } else {
                    let e = make_create(item, sdt, edt);
                    out.creates.push(e);
                    out.notification_creates.push(
                        Notification {
                            event_id: item.id.clone(),
                            enabled: true,
                            notification_sec_from_start: DEFAULT_NOTIFICATION_SEC,
                        },
                    );
                    proof {
                        assert(out@.creates =~= prev.creates.push(create_of(item@)));
                        assert(out@.notification_creates =~= prev.notification_creates.push(
                            notification_of(item@.id),
                        ));
                    }
                }
            },
            _ => {
                out.skipped.push(item.id.clone());
                proof {
                    assert(out@.skipped =~= prev.skipped.push(item@.id));
                }
            },
        }
        i = i + 1;
    }
    proof {
        assert(iv.take(items@.len() as int) =~= iv);
    }
    out
}

/// The ids of a remote batch, in batch order.
pub open spec fn item_ids(items: Seq<GoogleCalendarEventView>) -> Seq<Seq<char>> {
    items.map(|k: int, it: GoogleCalendarEventView| it.id)
}

/// Whether the remote batch carries pairwise distinct ids, as the provider
/// promises of its stable identifiers.
pub open spec fn distinct_item_ids(items: Seq<GoogleCalendarEventView>) -> bool {
    forall|i: int, j: int| 0 <= i < j < items.len() ==> items[i].id != items[j].id
}

/// Reconciliation pairs each create, index for index, with its default
/// notification setting, and each create stems from one complete remote
/// event whose id was unknown.
pub proof fn lemma_reconcile_creates_shape(
    items: Seq<GoogleCalendarEventView>,
    local_ids: Set<Seq<char>>,
)
    ensures
        ({
            let rec = reconcile_spec(items, local_ids);
            &&& rec.notification_creates.len() == rec.creates.len()
            &&& forall|m: int|
                0 <= m < rec.creates.len() ==> #[trigger] rec.notification_creates[m]
                    == notification_of(rec.creates[m].id)
            &&& forall|m: int|
                0 <= m < rec.creates.len() ==> exists|i: int|
                    0 <= i < items.len() && is_complete(#[trigger] items[i])
                        && !local_ids.contains(items[i].id) && #[trigger] rec.creates[m]
                        == create_of(items[i])
        }),
    decreases items.len(),
{
    if items.len() > 0 {
        lemma_reconcile_creates_shape(items.drop_last(), local_ids);
        let rec = reconcile_spec(items, local_ids);
        let prev = reconcile_spec(items.drop_last(), local_ids);
        let it = items.last();
        assert forall|m: int| 0 <= m < rec.creates.len() implies exists|i: int|
            0 <= i < items.len() && is_complete(#[trigger] items[i]) && !local_ids.contains(
                items[i].id,
            ) && #[trigger] rec.creates[m] == create_of(items[i]) by {
            if m < prev.creates.len() {
                let i = choose|i: int|
                    0 <= i < items.drop_last().len() && is_complete(#[trigger] items.drop_last()[i])
                        && !local_ids.contains(items.drop_last()[i].id) && prev.creates[m]
                        == create_of(items.drop_last()[i]);
                assert(items[i] == items.drop_last()[i]);
                assert(rec.creates[m] == create_of(items[i]));
            } else {
                assert(is_complete(it) && !local_ids.contains(it.id));
                assert(items[items.len() - 1] == it);
                assert(rec.creates[m] == create_of(items[items.len() - 1]));
            }
        }
    }
}

/// When the remote ids are distinct and no unknown id is stored yet, the
/// emitted creates can be inserted: their keys are fresh on both sides.
pub proof fn lemma_reconcile_fresh(
    items: Seq<GoogleCalendarEventView>,
    local_ids: Set<Seq<char>>,
    es: Seq<EventView>,
    ns: Seq<NotificationView>,
)
    requires
        distinct_item_ids(items),
        forall|i: int|
            0 <= i < items.len() && !local_ids.contains(#[trigger] items[i].id) ==> !has_event_id(
                es,
                items[i].id,
            ) && !has_notification_id(ns, items[i].id),
    ensures
        event_ids_fresh(es, reconcile_spec(items, local_ids).creates),
        notification_ids_fresh(ns, reconcile_spec(items, local_ids).notification_creates),
    decreases items.len(),
{
    if items.len() > 0 {
        let sub = items.drop_last();
        assert forall|i: int, j: int| 0 <= i < j < sub.len() implies sub[i].id != sub[j].id by {
            assert(sub[i] == items[i] && sub[j] == items[j]);
        }
        assert forall|i: int|
            0 <= i < sub.len() && !local_ids.contains(#[trigger] sub[i].id) implies !has_event_id(
                es,
                sub[i].id,
            ) && !has_notification_id(ns, sub[i].id) by {
            assert(sub[i] == items[i]);
        }
        lemma_reconcile_fresh(sub, local_ids, es, ns);
        lemma_reconcile_creates_shape(sub, local_ids);
        let rec = reconcile_spec(items, local_ids);
        let prev = reconcile_spec(sub, local_ids);
        let it = items.last();
        if is_complete(it) && !local_ids.contains(it.id) {
            let cs = rec.creates;
            let last = items.len() - 1;
            assert(items[last] == it);
            assert(!has_event_id(es, it.id));
            assert(!has_notification_id(ns, it.id));
            assert forall|m: int|
                0 <= m < cs.len() implies !has_event_id(es, #[trigger] cs[m].id) && !has_event_id(
                    cs.take(m),
                    cs[m].id,
                ) by {
                if m < prev.creates.len() {
                    assert(cs[m] == prev.creates[m]);
                    assert(cs.take(m) =~= prev.creates.take(m));
                } else {
                    assert(cs[m] == create_of(it));
                    assert(cs.take(m) =~= prev.creates);
                    if has_event_id(prev.creates, it.id) {
                        let w = choose|w: int|
                            0 <= w < prev.creates.len() && #[trigger] prev.creates[w].id == it.id;
                        let i = choose|i: int|
                            0 <= i < sub.len() && is_complete(#[trigger] sub[i])
                                && !local_ids.contains(sub[i].id) && #[trigger] prev.creates[w]
                                == create_of(sub[i]);
                        assert(items[i].id == it.id);
                        assert(items[i].id != items[last].id);
                    }
                }
            }
            let nc = rec.notification_creates;
            assert forall|m: int|
                0 <= m < nc.len() implies !has_notification_id(ns, #[trigger] nc[m].event_id)
                    && !has_notification_id(nc.take(m), nc[m].event_id) by {
                if m < prev.notification_creates.len() {
                    assert(nc[m] == prev.notification_creates[m]);
                    assert(nc.take(m) =~= prev.notification_creates.take(m));
                } else {
                    assert(nc[m] == notification_of(it.id));
                    assert(nc.take(m) =~= prev.notification_creates);
                    if has_notification_id(prev.notification_creates, it.id) {
                        let w = choose|w: int|
                            0 <= w < prev.notification_creates.len()
                                && #[trigger] prev.notification_creates[w].event_id == it.id;
                        assert(prev.notification_creates[w] == notification_of(
                            prev.creates[w].id,
                        ));
                        let i = choose|i: int|
                            0 <= i < sub.len() && is_complete(#[trigger] sub[i])
                                && !local_ids.contains(sub[i].id) && #[trigger] prev.creates[w]
                                == create_of(sub[i]);
                        assert(items[i].id == it.id);
                        assert(items[i].id != items[last].id);
                    }
                }
            }
        } else {
            assert(rec.creates == prev.creates);
            assert(rec.notification_creates == prev.notification_creates);
        }
    }
}

/// When every complete remote event is already known locally, reconciliation
/// creates nothing: a second pass over an already-applied snapshot only
/// re-emits updates.
pub proof fn lemma_reconcile_no_creates(
    items: Seq<GoogleCalendarEventView>,
    local_ids: Set<Seq<char>>,
)
    requires
        forall|i: int|
            0 <= i < items.len() && is_complete(#[trigger] items[i]) ==> local_ids.contains(
                items[i].id,
            ),
    ensures
        reconcile_spec(items, local_ids).creates.len() == 0,
        reconcile_spec(items, local_ids).notification_creates.len() == 0,
    decreases items.len(),
{
    if items.len() > 0 {
        let sub = items.drop_last();
        assert forall|i: int|
            0 <= i < sub.len() && is_complete(#[trigger] sub[i]) implies local_ids.contains(
                sub[i].id,
            ) by {
            assert(sub[i] == items[i]);
        }
        lemma_reconcile_no_creates(sub, local_ids);
        assert(items[items.len() - 1] == items.last());
    }
}

/// Two reconciliation passes over the same snapshot emit the very same
/// operations: the engine is deterministic, so a pass may be re-run safely.
pub proof fn lemma_reconcile_idempotent(
    items: Seq<GoogleCalendarEventView>,
    local_ids: Set<Seq<char>>,
    first: ReconcileView,
    second: ReconcileView,
)
    requires
        first == reconcile_spec(items, local_ids),
        second == reconcile_spec(items, local_ids),
    ensures
        first == second,
{
}

/// The reconciliation a remote batch performs against a store's current
/// state: the local slice is the store queried by the batch's own ids, so the
/// query is bounded by the batch, never the whole table.
pub open spec fn store_reconcile(
    es: Seq<EventView>,
    ns: Seq<NotificationView>,
    items: Seq<GoogleCalendarEventView>,
) -> ReconcileView {
    reconcile_spec(items, local_id_set(find_many_spec(es, ns, ids_query(item_ids(items)))))
}

/// One whole synchronization pass: queries the store for the batch's ids,
/// reconciles against that single snapshot, then writes every update and
/// every create with its default notification. Each remote event lands
/// exactly once: as an update when its id was stored, as a create when not,
/// or skipped when it lacks a timestamp.
#[verifier::loop_isolation(false)]
#[verifier::rlimit(30)]
pub fn update_events(store: &mut EventStore, google_calendar_parent: &GoogleCalendarParent) -> (r:
    Result<(), String>)
    requires
        old(store).wf(),
        old(store).paired(),
        distinct_item_ids(google_calendar_parent@.items),
    ensures
        r is Ok,
        final(store).wf(),
        final(store).paired(),
        final(store).events_view() == apply_updates(
            old(store).events_view(),
            store_reconcile(
                old(store).events_view(),
                old(store).notifications_view(),
                google_calendar_parent@.items,
            ).updates,
        ) + store_reconcile(
            old(store).events_view(),
            old(store).notifications_view(),
            google_calendar_parent@.items,
        ).creates,
        final(store).notifications_view() == old(store).notifications_view() + store_reconcile(
            old(store).events_view(),
            old(store).notifications_view(),
            google_calendar_parent@.items,
        ).notification_creates,
{
    let ghost es0 = store.events_view();
    let ghost ns0 = store.notifications_view();
    let ghost items = google_calendar_parent@.items;
    let ghost q = ids_query(item_ids(items));

    let mut ids: Vec<String> = Vec::new();
    let mut i: usize = 0;
    while i < google_calendar_parent.items.len()
        invariant
            i <= google_calendar_parent.items.len(),
            ids.deep_view() =~= item_ids(items).take(i as int),
        decreases google_calendar_parent.items.len() - i,
    {
        ids.push(google_calendar_parent.items[i].id.clone());
        proof {
            assert(item_ids(items)[i as int] == items[i as int].id);
            assert(ids.deep_view() =~= item_ids(items).take(i + 1));
        }
        i = i + 1;
    }
    proof {
        assert(item_ids(items).take(items.len() as int) =~= item_ids(items));
    }
    let query = EventFindMany { from: None, to: None, ids_in: Some(ids) };
    proof {
        assert(query@ == q);
    }
    let local = store.find_many(&query);
    let ghost jv = find_many_spec(es0, ns0, q);
    let ghost lids = local_id_set(local.deep_view());
    // Ordering the slice changes no membership, so the ids the query found
    // are the ids of the join.
    proof {
        assert forall|id: Seq<char>| lids.contains(id) == local_id_set(jv).contains(id) by {
            let sv = local.deep_view();
            if lids.contains(id) {
                let j = choose|j: int| 0 <= j < sv.len() && #[trigger] sv[j].0.id == id;
                crate::repository::lemma_sort_membership(jv, sv[j]);
                assert(crate::repository::sort_by_start(jv)[j] == sv[j]);
                let m = choose|m: int| 0 <= m < jv.len() && #[trigger] jv[m] == sv[j];
                assert(jv[m].0.id == id);
                assert(local_id_set(jv).contains(id));
            }
            if local_id_set(jv).contains(id) {
                let m = choose|m: int| 0 <= m < jv.len() && #[trigger] jv[m].0.id == id;
                crate::repository::lemma_sort_membership(jv, jv[m]);
                assert(jv[m] == jv[m]);
                let j = choose|j: int|
                    0 <= j < crate::repository::sort_by_start(jv).len()
                        && #[trigger] crate::repository::sort_by_start(jv)[j] == jv[m];
                assert(sv[j].0.id == id);
                assert(lids.contains(id));
            }
        }
        assert(lids =~= local_id_set(jv));
    }
    let rec = reconcile(&google_calendar_parent.items, &local);
    let ghost recv = store_reconcile(es0, ns0, items);
    proof {
        assert(rec@ == recv);
    }
    let ReconcileOutput { updates, creates, notification_creates, skipped: _ } = rec;
    let ghost us = recv.updates;

    // No unknown remote id is stored: such an event, having its notification
    // setting beside it, would have answered the bounded query.
    proof {
        assert forall|i2: int|
            0 <= i2 < items.len() && !lids.contains(#[trigger] items[i2].id) implies !has_event_id(
            es0,
            items[i2].id,
        ) && !has_notification_id(ns0, items[i2].id) by {
            let id = items[i2].id;
            assert(item_ids(items)[i2] == id);
            assert(item_ids(items).contains(id));
            if has_event_id(es0, id) {
                let k = choose|k: int| 0 <= k < es0.len() && #[trigger] es0[k].id == id;
                assert(has_notification_id(ns0, id));
                lemma_find_notification_some(ns0, id);
                assert(crate::repository::matches_query(es0[k], q));
                lemma_find_many_complete(es0, ns0, q, k);
                let j = choose|j: int|
                    0 <= j < find_many_spec(es0, ns0, q).len() && #[trigger] find_many_spec(
                        es0,
                        ns0,
                        q,
                    )[j].0 == es0[k];
                assert(jv[j].0.id == id);
                assert(local_id_set(jv).contains(id));
                assert(lids.contains(id));
            }
            if has_notification_id(ns0, id) {
                assert(has_event_id(es0, id));
            }
        }
        lemma_reconcile_fresh(items, lids, es0, ns0);
        lemma_reconcile_creates_shape(items, lids);
    }

    let mut updates = updates;
    let ghost mut k: int = 0;
    while updates.len() > 0
        invariant
            0 <= k <= us.len(),
            updates.deep_view() =~= us.skip(k),
            k + updates.len() == us.len(),
            store.events_view() == apply_updates(es0, us.take(k)),
            store.notifications_view() == ns0,
            store.wf(),
        decreases updates.len(),
    {
        let ghost upd_old = updates@;
        let ghost dv_old = updates.deep_view();
        let pair = updates.remove(0);
        proof {
            assert(us.skip(k)[0] == us[k]);
            assert(pair.deep_view() == us[k]);
        }
        let _ = store.update(pair.0, pair.1);
        proof {
            assert(us.take(k + 1).drop_last() =~= us.take(k));
            assert(us.take(k + 1).last() == us[k]);
            assert(store.events_view() == apply_updates(es0, us.take(k + 1)));
            assert forall|m: int| 0 <= m < updates.deep_view().len() implies updates.deep_view()[m]
                == us.skip(k + 1)[m] by {
                assert(updates@[m] == upd_old[m + 1]);
                assert(updates.deep_view()[m] == dv_old[m + 1]);
                assert(dv_old[m + 1] == us.skip(k)[m + 1]);
                assert(us.skip(k)[m + 1] == us[k + 1 + m]);
                assert(us.skip(k + 1)[m] == us[k + 1 + m]);
            }
            assert(updates.deep_view() =~= us.skip(k + 1));
            k = k + 1;
        }
    }
    proof {
        assert(us.take(us.len() as int) =~= us);
    }
    let ghost es1 = store.events_view();

    // The updates changed no id, so the creates stay fresh.
    proof {
        lemma_apply_updates_preserves_ids(es0, us);
        assert forall|m: int|
            0 <= m < recv.creates.len() implies !has_event_id(es1, #[trigger] recv.creates[m].id)
                && !has_event_id(recv.creates.take(m), recv.creates[m].id) by {
            if has_event_id(es1, recv.creates[m].id) {
                let w = choose|w: int|
                    0 <= w < es1.len() && #[trigger] es1[w].id == recv.creates[m].id;
                assert(es0[w].id == recv.creates[m].id);
                assert(has_event_id(es0, recv.creates[m].id));
            }
        }
    }
    let created = store.create_many(creates);
    if created.is_err() {
        return Err("failed to create events".to_owned());
    }
    let notified = store.create_many_notifications(notification_creates);
    if notified.is_err() {
        return Err("failed to create notifications".to_owned());
    }

    // The relation of the data model survives the pass: events and settings
    // were created in step, and updates touch neither side's keys.
    proof {
        let es2 = store.events_view();
        let ns2 = store.notifications_view();
        assert forall|id: Seq<char>|
            #![trigger has_event_id(es2, id)]
            #![trigger has_notification_id(ns2, id)]
            has_event_id(es2, id) <==> has_notification_id(ns2, id) by {
            if has_event_id(es2, id) {
                let w = choose|w: int| 0 <= w < es2.len() && #[trigger] es2[w].id == id;
                if w < es1.len() {
                    assert(es0[w].id == id);
                    assert(has_event_id(es0, id));
                    assert(has_notification_id(ns0, id));
                    let v = choose|v: int|
                        0 <= v < ns0.len() && #[trigger] ns0[v].event_id == id;
                    assert(ns2[v].event_id == id);
                    assert(has_notification_id(ns2, id));
                } else {
                    let m = w - es1.len();
                    assert(recv.creates[m].id == id);
                    assert(recv.notification_creates[m] == notification_of(recv.creates[m].id));
                    assert(ns2[ns0.len() + m].event_id == id);
                    assert(has_notification_id(ns2, id));
                }
            }
            if has_notification_id(ns2, id) {
                let w = choose|w: int| 0 <= w < ns2.len() && #[trigger] ns2[w].event_id == id;
                if w < ns0.len() {
                    assert(ns0[w].event_id == id);
                    assert(has_notification_id(ns0, id));
                    assert(has_event_id(es0, id));
                    let v = choose|v: int| 0 <= v < es0.len() && #[trigger] es0[v].id == id;
                    assert(es1[v].id == id);
                    assert(es2[v].id == id);
                    assert(has_event_id(es2, id));
                } else {
                    let m = w - ns0.len();
                    assert(recv.notification_creates[m] == notification_of(recv.creates[m].id));
                    assert(recv.creates[m].id == id);
                    assert(es2[es1.len() + m].id == id);
                    assert(has_event_id(es2, id));
                }
            }
        }
    }
    Ok(())
}

/// Each update a pass emits carries, for one complete remote event whose id
/// was known, exactly the provider-supplied fields of that event.
pub proof fn lemma_reconcile_updates_shape(
    items: Seq<GoogleCalendarEventView>,
    local_ids: Set<Seq<char>>,
    m: int,
)
    requires
        0 <= m < reconcile_spec(items, local_ids).updates.len(),
    ensures
        exists|i: int|
            0 <= i < items.len() && is_complete(#[trigger] items[i]) && local_ids.contains(
                items[i].id,
            ) && reconcile_spec(items, local_ids).updates[m].0 == items[i].id && reconcile_spec(
                items,
                local_ids,
            ).updates[m].1 == update_of(items[i]),
    decreases items.len(),
{
    let rec = reconcile_spec(items, local_ids);
    let prev = reconcile_spec(items.drop_last(), local_ids);
    let it = items.last();
    if m < prev.updates.len() {
        lemma_reconcile_updates_shape(items.drop_last(), local_ids, m);
        let i = choose|i: int|
            0 <= i < items.drop_last().len() && is_complete(#[trigger] items.drop_last()[i])
                && local_ids.contains(items.drop_last()[i].id) && prev.updates[m].0
                == items.drop_last()[i].id && prev.updates[m].1 == update_of(items.drop_last()[i]);
        assert(items[i] == items.drop_last()[i]);
        assert(rec.updates[m].0 == items[i].id);
        assert(rec.updates[m].1 == update_of(items[i]));
    } else {
        assert(is_complete(it) && local_ids.contains(it.id));
        assert(items[items.len() - 1] == it);
        assert(rec.updates[m].0 == items[items.len() - 1].id);
        assert(rec.updates[m].1 == update_of(items[items.len() - 1]));
    }
}

/// Every complete remote event whose id was unknown lands among the creates.
pub proof fn lemma_reconcile_creates_complete(
    items: Seq<GoogleCalendarEventView>,
    local_ids: Set<Seq<char>>,
    i: int,
)
    requires
        0 <= i < items.len(),
        is_complete(items[i]),
        !local_ids.contains(items[i].id),
    ensures
        exists|m: int|
            0 <= m < reconcile_spec(items, local_ids).creates.len()
                && #[trigger] reconcile_spec(items, local_ids).creates[m] == create_of(items[i]),
    decreases items.len(),
{
    let rec = reconcile_spec(items, local_ids);
    if i == items.len() - 1 {
        assert(rec.creates[rec.creates.len() - 1] == create_of(items[i]));
    } else {
        assert(items.drop_last()[i] == items[i]);
        lemma_reconcile_creates_complete(items.drop_last(), local_ids, i);
        let prev = reconcile_spec(items.drop_last(), local_ids);
        let m = choose|m: int|
            0 <= m < prev.creates.len() && #[trigger] prev.creates[m] == create_of(items[i]);
        assert(rec.creates[m] == create_of(items[i]));
    }
}

/// Scanning for a key skips a prefix that does not hold it.
proof fn lemma_find_notification_concat(
    ns: Seq<NotificationView>,
    extra: Seq<NotificationView>,
    id: Seq<char>,
)
    requires
        !has_notification_id(ns, id),
    ensures
        find_notification(ns + extra, id) == find_notification(extra, id),
    decreases ns.len(),
{
    if ns.len() == 0 {
        assert(ns + extra =~= extra);
    } else {
        assert(ns[0].event_id != id);
        assert((ns + extra)[0] == ns[0]);
        assert((ns + extra).drop_first() =~= ns.drop_first() + extra);
        assert forall|k: int|
            0 <= k < ns.drop_first().len() implies #[trigger] ns.drop_first()[k].event_id != id by {
            assert(ns.drop_first()[k] == ns[k + 1]);
        }
        lemma_find_notification_concat(ns.drop_first(), extra, id);
    }
}

/// With unique keys, scanning for a stored key finds exactly that setting.
proof fn lemma_find_notification_unique(ns: Seq<NotificationView>, id: Seq<char>, m: int)
    requires
        crate::repository::unique_notification_ids(ns),
        0 <= m < ns.len(),
        ns[m].event_id == id,
    ensures
        find_notification(ns, id) == Some(ns[m]),
    decreases ns.len(),
{
    if m == 0 {
    } else {
        assert(ns[0].event_id != id);
        let sub = ns.drop_first();
        assert forall|i: int, j: int| 0 <= i < j < sub.len() implies sub[i].event_id
            != sub[j].event_id by {
            assert(sub[i] == ns[i + 1] && sub[j] == ns[j + 1]);
        }
        assert(sub[m - 1] == ns[m]);
        lemma_find_notification_unique(sub, id, m - 1);
    }
}

/// Re-running reconciliation against the state it itself produced is a fixed
/// point: the second pass creates nothing, and each update it still emits
/// carries exactly the same provider-supplied fields as the first pass put
/// there.
pub proof fn lemma_reconcile_fixed_point(
    es: Seq<EventView>,
    ns: Seq<NotificationView>,
    items: Seq<GoogleCalendarEventView>,
)
    ensures
        ({
            let rec = store_reconcile(es, ns, items);
            let es2 = apply_updates(es, rec.updates) + rec.creates;
            let ns2 = ns + rec.notification_creates;
            let rec2 = store_reconcile(es2, ns2, items);
            &&& rec2.creates.len() == 0
            &&& rec2.notification_creates.len() == 0
            &&& forall|m: int|
                0 <= m < rec2.updates.len() ==> exists|i: int|
                    0 <= i < items.len() && is_complete(#[trigger] items[i])
                        && #[trigger] rec2.updates[m].0 == items[i].id && rec2.updates[m].1
                        == update_of(items[i])
        }),
{
    let q = ids_query(item_ids(items));
    let lids = local_id_set(find_many_spec(es, ns, q));
    let rec = store_reconcile(es, ns, items);
    let es1 = apply_updates(es, rec.updates);
    let es2 = es1 + rec.creates;
    let ns2 = ns + rec.notification_creates;
    let local2 = find_many_spec(es2, ns2, q);
    let lids2 = local_id_set(local2);
    lemma_apply_updates_preserves_ids(es, rec.updates);
    lemma_reconcile_creates_shape(items, lids);
    assert forall|i: int|
        0 <= i < items.len() && is_complete(#[trigger] items[i]) implies lids2.contains(
        items[i].id,
    ) by {
        let id = items[i].id;
        assert(item_ids(items)[i] == id);
        assert(item_ids(items).contains(id));
        if lids.contains(id) {
            // The id was stored: the first pass kept it in place, with its
            // notification setting beside it.
            let j = choose|j: int|
                0 <= j < find_many_spec(es, ns, q).len() && #[trigger] find_many_spec(
                    es,
                    ns,
                    q,
                )[j].0.id == id;
            crate::repository::lemma_find_many_sound(es, ns, q, j);
            let k = choose|k: int|
                0 <= k < es.len() && #[trigger] es[k] == find_many_spec(es, ns, q)[j].0
                    && crate::repository::matches_query(es[k], q);
            lemma_find_notification_some(ns, id);
            assert(has_notification_id(ns, id));
            let v = choose|v: int| 0 <= v < ns.len() && #[trigger] ns[v].event_id == id;
            assert(ns2[v].event_id == id);
            assert(has_notification_id(ns2, id));
            lemma_find_notification_some(ns2, id);
            assert(es2[k].id == id);
            assert(crate::repository::matches_query(es2[k], q));
            lemma_find_many_complete(es2, ns2, q, k);
            let j2 = choose|j2: int|
                0 <= j2 < local2.len() && #[trigger] local2[j2].0 == es2[k];
            assert(local2[j2].0.id == id);
        } else {
            // The id was new: the first pass created the event and its
            // default notification setting.
            lemma_reconcile_creates_complete(items, lids, i);
            let m = choose|m: int|
                0 <= m < rec.creates.len() && #[trigger] rec.creates[m] == create_of(items[i]);
            let k = es1.len() + m;
            assert(es2[k] == rec.creates[m]);
            assert(es2[k].id == id);
            assert(rec.notification_creates[m] == notification_of(rec.creates[m].id));
            assert(ns2[ns.len() + m].event_id == id);
            assert(has_notification_id(ns2, id));
            lemma_find_notification_some(ns2, id);
            assert(crate::repository::matches_query(es2[k], q));
            lemma_find_many_complete(es2, ns2, q, k);
            let j2 = choose|j2: int|
                0 <= j2 < local2.len() && #[trigger] local2[j2].0 == es2[k];
            assert(local2[j2].0.id == id);
        }
    }
    lemma_reconcile_no_creates(items, lids2);
    let rec2 = store_reconcile(es2, ns2, items);
    assert forall|m: int| 0 <= m < rec2.updates.len() implies exists|i: int|
        0 <= i < items.len() && is_complete(#[trigger] items[i]) && #[trigger] rec2.updates[m].0
            == items[i].id && rec2.updates[m].1 == update_of(items[i]) by {
        lemma_reconcile_updates_shape(items, lids2, m);
        let i = choose|i: int|
            0 <= i < items.len() && is_complete(#[trigger] items[i]) && lids2.contains(items[i].id)
                && rec2.updates[m].0 == items[i].id && rec2.updates[m].1 == update_of(items[i]);
        assert(is_complete(items[i]));
    }
}

/// Round trip: an event created by reconciliation from a remote payload with
/// no prior local record, fetched back by the same bounded query, carries
/// field for field what the payload supplied, beside its default
/// notification setting.
pub proof fn lemma_round_trip(
    es: Seq<EventView>,
    ns: Seq<NotificationView>,
    items: Seq<GoogleCalendarEventView>,
    i: int,
)
    requires
        0 <= i < items.len(),
        is_complete(items[i]),
        distinct_item_ids(items),
        !has_event_id(es, items[i].id),
        !has_notification_id(ns, items[i].id),
    ensures
        ({
            let rec = store_reconcile(es, ns, items);
            let es2 = apply_updates(es, rec.updates) + rec.creates;
            let ns2 = ns + rec.notification_creates;
            let local2 = find_many_spec(es2, ns2, ids_query(item_ids(items)));
            exists|j: int|
                0 <= j < local2.len() && #[trigger] local2[j] == (
                    create_of(items[i]),
                    notification_of(items[i].id),
                )
        }),
{
    let q = ids_query(item_ids(items));
    let id = items[i].id;
    let local = find_many_spec(es, ns, q);
    let lids = local_id_set(local);
    let rec = store_reconcile(es, ns, items);
    let es1 = apply_updates(es, rec.updates);
    let es2 = es1 + rec.creates;
    let ns2 = ns + rec.notification_creates;
    let local2 = find_many_spec(es2, ns2, q);
    lemma_apply_updates_preserves_ids(es, rec.updates);
    lemma_reconcile_creates_shape(items, lids);
    // No prior record: the id cannot have answered the first query.
    if lids.contains(id) {
        let j = choose|j: int| 0 <= j < local.len() && #[trigger] local[j].0.id == id;
        crate::repository::lemma_find_many_sound(es, ns, q, j);
        let k = choose|k: int|
            0 <= k < es.len() && #[trigger] es[k] == local[j].0 && crate::repository::matches_query(
                es[k],
                q,
            );
        assert(has_event_id(es, id));
    }
    lemma_reconcile_creates_complete(items, lids, i);
    let m = choose|m: int|
        0 <= m < rec.creates.len() && #[trigger] rec.creates[m] == create_of(items[i]);
    let k = es1.len() + m;
    assert(es2[k] == create_of(items[i]));
    assert(es2[k].id == id);
    assert(item_ids(items)[i] == id);
    assert(item_ids(items).contains(id));
    assert(crate::repository::matches_query(es2[k], q));
    // The paired default setting is the one the scan finds: the old settings
    // lack the key, and within the batch the keys are distinct.
    lemma_reconcile_fresh(items, lids, Seq::empty(), Seq::empty());
    assert forall|a: int, b: int|
        0 <= a < b < rec.notification_creates.len() implies rec.notification_creates[a].event_id
            != rec.notification_creates[b].event_id by {
        assert(!has_notification_id(
            rec.notification_creates.take(b),
            rec.notification_creates[b].event_id,
        ));
        assert(rec.notification_creates.take(b)[a] == rec.notification_creates[a]);
    }
    lemma_find_notification_concat(ns, rec.notification_creates, id);
    assert(rec.notification_creates[m] == notification_of(rec.creates[m].id));
    assert(rec.notification_creates[m].event_id == id);
    lemma_find_notification_unique(rec.notification_creates, id, m);
    assert(find_notification(ns2, id) == Some(notification_of(id)));
    lemma_find_many_complete(es2, ns2, q, k);
    let j2 = choose|j2: int| 0 <= j2 < local2.len() && #[trigger] local2[j2].0 == es2[k];
    crate::repository::lemma_find_many_sound(es2, ns2, q, j2);
    assert(local2[j2].1 == find_notification(ns2, local2[j2].0.id)->0);
    assert(local2[j2] == (create_of(items[i]), notification_of(id)));
}

/// The action a sync cycle takes on the current credential.
#[derive(Clone, Copy, Debug, PartialEq, Eq, Structural)]
pub enum SyncAction {
    /// No credential is stored: fall back to out-of-band authorization.
    Reauthorize,
    /// The credential is expired and carries a refresh secret: refresh it,
    /// then fetch.
    RefreshThenSync,
    /// The credential is usable: fetch now.
    SyncNow,
}

/// Decides a sync cycle: a missing credential asks for out-of-band
/// authorization, an expired one with a refresh secret is refreshed first,
/// an expired one without a refresh secret also falls back to out-of-band
/// authorization, and a live one is used as it is.
pub fn sync_cycle_action(token: &Option<OAuthToken>, now: i64) -> (r: SyncAction)
    ensures
        match token {
            None => r is Reauthorize,
            Some(t) => {
                if !spec_is_token_expired(t@, now as int) {
                    r is SyncNow
                } else if t@.refresh_token is Some {
                    r is RefreshThenSync
                } else {
                    r is Reauthorize
                }
            },
        },
{
    match token {
        None => SyncAction::Reauthorize,
        Some(t) => {
            if !crate::oauth::is_token_expired(t, now) {
                SyncAction::SyncNow
            } else if t.refresh_token.is_some() {
                SyncAction::RefreshThenSync
            } else {
                SyncAction::Reauthorize
            }
        },
    }
}

/// What a sync cycle does with the outcome of a remote fetch.
pub enum FetchFollowUp {
    /// The fetch succeeded: reconcile its items.
    Proceed(GoogleCalendarParent),
    /// The provider rejected the credential and a refresh secret is at hand:
    /// refresh once, skip the rest of this cycle, retry next cycle.
    RefreshAndSkip,
    /// The provider rejected the credential and no refresh secret is stored:
    /// fall back to out-of-band authorization and skip this cycle.
    ReauthorizeAndSkip,
    /// Another failure: skip this cycle and report the error.
    Skip(Error),
}

/// Decides what follows a remote fetch: success proceeds to reconciliation;
/// a rejected credential triggers exactly one refresh (or out-of-band
/// authorization when no refresh secret is stored); any other failure skips
/// the cycle. Never fatal to the caller's loop.
pub fn handle_google_calendar_event_result(
    google_calendar_result: Result<GoogleCalendarParent, Error>,
    oauth_token: &OAuthToken,
) -> (r: FetchFollowUp)
    ensures
        google_calendar_result matches Ok(p) ==> r matches FetchFollowUp::Proceed(q) && q@ == p@,
        google_calendar_result matches Err(e) ==> match e@ {
            ErrorView::Unauthorized => {
                if oauth_token@.refresh_token is Some {
                    r is RefreshAndSkip
                } else {
                    r is ReauthorizeAndSkip
                }
            },
            _ => r matches FetchFollowUp::Skip(e2) && e2@ == e@,
        },
{
    match google_calendar_result {
        Ok(parent) => FetchFollowUp::Proceed(parent),
        Err(Error::Unauthorized) => {
            if oauth_token.refresh_token.is_some() {
                FetchFollowUp::RefreshAndSkip
            } else {
                FetchFollowUp::ReauthorizeAndSkip
            }
        },
        Err(e) => FetchFollowUp::Skip(e),
    }
}

} // verus!

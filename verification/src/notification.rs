//! The notification scheduler's decisions: which events have crossed their
//! notification threshold at a poll tick, and the disable-write that follows
//! a fired alert.

use vstd::prelude::*;

use crate::models::{
    Event, EventView, Notification, NotificationUpdate, NotificationUpdateView, NotificationView,
};
use crate::timestamp::{parse_rfc3339_epoch, rfc3339_epoch};

verus! {

/// Seconds between two poll ticks of the scheduler.
pub const NOTIFICATION_INTERVAL_SEC: u16 = 60;

/// Days of future horizon the scheduler asks the store for on each tick.
pub const NOTIFICATION_PERIOD_DAYS: i64 = 7;

/// The threshold rule: an event starting at `start` is within its lead time
/// at `now` once fewer than `lead` seconds remain.
pub open spec fn due_at(start: int, lead: int, now: int) -> bool {
    start - now < lead
}

/// Whether an event's notification is due: it is still enabled and the start
/// lies within the lead time. An event whose start cannot be read is never
/// due, rather than a crash.
pub open spec fn spec_is_due(e: EventView, n: NotificationView, now: int) -> bool {
    &&& n.enabled
    &&& match rfc3339_epoch(e.start_datetime) {
        Some(start) => due_at(start as int, n.notification_sec_from_start as int, now),
        None => false,
    }
}

/// Decides whether one event has crossed its notification threshold at `now`
/// (seconds since the Unix epoch).
pub fn filter_by_start_time(pair: &(Event, Notification), now: i64) -> (r: bool)
    ensures
        r == spec_is_due(pair.0@, pair.1@, now as int),
{
    if !pair.1.enabled {
        return false;
    }
    match parse_rfc3339_epoch(pair.0.start_datetime.as_str()) {
        Some(start) => (start as i128) - (now as i128) < (pair.1.notification_sec_from_start
            as i128),
        None => false,
    }
}

/// The events of the slice whose notifications are due at `now`, in order.
pub open spec fn upcoming_spec(pairs: Seq<(EventView, NotificationView)>, now: int) -> Seq<
    EventView,
>
    decreases pairs.len(),
{
    if pairs.len() == 0 {
        Seq::empty()
    } else {
        let prev = upcoming_spec(pairs.drop_last(), now);
        if spec_is_due(pairs.last().0, pairs.last().1, now) {
            prev.push(pairs.last().0)
        } else {
            prev
        }
    }
}

/// Keeps the events whose notifications are due at `now`.
#[verifier::loop_isolation(false)]
pub fn filter_upcoming_events(events: Vec<(Event, Notification)>, now: i64) -> (r: Vec<Event>)
    ensures
        r.deep_view() == upcoming_spec(events.deep_view(), now as int),
{
    let ghost pv = events.deep_view();
    let mut r: Vec<Event> = Vec::new();
    proof {
        assert(r.deep_view() =~= upcoming_spec(pv.take(0), now as int));
    }
    let mut i: usize = 0;
    while i < events.len()
        invariant
            i <= events.len(),
            pv.len() == events.len(),
            r.deep_view() == upcoming_spec(pv.take(i as int), now as int),
        decreases events.len() - i,
    {
        proof {
            assert(pv.take(i + 1).drop_last() =~= pv.take(i as int));
            assert(pv.take(i + 1).last() == pv[i as int]);
        }
        let ghost prev = r.deep_view();
        if filter_by_start_time(&events[i], now) {
            r.push(events[i].0.clone());
            proof {
                assert(r.deep_view() =~= prev.push(pv[i as int].0));
            }
        }
        i = i + 1;
    }
    proof {
        assert(pv.take(events@.len() as int) =~= pv);
    }
    r
}

/// The write that records a fired alert: the notification is disabled, its
/// lead time untouched.
pub open spec fn disable_update() -> NotificationUpdateView {
    NotificationUpdateView { enabled: Some(false), notification_sec_from_start: None }
}

/// One poll tick's decision over the fetched window: the events to alert on,
/// each paired index for index with the disable-write for its notification.
/// Firing and disabling is what makes the alert fire once: an event stays due
/// only while its disable-write has not landed, so delivery is at least once,
/// not exactly once.
#[verifier::loop_isolation(false)]
pub fn notification_tick(events: Vec<(Event, Notification)>, now: i64) -> (r: (
    Vec<Event>,
    Vec<(String, NotificationUpdate)>,
))
    ensures
        r.0.deep_view() == upcoming_spec(events.deep_view(), now as int),
        r.1.deep_view().len() == r.0.deep_view().len(),
        forall|k: int|
            0 <= k < r.1.deep_view().len() ==> #[trigger] r.1.deep_view()[k].0
                == r.0.deep_view()[k].id && r.1.deep_view()[k].1 == disable_update(),
{
    let ghost pv = events.deep_view();
    let mut due: Vec<Event> = Vec::new();
    let mut disables: Vec<(String, NotificationUpdate)> = Vec::new();
    proof {
        assert(due.deep_view() =~= upcoming_spec(pv.take(0), now as int));
    }
    let mut i: usize = 0;
    while i < events.len()
        invariant
            i <= events.len(),
            pv.len() == events.len(),
            due.deep_view() == upcoming_spec(pv.take(i as int), now as int),
            disables.deep_view().len() == due.deep_view().len(),
            forall|k: int|
                0 <= k < disables.deep_view().len() ==> #[trigger] disables.deep_view()[k].0
                    == due.deep_view()[k].id && disables.deep_view()[k].1 == disable_update(),
        decreases events.len() - i,
    {
        proof {
            assert(pv.take(i + 1).drop_last() =~= pv.take(i as int));
            assert(pv.take(i + 1).last() == pv[i as int]);
        }
        let ghost prev_due = due.deep_view();
        let ghost prev_dis = disables.deep_view();
        if filter_by_start_time(&events[i], now) {
            due.push(events[i].0.clone());
            disables.push(
                (
                    events[i].0.id.clone(),
                    NotificationUpdate { enabled: Some(false), notification_sec_from_start: None },
                ),
            );
            proof {
                assert(due.deep_view() =~= prev_due.push(pv[i as int].0));
                assert(disables.deep_view() =~= prev_dis.push(
                    (pv[i as int].0.id, disable_update()),
                ));
            }
        }
        i = i + 1;
    }
    proof {
        assert(pv.take(events@.len() as int) =~= pv);
    }
    (due, disables)
}

/// The window of interest of one poll tick: from `now` to a bounded future
/// horizon, in seconds since the Unix epoch, so each poll stays cheap.
pub fn notification_window(now: i64) -> (r: (i64, i64))
    requires
        now <= i64::MAX - NOTIFICATION_PERIOD_DAYS * 86400,
    ensures
        r.0 == now,
        r.1 == now + NOTIFICATION_PERIOD_DAYS * 86400,
{
    (now, now + NOTIFICATION_PERIOD_DAYS * 86400)
}

/// A disabled notification is never due, whatever the timing.
pub proof fn lemma_disabled_never_due(e: EventView, n: NotificationView, now: int)
    requires
        !n.enabled,
    ensures
        !spec_is_due(e, n, now),
{
}

/// The threshold boundary: with a lead of 600 seconds, an event starting in
/// 599 seconds is due, one starting in exactly 600 or in 601 seconds is not.
pub proof fn lemma_due_boundary(now: int)
    ensures
        due_at(now + 599, 600, now),
        !due_at(now + 600, 600, now),
        !due_at(now + 601, 600, now),
{
}

/// Which link an alert opens for an event: its meeting link when one is set,
/// else its conferencing link, else none.
#[derive(Debug, PartialEq, Eq)]
pub enum MeetingLink {
    Zoom(String),
    Hangout(String),
    NoLink,
}

/// Picks the link the alert opens, preferring the meeting link.
pub fn meeting_link(event: &Event) -> (r: MeetingLink)
    ensures
        match event@.zoom_link {
            Some(l) => r matches MeetingLink::Zoom(s) && s@ == l,
            None => match event@.hangout_link {
                Some(l) => r matches MeetingLink::Hangout(s) && s@ == l,
                None => r is NoLink,
            },
        },
{
    match &event.zoom_link {
        Some(l) => MeetingLink::Zoom(l.clone()),
        None => match &event.hangout_link {
            Some(l) => MeetingLink::Hangout(l.clone()),
            None => MeetingLink::NoLink,
        },
    }
}

} // verus!

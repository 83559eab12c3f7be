//! The stores of the synchronization core: events joined with their
//! notification settings, and credentials. Every operation states exactly
//! what it reads or writes; a read of an event always yields its current
//! notification setting together with the rest of its fields.

use vstd::prelude::*;

use crate::models::{
    apply_event_update, apply_notification_update, apply_token_update, clone_opt_string, Event,
    EventFindMany, EventFindManyView, EventUpdate, EventUpdateView, EventView, Notification,
    NotificationFindMany, NotificationFindManyView, NotificationUpdate, NotificationUpdateView,
    NotificationView, OAuthToken, OAuthTokenUpdate, OAuthTokenUpdateView, OAuthTokenView,
};
use crate::timestamp::{lex_le, str_le};

verus! {

/// Failures of a store operation.
#[derive(Clone, Copy, Debug, PartialEq, Eq, Structural)]
pub enum StoreError {
    /// A create would insert a key that is already present.
    DuplicateId,
}

/// Whether the stored events carry pairwise distinct ids.
pub open spec fn unique_event_ids(es: Seq<EventView>) -> bool {
    forall|i: int, j: int| 0 <= i < j < es.len() ==> es[i].id != es[j].id
}

/// Whether the stored notification settings carry pairwise distinct keys.
pub open spec fn unique_notification_ids(ns: Seq<NotificationView>) -> bool {
    forall|i: int, j: int| 0 <= i < j < ns.len() ==> ns[i].event_id != ns[j].event_id
}

/// Whether the stored credentials carry pairwise distinct ids.
pub open spec fn unique_token_ids(ts: Seq<OAuthTokenView>) -> bool {
    forall|i: int, j: int| 0 <= i < j < ts.len() ==> ts[i].id != ts[j].id
}

/// Whether some stored event carries `id`.
pub open spec fn has_event_id(es: Seq<EventView>, id: Seq<char>) -> bool {
    exists|k: int| 0 <= k < es.len() && #[trigger] es[k].id == id
}

/// Whether some stored notification setting is keyed by `id`.
pub open spec fn has_notification_id(ns: Seq<NotificationView>, id: Seq<char>) -> bool {
    exists|k: int| 0 <= k < ns.len() && #[trigger] ns[k].event_id == id
}

/// Whether some stored credential carries `id`.
pub open spec fn has_token_id(ts: Seq<OAuthTokenView>, id: Seq<char>) -> bool {
    exists|k: int| 0 <= k < ts.len() && #[trigger] ts[k].id == id
}

/// Whether an event answers the query: its start is not before `from`, its
/// end is not after `to`, and its id is among `ids_in`; an absent bound
/// restricts nothing.
pub open spec fn matches_query(e: EventView, q: EventFindManyView) -> bool {
    &&& (q.from is Some ==> lex_le(q.from->0, e.start_datetime))
    &&& (q.to is Some ==> lex_le(e.end_datetime, q.to->0))
    &&& (q.ids_in is Some ==> q.ids_in->0.contains(e.id))
}

/// The first stored notification setting keyed by `id`, if any; with unique
/// keys it is the only one.
pub open spec fn find_notification(ns: Seq<NotificationView>, id: Seq<char>) -> Option<
    NotificationView,
>
    decreases ns.len(),
{
    if ns.len() == 0 {
        None
    } else if ns[0].event_id == id {
        Some(ns[0])
    } else {
        find_notification(ns.drop_first(), id)
    }
}

/// What an event query returns: each matching event, in stored order, paired
/// with its notification setting; an event without one is not returned (the
/// read is a join).
pub open spec fn find_many_spec(
    es: Seq<EventView>,
    ns: Seq<NotificationView>,
    q: EventFindManyView,
) -> Seq<(EventView, NotificationView)>
    decreases es.len(),
{
    if es.len() == 0 {
        Seq::empty()
    } else {
        let prev = find_many_spec(es.drop_last(), ns, q);
        let e = es.last();
        if matches_query(e, q) && find_notification(ns, e.id) is Some {
            prev.push((e, find_notification(ns, e.id)->0))
        } else {
            prev
        }
    }
}

/// Whether the first pair's event starts strictly before the second's, in
/// the lexicographic order of the timestamp text.
pub open spec fn starts_strictly_before(
    a: (EventView, NotificationView),
    b: (EventView, NotificationView),
) -> bool {
    lex_le(a.0.start_datetime, b.0.start_datetime) && !lex_le(
        b.0.start_datetime,
        a.0.start_datetime,
    )
}

/// Inserts a pair into a slice ordered by start: before the first pair it
/// strictly precedes, so pairs with equal starts keep their order.
pub open spec fn insert_by_start(
    sorted: Seq<(EventView, NotificationView)>,
    p: (EventView, NotificationView),
) -> Seq<(EventView, NotificationView)>
    decreases sorted.len(),
{
    if sorted.len() == 0 {
        seq![p]
    } else if starts_strictly_before(p, sorted[0]) {
        seq![p] + sorted
    } else {
        seq![sorted[0]] + insert_by_start(sorted.drop_first(), p)
    }
}

/// Orders pairs by their event's start timestamp, stably.
pub open spec fn sort_by_start(ps: Seq<(EventView, NotificationView)>) -> Seq<
    (EventView, NotificationView),
>
    decreases ps.len(),
{
    if ps.len() == 0 {
        Seq::empty()
    } else {
        insert_by_start(sort_by_start(ps.drop_last()), ps.last())
    }
}

/// Inserting changes which pairs are present by exactly the inserted one.
proof fn lemma_insert_membership(
    s: Seq<(EventView, NotificationView)>,
    p: (EventView, NotificationView),
    x: (EventView, NotificationView),
)
    ensures
        (exists|j: int| 0 <= j < insert_by_start(s, p).len() && #[trigger] insert_by_start(s, p)[j]
            == x) <==> (x == p || exists|j: int| 0 <= j < s.len() && #[trigger] s[j] == x),
    decreases s.len(),
{
    let r = insert_by_start(s, p);
    if s.len() == 0 {
        assert(r[0] == p);
    } else if starts_strictly_before(p, s[0]) {
        assert(r[0] == p);
        assert forall|j: int| 0 <= j < s.len() implies r[j + 1] == s[j] by {}
        if exists|j: int| 0 <= j < r.len() && #[trigger] r[j] == x {
            let j = choose|j: int| 0 <= j < r.len() && #[trigger] r[j] == x;
            if j > 0 {
                assert(s[j - 1] == x);
            }
        }
    } else {
        lemma_insert_membership(s.drop_first(), p, x);
        let sub = insert_by_start(s.drop_first(), p);
        assert(r[0] == s[0]);
        assert forall|j: int| 0 <= j < sub.len() implies r[j + 1] == sub[j] by {}
        if exists|j: int| 0 <= j < r.len() && #[trigger] r[j] == x {
            let j = choose|j: int| 0 <= j < r.len() && #[trigger] r[j] == x;
            if j == 0 {
                assert(s[0] == x);
            } else {
                assert(sub[j - 1] == x);
                if x != p {
                    let k = choose|k: int|
                        0 <= k < s.drop_first().len() && #[trigger] s.drop_first()[k] == x;
                    assert(s[k + 1] == x);
                }
            }
        }
        if x == p {
            let k = choose|k: int| 0 <= k < sub.len() && #[trigger] sub[k] == p;
            assert(r[k + 1] == p);
        }
        if exists|j: int| 0 <= j < s.len() && #[trigger] s[j] == x {
            let j = choose|j: int| 0 <= j < s.len() && #[trigger] s[j] == x;
            if j == 0 {
                assert(r[0] == x);
            } else {
                assert(s.drop_first()[j - 1] == x);
                let k = choose|k: int| 0 <= k < sub.len() && #[trigger] sub[k] == x;
                assert(r[k + 1] == x);
            }
        }
    }
}

/// Ordering changes no membership: the same pairs come out.
pub proof fn lemma_sort_membership(
    ps: Seq<(EventView, NotificationView)>,
    x: (EventView, NotificationView),
)
    ensures
        (exists|j: int| 0 <= j < sort_by_start(ps).len() && #[trigger] sort_by_start(ps)[j] == x)
            <==> (exists|j: int| 0 <= j < ps.len() && #[trigger] ps[j] == x),
    decreases ps.len(),
{
    if ps.len() > 0 {
        lemma_sort_membership(ps.drop_last(), x);
        lemma_insert_membership(sort_by_start(ps.drop_last()), ps.last(), x);
        let ins = insert_by_start(sort_by_start(ps.drop_last()), ps.last());
        assert(sort_by_start(ps) == ins);
        if exists|j: int| 0 <= j < ins.len() && #[trigger] ins[j] == x {
            let j = choose|j: int| 0 <= j < ins.len() && #[trigger] ins[j] == x;
            assert(sort_by_start(ps)[j] == x);
        }
        if exists|j: int| 0 <= j < sort_by_start(ps).len() && #[trigger] sort_by_start(ps)[j]
            == x {
            let j = choose|j: int|
                0 <= j < sort_by_start(ps).len() && #[trigger] sort_by_start(ps)[j] == x;
            assert(ins[j] == x);
        }
        if exists|j: int| 0 <= j < ps.drop_last().len() && #[trigger] ps.drop_last()[j] == x {
            let j = choose|j: int| 0 <= j < ps.drop_last().len() && #[trigger] ps.drop_last()[j] == x;
            assert(ps[j] == x);
        }
        if x == ps.last() {
            assert(ps[ps.len() - 1] == x);
        }
        if exists|j: int| 0 <= j < ps.len() && #[trigger] ps[j] == x {
            let j = choose|j: int| 0 <= j < ps.len() && #[trigger] ps[j] == x;
            if j < ps.len() - 1 {
                assert(ps.drop_last()[j] == x);
            } else {
                assert(x == ps.last());
            }
        }
    }
}

/// What a notification query returns: each setting whose key the query
/// admits, in stored order; an absent bound restricts nothing.
pub open spec fn find_notifications_spec(
    ns: Seq<NotificationView>,
    q: NotificationFindManyView,
) -> Seq<NotificationView>
    decreases ns.len(),
{
    if ns.len() == 0 {
        Seq::empty()
    } else {
        let prev = find_notifications_spec(ns.drop_last(), q);
        let keep = match q.event_ids_in {
            Some(ids) => ids.contains(ns.last().event_id),
            None => true,
        };
        if keep {
            prev.push(ns.last())
        } else {
            prev
        }
    }
}

/// The stored events after an update by id: the event carrying `id` takes
/// the update, every other event is untouched.
pub open spec fn update_event_in(es: Seq<EventView>, id: Seq<char>, u: EventUpdateView) -> Seq<
    EventView,
> {
    es.map(
        |k: int, e: EventView|
            if e.id == id {
                apply_event_update(e, u)
            } else {
                e
            },
    )
}

/// The stored notification settings after an update by key.
pub open spec fn update_notification_in(
    ns: Seq<NotificationView>,
    id: Seq<char>,
    u: NotificationUpdateView,
) -> Seq<NotificationView> {
    ns.map(
        |k: int, n: NotificationView|
            if n.event_id == id {
                apply_notification_update(n, u)
            } else {
                n
            },
    )
}

/// The stored credentials after an update by id.
pub open spec fn update_token_in(
    ts: Seq<OAuthTokenView>,
    id: Seq<char>,
    u: OAuthTokenUpdateView,
) -> Seq<OAuthTokenView> {
    ts.map(
        |k: int, t: OAuthTokenView|
            if t.id == id {
                apply_token_update(t, u)
            } else {
                t
            },
    )
}

/// Whether a batch of events may be created: its ids are pairwise distinct
/// and none is stored yet.
pub open spec fn event_ids_fresh(es: Seq<EventView>, news: Seq<EventView>) -> bool {
    forall|i: int|
        0 <= i < news.len() ==> !has_event_id(es, #[trigger] news[i].id) && !has_event_id(
            news.take(i),
            news[i].id,
        )
}

/// Whether a batch of notification settings may be created.
pub open spec fn notification_ids_fresh(
    ns: Seq<NotificationView>,
    news: Seq<NotificationView>,
) -> bool {
    forall|i: int|
        0 <= i < news.len() ==> !has_notification_id(ns, #[trigger] news[i].event_id)
            && !has_notification_id(news.take(i), news[i].event_id)
}

/// Is `id` among the stored events? Answers over the view.
#[verifier::loop_isolation(false)]
fn vec_has_event_id(es: &Vec<Event>, upto: usize, id: &String) -> (r: bool)
    requires
        upto <= es.len(),
    ensures
        r == has_event_id(es.deep_view().take(upto as int), id@),
{
    let ghost evs = es.deep_view().take(upto as int);
    let mut k: usize = 0;
    while k < upto
        invariant
            k <= upto <= es.len(),
            evs == es.deep_view().take(upto as int),
            es.deep_view().len() == es.len(),
            forall|m: int| 0 <= m < k ==> #[trigger] evs[m].id != id@,
        decreases upto - k,
    {
        if es[k].id == *id {
            proof {
                assert(evs[k as int].id == id@);
            }
            return true;
        }
        k = k + 1;
    }
    proof {
        if has_event_id(evs, id@) {
            let w = choose|m: int| 0 <= m < evs.len() && #[trigger] evs[m].id == id@;
            assert(evs[w].id != id@);
        }
    }
    false
}

/// Is `id` among the stored notification keys?
#[verifier::loop_isolation(false)]
fn vec_has_notification_id(ns: &Vec<Notification>, upto: usize, id: &String) -> (r: bool)
    requires
        upto <= ns.len(),
    ensures
        r == has_notification_id(ns.deep_view().take(upto as int), id@),
{
    let ghost nvs = ns.deep_view().take(upto as int);
    let mut k: usize = 0;
    while k < upto
        invariant
            k <= upto <= ns.len(),
            nvs == ns.deep_view().take(upto as int),
            ns.deep_view().len() == ns.len(),
            forall|m: int| 0 <= m < k ==> #[trigger] nvs[m].event_id != id@,
        decreases upto - k,
    {
        if ns[k].event_id == *id {
            proof {
                assert(nvs[k as int].event_id == id@);
            }
            return true;
        }
        k = k + 1;
    }
    proof {
        if has_notification_id(nvs, id@) {
            let w = choose|m: int| 0 <= m < nvs.len() && #[trigger] nvs[m].event_id == id@;
            assert(nvs[w].event_id != id@);
        }
    }
    false
}

/// Is `id` among the given identifiers?
#[verifier::loop_isolation(false)]
fn ids_contain(ids: &Vec<String>, id: &String) -> (r: bool)
    ensures
        r == ids.deep_view().contains(id@),
{
    let ghost iv = ids.deep_view();
    let mut k: usize = 0;
    while k < ids.len()
        invariant
            k <= ids.len(),
            iv == ids.deep_view(),
            iv.len() == ids.len(),
            forall|m: int| 0 <= m < k ==> #[trigger] iv[m] != id@,
        decreases ids.len() - k,
    {
        if ids[k] == *id {
            proof {
                assert(iv[k as int] == id@);
            }
            return true;
        }
        k = k + 1;
    }
    proof {
        if iv.contains(id@) {
            let w = choose|m: int| 0 <= m < iv.len() && iv[m] == id@;
            assert(iv[w] != id@);
        }
    }
    false
}

/// Does the event answer the query? Answers over the views.
fn query_matches(e: &Event, q: &EventFindMany) -> (r: bool)
    ensures
        r == matches_query(e@, q@),
{
    let from_ok = match &q.from {
        Some(f) => str_le(f.as_str(), e.start_datetime.as_str()),
        None => true,
    };
    let to_ok = match &q.to {
        Some(t) => str_le(e.end_datetime.as_str(), t.as_str()),
        None => true,
    };
    let ids_ok = match &q.ids_in {
        Some(ids) => ids_contain(ids, &e.id),
        None => true,
    };
    from_ok && to_ok && ids_ok
}

/// The first stored notification setting keyed by `id`, cloned.
#[verifier::loop_isolation(false)]
fn find_notification_exec(ns: &Vec<Notification>, id: &String) -> (r: Option<Notification>)
    ensures
        r.deep_view() == find_notification(ns.deep_view(), id@),
{
    let ghost nv = ns.deep_view();
    proof {
        assert(nv.skip(0) =~= nv);
    }
    let mut k: usize = 0;
    while k < ns.len()
        invariant
            k <= ns.len(),
            nv == ns.deep_view(),
            nv.len() == ns.len(),
            find_notification(nv, id@) == find_notification(nv.skip(k as int), id@),
        decreases ns.len() - k,
    {
        proof {
            assert(nv.skip(k as int)[0] == nv[k as int]);
        }
        if ns[k].event_id == *id {
            return Some(ns[k].clone());
        }
        proof {
            assert(nv.skip(k as int).drop_first() =~= nv.skip(k as int + 1));
        }
        k = k + 1;
    }
    proof {
        assert(nv.skip(ns@.len() as int) =~= Seq::<NotificationView>::empty());
    }
    None
}

/// The event that results from applying an update: `Some` fields overwrite,
/// `None` fields keep the stored value; the id never changes.
fn apply_update_exec(e: &Event, u: &EventUpdate) -> (r: Event)
    ensures
        r@ == apply_event_update(e@, u@),
{
    Event {
        id: e.id.clone(),
        summary: match &u.summary {
            Some(s) => s.clone(),
            None => e.summary.clone(),
        },
        description: match &u.description {
            Some(s) => Some(s.clone()),
            None => clone_opt_string(&e.description),
        },
        status: match &u.status {
            Some(s) => Some(s.clone()),
            None => clone_opt_string(&e.status),
        },
        hangout_link: match &u.hangout_link {
            Some(s) => Some(s.clone()),
            None => clone_opt_string(&e.hangout_link),
        },
        zoom_link: match &u.zoom_link {
            Some(s) => Some(s.clone()),
            None => clone_opt_string(&e.zoom_link),
        },
        teams_link: match &u.teams_link {
            Some(s) => Some(s.clone()),
            None => clone_opt_string(&e.teams_link),
        },
        start_datetime: match &u.start_datetime {
            Some(s) => s.clone(),
            None => e.start_datetime.clone(),
        },
        end_datetime: match &u.end_datetime {
            Some(s) => s.clone(),
            None => e.end_datetime.clone(),
        },
    }
}

/// Does `a`'s event start strictly before `b`'s?
fn starts_before_exec(a: &(Event, Notification), b: &(Event, Notification)) -> (r: bool)
    ensures
        r == starts_strictly_before(a.deep_view(), b.deep_view()),
{
    str_le(a.0.start_datetime.as_str(), b.0.start_datetime.as_str()) && !str_le(
        b.0.start_datetime.as_str(),
        a.0.start_datetime.as_str(),
    )
}

/// The store of events and their notification settings. Events and settings
/// are keyed by the event id, unique on each side; a read joins the two, so
/// an event is always seen together with its current setting.
pub struct EventStore {
    events: Vec<Event>,
    notifications: Vec<Notification>,
}

impl EventStore {
    /// The stored events, in insertion order.
    pub closed spec fn events_view(&self) -> Seq<EventView> {
        self.events.deep_view()
    }

    /// The stored notification settings, in insertion order.
    pub closed spec fn notifications_view(&self) -> Seq<NotificationView> {
        self.notifications.deep_view()
    }

    /// Well-formedness: ids are unique on both sides.
    pub open spec fn wf(&self) -> bool {
        unique_event_ids(self.events_view()) && unique_notification_ids(self.notifications_view())
    }

    /// The relation of the data model: every stored event owns exactly one
    /// notification setting, and every setting belongs to a stored event.
    pub open spec fn paired(&self) -> bool {
        forall|id: Seq<char>|
            #![trigger has_event_id(self.events_view(), id)]
            #![trigger has_notification_id(self.notifications_view(), id)]
            has_event_id(self.events_view(), id) <==> has_notification_id(
                self.notifications_view(),
                id,
            )
    }

    /// An empty store.
    pub fn new() -> (r: EventStore)
        ensures
            r.wf(),
            r.events_view() == Seq::<EventView>::empty(),
            r.notifications_view() == Seq::<NotificationView>::empty(),
    {
        let r = EventStore { events: Vec::new(), notifications: Vec::new() };
        proof {
            assert(r.events_view() =~= Seq::<EventView>::empty());
            assert(r.notifications_view() =~= Seq::<NotificationView>::empty());
        }
        r
    }

    /// Every matching event, atomically paired with its notification setting
    /// and ordered by start timestamp, ascending; matches with equal starts
    /// keep their stored order.
    #[verifier::loop_isolation(false)]
    pub fn find_many(&self, query: &EventFindMany) -> (r: Vec<(Event, Notification)>)
        ensures
            r.deep_view() == sort_by_start(
                find_many_spec(self.events_view(), self.notifications_view(), query@),
            ),
    {
        let ghost ev = self.events_view();
        let ghost nv = self.notifications_view();
        let mut r: Vec<(Event, Notification)> = Vec::new();
        proof {
            assert(r.deep_view() =~= find_many_spec(ev.take(0), nv, query@));
        }
        let mut i: usize = 0;
        while i < self.events.len()
            invariant
                i <= self.events.len(),
                ev == self.events_view(),
                nv == self.notifications_view(),
                ev.len() == self.events.len(),
                r.deep_view() == find_many_spec(ev.take(i as int), nv, query@),
            decreases self.events.len() - i,
        {
            let e = &self.events[i];
            proof {
                assert(ev.take(i + 1).drop_last() =~= ev.take(i as int));
                assert(ev.take(i + 1).last() == e@);
            }
            let ghost prev = r.deep_view();
            if query_matches(e, query) {
                match find_notification_exec(&self.notifications, &e.id) {
                    Some(n) => {
                        r.push((e.clone(), n));
                        proof {
                            assert(r.deep_view() =~= prev.push(
                                (e@, find_notification(nv, e@.id)->0),
                            ));
                        }
                    },
                    None => {},
                }
            }
            i = i + 1;
        }
        proof {
            assert(ev.take(self.events@.len() as int) =~= ev);
        }
        let ghost joined = find_many_spec(ev, nv, query@);
        let mut r = r;
        let mut sorted: Vec<(Event, Notification)> = Vec::new();
        proof {
            assert(sorted.deep_view() =~= sort_by_start(joined.take(0)));
        }
        let ghost mut k: int = 0;
        while r.len() > 0
            invariant
                0 <= k <= joined.len(),
                k + r.len() == joined.len(),
                r.deep_view() =~= joined.skip(k),
                sorted.deep_view() == sort_by_start(joined.take(k)),
            decreases r.len(),
        {
            let ghost r_old = r@;
            let ghost rdv_old = r.deep_view();
            let pair = r.remove(0);
            proof {
                assert(joined.skip(k)[0] == joined[k]);
                assert(pair.deep_view() == joined[k]);
                assert forall|m: int| 0 <= m < r.deep_view().len() implies r.deep_view()[m]
                    == joined.skip(k + 1)[m] by {
                    assert(r@[m] == r_old[m + 1]);
                    assert(r.deep_view()[m] == rdv_old[m + 1]);
                    assert(joined.skip(k)[m + 1] == joined[k + 1 + m]);
                    assert(joined.skip(k + 1)[m] == joined[k + 1 + m]);
                }
                assert(r.deep_view() =~= joined.skip(k + 1));
            }
            let ghost pv = pair.deep_view();
            let ghost sv = sorted.deep_view();
            let mut j: usize = 0;
            proof {
                assert(sv.skip(0) =~= sv);
                assert(insert_by_start(sv, pv) =~= sv.take(0) + insert_by_start(sv.skip(0), pv));
            }
            while j < sorted.len() && !starts_before_exec(&pair, &sorted[j])
                invariant
                    j <= sorted.len(),
                    sorted.deep_view() == sv,
                    sv.len() == sorted.len(),
                    pair.deep_view() == pv,
                    insert_by_start(sv, pv) == sv.take(j as int) + insert_by_start(
                        sv.skip(j as int),
                        pv,
                    ),
                decreases sorted.len() - j,
            {
                proof {
                    assert(sv.skip(j as int)[0] == sv[j as int]);
                    assert(sv.skip(j as int).drop_first() =~= sv.skip(j + 1));
                    assert(sv.take(j + 1) =~= sv.take(j as int) + seq![sv[j as int]]);
                    assert(sv.take(j as int) + (seq![sv[j as int]] + insert_by_start(
                        sv.skip(j + 1),
                        pv,
                    )) =~= sv.take(j + 1) + insert_by_start(sv.skip(j + 1), pv));
                }
                j = j + 1;
            }
            proof {
                if j < sorted.len() {
                    assert(sv.skip(j as int)[0] == sv[j as int]);
                    assert(insert_by_start(sv.skip(j as int), pv) =~= seq![pv] + sv.skip(j as int));
                } else {
                    assert(sv.skip(j as int) =~= Seq::<(EventView, NotificationView)>::empty());
                }
            }
            sorted.insert(j, pair);
            proof {
                assert(sorted.deep_view() =~= sv.take(j as int) + seq![pv] + sv.skip(j as int));
                assert(insert_by_start(sv, pv) =~= sv.take(j as int) + (seq![pv] + sv.skip(
                    j as int,
                )));
                assert(sorted.deep_view() =~= insert_by_start(sv, pv));
                assert(joined.take(k + 1).drop_last() =~= joined.take(k));
                assert(joined.take(k + 1).last() == joined[k]);
                assert(sorted.deep_view() == sort_by_start(joined.take(k + 1)));
                k = k + 1;
            }
        }
        proof {
            assert(joined.take(joined.len() as int) =~= joined);
        }
        sorted
    }

    /// Creates a batch of events, all or none: fails without writing when an
    /// id in the batch repeats or is already stored; otherwise appends the
    /// batch. Notification settings are untouched.
    #[verifier::loop_isolation(false)]
    pub fn create_many(&mut self, events: Vec<Event>) -> (r: Result<(), StoreError>)
        requires
            old(self).wf(),
        ensures
            final(self).wf(),
            r is Ok <==> event_ids_fresh(old(self).events_view(), events.deep_view()),
            r is Ok ==> final(self).events_view() == old(self).events_view() + events.deep_view(),
            r is Err ==> final(self).events_view() == old(self).events_view(),
            final(self).notifications_view() == old(self).notifications_view(),
    {
        let ghost ev = self.events_view();
        let ghost newv = events.deep_view();
        let mut i: usize = 0;
        while i < events.len()
            invariant
                i <= events.len(),
                ev == self.events_view(),
                newv == events.deep_view(),
                newv.len() == events.len(),
                self.events.deep_view() == ev,
                ev.len() == self.events.len(),
                self.notifications_view() == old(self).notifications_view(),
                forall|m: int|
                    0 <= m < i ==> !has_event_id(ev, #[trigger] newv[m].id) && !has_event_id(
                        newv.take(m),
                        newv[m].id,
                    ),
            decreases events.len() - i,
        {
            let dup_stored = vec_has_event_id(&self.events, self.events.len(), &events[i].id);
            let dup_batch = vec_has_event_id(&events, i, &events[i].id);
            proof {
                assert(newv[i as int].id == events@[i as int]@.id);
                assert(ev.take(ev.len() as int) =~= ev);
            }
            if dup_stored || dup_batch {
                proof {
                    assert(!event_ids_fresh(ev, newv));
                }
                return Err(StoreError::DuplicateId);
            }
            i = i + 1;
        }
        proof {
            lemma_unique_after_append(ev, newv);
        }
        let mut events = events;
        self.events.append(&mut events);
        proof {
            assert(self.events.deep_view() =~= ev + newv);
        }
        Ok(())
    }

    /// Every stored notification setting whose key the query admits, in
    /// stored order.
    #[verifier::loop_isolation(false)]
    pub fn find_many_notifications(&self, query: &NotificationFindMany) -> (r: Vec<Notification>)
        ensures
            r.deep_view() == find_notifications_spec(self.notifications_view(), query@),
    {
        let ghost nv = self.notifications_view();
        let mut r: Vec<Notification> = Vec::new();
        proof {
            assert(r.deep_view() =~= find_notifications_spec(nv.take(0), query@));
        }
        let mut i: usize = 0;
        while i < self.notifications.len()
            invariant
                i <= self.notifications.len(),
                nv.len() == self.notifications.len(),
                r.deep_view() == find_notifications_spec(nv.take(i as int), query@),
            decreases self.notifications.len() - i,
        {
            proof {
                assert(nv.take(i + 1).drop_last() =~= nv.take(i as int));
                assert(nv.take(i + 1).last() == nv[i as int]);
            }
            let ghost prev = r.deep_view();
            let keep = match &query.event_ids_in {
                Some(ids) => ids_contain(ids, &self.notifications[i].event_id),
                None => true,
            };
            if keep {
                r.push(self.notifications[i].clone());
                proof {
                    assert(r.deep_view() =~= prev.push(nv[i as int]));
                }
            }
            i = i + 1;
        }
        proof {
            assert(nv.take(self.notifications@.len() as int) =~= nv);
        }
        r
    }

    /// Creates a batch of notification settings, all or none, by the same
    /// rule as `create_many`. Events are untouched.
    #[verifier::loop_isolation(false)]
    pub fn create_many_notifications(&mut self, notifications: Vec<Notification>) -> (r: Result<
        (),
        StoreError,
    >)
        requires
            old(self).wf(),
        ensures
            final(self).wf(),
            r is Ok <==> notification_ids_fresh(
                old(self).notifications_view(),
                notifications.deep_view(),
            ),
            r is Ok ==> final(self).notifications_view() == old(self).notifications_view()
                + notifications.deep_view(),
            r is Err ==> final(self).notifications_view() == old(self).notifications_view(),
            final(self).events_view() == old(self).events_view(),
    {
        let ghost nv = self.notifications_view();
        let ghost newv = notifications.deep_view();
        let mut i: usize = 0;
        while i < notifications.len()
            invariant
                i <= notifications.len(),
                nv == self.notifications_view(),
                newv == notifications.deep_view(),
                newv.len() == notifications.len(),
                nv.len() == self.notifications.len(),
                self.notifications.deep_view() == nv,
                self.events_view() == old(self).events_view(),
                forall|m: int|
                    0 <= m < i ==> !has_notification_id(nv, #[trigger] newv[m].event_id)
                        && !has_notification_id(newv.take(m), newv[m].event_id),
            decreases notifications.len() - i,
        {
            let dup_stored = vec_has_notification_id(
                &self.notifications,
                self.notifications.len(),
                &notifications[i].event_id,
            );
            let dup_batch = vec_has_notification_id(&notifications, i, &notifications[i].event_id);
            proof {
                assert(newv[i as int].event_id == notifications@[i as int]@.event_id);
                assert(nv.take(nv.len() as int) =~= nv);
            }
            if dup_stored || dup_batch {
                proof {
                    assert(!notification_ids_fresh(nv, newv));
                }
                return Err(StoreError::DuplicateId);
            }
            i = i + 1;
        }
        proof {
            lemma_unique_notifications_after_append(nv, newv);
        }
        let mut notifications = notifications;
        self.notifications.append(&mut notifications);
        proof {
            assert(self.notifications.deep_view() =~= nv + newv);
        }
        Ok(())
    }

    /// Updates the event carrying `id` in place, field-wise; absent ids are
    /// written nowhere and the call still succeeds, as a row update that
    /// touched no row.
    #[verifier::loop_isolation(false)]
    pub fn update(&mut self, id: String, event_update: EventUpdate) -> (r: Result<(), StoreError>)
        requires
            old(self).wf(),
        ensures
            final(self).wf(),
            r is Ok,
            final(self).events_view() == update_event_in(
                old(self).events_view(),
                id@,
                event_update@,
            ),
            final(self).notifications_view() == old(self).notifications_view(),
    {
        let ghost ev = self.events_view();
        let ghost target = update_event_in(ev, id@, event_update@);
        let mut j: usize = 0;
        while j < self.events.len()
            invariant
                j <= self.events.len(),
                ev == self.events_view(),
                target == update_event_in(ev, id@, event_update@),
                ev.len() == self.events.len(),
                self.events.deep_view() == ev,
                self.notifications_view() == old(self).notifications_view(),
                unique_event_ids(ev),
                forall|m: int| 0 <= m < j ==> #[trigger] ev[m].id != id@,
            decreases self.events.len() - j,
        {
            if self.events[j].id == id {
                let ghost jj = j as int;
                proof {
                    assert(ev[jj].id == id@);
                }
                let updated = apply_update_exec(&self.events[j], &event_update);
                self.events[j] = updated;
                proof {
                    assert forall|k: int| 0 <= k < ev.len() implies self.events.deep_view()[k]
                        == target[k] by {
                        if k != jj {
                            if k < jj {
                                assert(ev[k].id != ev[jj].id);
                            } else {
                                assert(ev[jj].id != ev[k].id);
                            }
                        }
                    }
                    assert(self.events.deep_view() =~= target);
                    lemma_update_preserves_unique_events(ev, id@, event_update@);
                }
                return Ok(());
            }
            j = j + 1;
        }
        proof {
            assert forall|k: int| 0 <= k < ev.len() implies target[k] == ev[k] by {
                assert(ev[k].id != id@);
            }
            assert(self.events.deep_view() =~= target);
        }
        Ok(())
    }

    /// Updates the notification setting keyed by `id` in place, field-wise;
    /// an absent key is written nowhere.
    #[verifier::loop_isolation(false)]
    pub fn update_notification(
        &mut self,
        event_id: String,
        notification_update: NotificationUpdate,
    ) -> (r: Result<(), StoreError>)
        requires
            old(self).wf(),
        ensures
            final(self).wf(),
            r is Ok,
            final(self).notifications_view() == update_notification_in(
                old(self).notifications_view(),
                event_id@,
                notification_update@,
            ),
            final(self).events_view() == old(self).events_view(),
    {
        let ghost nv = self.notifications_view();
        let ghost target = update_notification_in(nv, event_id@, notification_update@);
        let mut j: usize = 0;
        while j < self.notifications.len()
            invariant
                j <= self.notifications.len(),
                nv == self.notifications_view(),
                target == update_notification_in(nv, event_id@, notification_update@),
                nv.len() == self.notifications.len(),
                self.notifications.deep_view() == nv,
                self.events_view() == old(self).events_view(),
                unique_notification_ids(nv),
                forall|m: int| 0 <= m < j ==> #[trigger] nv[m].event_id != event_id@,
            decreases self.notifications.len() - j,
        {
            if self.notifications[j].event_id == event_id {
                let ghost jj = j as int;
                proof {
                    assert(nv[jj].event_id == event_id@);
                }
                let n = &self.notifications[j];
                let updated = Notification {
                    event_id: n.event_id.clone(),
                    enabled: match notification_update.enabled {
                        Some(b) => b,
                        None => n.enabled,
                    },
                    notification_sec_from_start: match
                    notification_update.notification_sec_from_start {
                        Some(s) => s,
                        None => n.notification_sec_from_start,
                    },
                };
                self.notifications[j] = updated;
                proof {
                    assert forall|k: int| 0 <= k < nv.len() implies self.notifications.deep_view()[k]
                        == target[k] by {
                        if k != jj {
                            if k < jj {
                                assert(nv[k].event_id != nv[jj].event_id);
                            } else {
                                assert(nv[jj].event_id != nv[k].event_id);
                            }
                        }
                    }
                    assert(self.notifications.deep_view() =~= target);
                    lemma_update_preserves_unique_notifications(
                        nv,
                        event_id@,
                        notification_update@,
                    );
                }
                return Ok(());
            }
            j = j + 1;
        }
        proof {
            assert forall|k: int| 0 <= k < nv.len() implies target[k] == nv[k] by {
                assert(nv[k].event_id != event_id@);
            }
            assert(self.notifications.deep_view() =~= target);
        }
        Ok(())
    }
}

/// A fresh batch appended to uniquely keyed events keeps the keys unique.
proof fn lemma_unique_after_append(es: Seq<EventView>, news: Seq<EventView>)
    requires
        unique_event_ids(es),
        event_ids_fresh(es, news),
    ensures
        unique_event_ids(es + news),
{
    let all = es + news;
    assert forall|i: int, j: int| 0 <= i < j < all.len() implies all[i].id != all[j].id by {
        if j < es.len() {
        } else {
            let jn = j - es.len();
            assert(!has_event_id(es, news[jn].id));
            assert(!has_event_id(news.take(jn), news[jn].id));
            if i < es.len() {
                assert(es[i].id != news[jn].id);
            } else {
                let in_ = i - es.len();
                assert(news.take(jn)[in_] == news[in_]);
                assert(news[in_].id != news[jn].id);
            }
        }
    }
}

/// A fresh batch appended to uniquely keyed settings keeps the keys unique.
proof fn lemma_unique_notifications_after_append(
    ns: Seq<NotificationView>,
    news: Seq<NotificationView>,
)
    requires
        unique_notification_ids(ns),
        notification_ids_fresh(ns, news),
    ensures
        unique_notification_ids(ns + news),
{
    let all = ns + news;
    assert forall|i: int, j: int| 0 <= i < j < all.len() implies all[i].event_id
        != all[j].event_id by {
        if j < ns.len() {
        } else {
            let jn = j - ns.len();
            assert(!has_notification_id(ns, news[jn].event_id));
            assert(!has_notification_id(news.take(jn), news[jn].event_id));
            if i < ns.len() {
                assert(ns[i].event_id != news[jn].event_id);
            } else {
                let in_ = i - ns.len();
                assert(news.take(jn)[in_] == news[in_]);
                assert(news[in_].event_id != news[jn].event_id);
            }
        }
    }
}

/// A field-wise update keeps every event's id, so uniqueness is kept.
proof fn lemma_update_preserves_unique_events(es: Seq<EventView>, id: Seq<char>, u: EventUpdateView)
    requires
        unique_event_ids(es),
    ensures
        unique_event_ids(update_event_in(es, id, u)),
{
    let upd = update_event_in(es, id, u);
    assert forall|i: int, j: int| 0 <= i < j < upd.len() implies upd[i].id != upd[j].id by {
        assert(upd[i].id == es[i].id);
        assert(upd[j].id == es[j].id);
    }
}

/// A field-wise update keeps every setting's key, so uniqueness is kept.
proof fn lemma_update_preserves_unique_notifications(
    ns: Seq<NotificationView>,
    id: Seq<char>,
    u: NotificationUpdateView,
)
    requires
        unique_notification_ids(ns),
    ensures
        unique_notification_ids(update_notification_in(ns, id, u)),
{
    let upd = update_notification_in(ns, id, u);
    assert forall|i: int, j: int| 0 <= i < j < upd.len() implies upd[i].event_id
        != upd[j].event_id by {
        assert(upd[i].event_id == ns[i].event_id);
        assert(upd[j].event_id == ns[j].event_id);
    }
}

/// Options applied to each connection of a pooled store; the timeout is in
/// milliseconds.
pub struct ConnectionOptions {
    pub enable_wal: bool,
    pub enable_foreign_keys: bool,
    pub busy_timeout_millis: Option<u64>,
}

/// The stored credential with the greatest creation timestamp; among equal
/// timestamps, the one stored first.
pub open spec fn latest_token(ts: Seq<OAuthTokenView>) -> Option<OAuthTokenView>
    decreases ts.len(),
{
    if ts.len() == 0 {
        None
    } else {
        match latest_token(ts.drop_last()) {
            None => Some(ts.last()),
            Some(b) => {
                if lex_le(b.created_at, ts.last().created_at) && !lex_le(
                    ts.last().created_at,
                    b.created_at,
                ) {
                    Some(ts.last())
                } else {
                    Some(b)
                }
            },
        }
    }
}

/// Is `id` among the stored credentials?
#[verifier::loop_isolation(false)]
fn vec_has_token_id(ts: &Vec<OAuthToken>, id: &String) -> (r: bool)
    ensures
        r == has_token_id(ts.deep_view(), id@),
{
    let ghost tv = ts.deep_view();
    let mut k: usize = 0;
    while k < ts.len()
        invariant
            k <= ts.len(),
            forall|m: int| 0 <= m < k ==> #[trigger] tv[m].id != id@,
        decreases ts.len() - k,
    {
        if ts[k].id == *id {
            proof {
                assert(tv[k as int].id == id@);
            }
            return true;
        }
        k = k + 1;
    }
    proof {
        if has_token_id(tv, id@) {
            let w = choose|m: int| 0 <= m < tv.len() && #[trigger] tv[m].id == id@;
            assert(tv[w].id != id@);
        }
    }
    false
}

/// The credential that results from applying an update: `Some` fields
/// overwrite, `None` fields keep the stored value; `updated_at` is always
/// written, `id` and `created_at` never change.
fn apply_token_update_exec(t: &OAuthToken, u: &OAuthTokenUpdate) -> (r: OAuthToken)
    ensures
        r@ == apply_token_update(t@, u@),
{
    OAuthToken {
        id: t.id.clone(),
        access_token: match &u.access_token {
            Some(s) => s.clone(),
            None => t.access_token.clone(),
        },
        expires_in: match &u.expires_in {
            Some(s) => Some(s.clone()),
            None => clone_opt_string(&t.expires_in),
        },
        refresh_token: match &u.refresh_token {
            Some(s) => Some(s.clone()),
            None => clone_opt_string(&t.refresh_token),
        },
        scope: match &u.scope {
            Some(s) => Some(s.clone()),
            None => clone_opt_string(&t.scope),
        },
        token_type: match &u.token_type {
            Some(s) => Some(s.clone()),
            None => clone_opt_string(&t.token_type),
        },
        created_at: t.created_at.clone(),
        updated_at: u.updated_at.clone(),
    }
}

/// The credential store. Credentials are keyed by their id; the current one
/// is the one with the most recent creation timestamp.
pub struct OAuthTokenStore {
    tokens: Vec<OAuthToken>,
}

impl OAuthTokenStore {
    /// The stored credentials, in insertion order.
    pub closed spec fn tokens_view(&self) -> Seq<OAuthTokenView> {
        self.tokens.deep_view()
    }

    /// Well-formedness: ids are unique.
    pub open spec fn wf(&self) -> bool {
        unique_token_ids(self.tokens_view())
    }

    /// An empty store.
    pub fn new() -> (r: OAuthTokenStore)
        ensures
            r.wf(),
            r.tokens_view() == Seq::<OAuthTokenView>::empty(),
    {
        let r = OAuthTokenStore { tokens: Vec::new() };
        proof {
            assert(r.tokens_view() =~= Seq::<OAuthTokenView>::empty());
        }
        r
    }

    /// Persists a newly issued credential; fails without writing when its id
    /// is already stored.
    #[verifier::loop_isolation(false)]
    pub fn create(&mut self, oauth_token: OAuthToken) -> (r: Result<(), StoreError>)
        requires
            old(self).wf(),
        ensures
            final(self).wf(),
            r is Ok <==> !has_token_id(old(self).tokens_view(), oauth_token@.id),
            r is Ok ==> final(self).tokens_view() == old(self).tokens_view().push(oauth_token@),
            r is Err ==> final(self).tokens_view() == old(self).tokens_view(),
    {
        let ghost tv = self.tokens_view();
        if vec_has_token_id(&self.tokens, &oauth_token.id) {
            return Err(StoreError::DuplicateId);
        }
        let ghost pushed = tv.push(oauth_token@);
        proof {
            assert forall|i: int, j: int| 0 <= i < j < pushed.len() implies pushed[i].id
                != pushed[j].id by {
                if j == tv.len() {
                    assert(pushed[i] == tv[i]);
                    if pushed[i].id == oauth_token@.id {
                        assert(has_token_id(tv, oauth_token@.id));
                    }
                }
            }
        }
        self.tokens.push(oauth_token);
        proof {
            assert(self.tokens.deep_view() =~= pushed);
        }
        Ok(())
    }

    /// Updates the credential carrying `id` in place, field-wise; an absent
    /// id is written nowhere and the call still succeeds.
    #[verifier::loop_isolation(false)]
    pub fn update(&mut self, id: String, oauth_token_update: OAuthTokenUpdate) -> (r: Result<
        (),
        StoreError,
    >)
        requires
            old(self).wf(),
        ensures
            final(self).wf(),
            r is Ok,
            final(self).tokens_view() == update_token_in(
                old(self).tokens_view(),
                id@,
                oauth_token_update@,
            ),
    {
        let ghost tv = self.tokens_view();
        let ghost target = update_token_in(tv, id@, oauth_token_update@);
        proof {
            lemma_update_preserves_unique_tokens(tv, id@, oauth_token_update@);
        }
        let mut j: usize = 0;
        while j < self.tokens.len()
            invariant
                j <= self.tokens.len(),
                self.tokens.deep_view() == tv,
                forall|m: int| 0 <= m < j ==> #[trigger] tv[m].id != id@,
            decreases self.tokens.len() - j,
        {
            if self.tokens[j].id == id {
                let ghost jj = j as int;
                proof {
                    assert(tv[jj].id == id@);
                }
                let updated = apply_token_update_exec(&self.tokens[j], &oauth_token_update);
                self.tokens[j] = updated;
                proof {
                    assert forall|k: int| 0 <= k < tv.len() implies self.tokens.deep_view()[k]
                        == target[k] by {
                        if k != jj {
                            if k < jj {
                                assert(tv[k].id != tv[jj].id);
                            } else {
                                assert(tv[jj].id != tv[k].id);
                            }
                        }
                    }
                    assert(self.tokens.deep_view() =~= target);
                }
                return Ok(());
            }
            j = j + 1;
        }
        proof {
            assert forall|k: int| 0 <= k < tv.len() implies target[k] == tv[k] by {
                assert(tv[k].id != id@);
            }
            assert(self.tokens.deep_view() =~= target);
        }
        Ok(())
    }

    /// The current credential: the stored one with the most recent creation
    /// timestamp, or `None` on an empty store.
    #[verifier::loop_isolation(false)]
    pub fn find_latest(&self) -> (r: Result<Option<OAuthToken>, StoreError>)
        ensures
            r matches Ok(o) && o.deep_view() == latest_token(self.tokens_view()),
    {
        let ghost tv = self.tokens_view();
        let mut best: Option<OAuthToken> = None;
        proof {
            assert(tv.take(0) =~= Seq::<OAuthTokenView>::empty());
        }
        let mut i: usize = 0;
        while i < self.tokens.len()
            invariant
                i <= self.tokens.len(),
                best.deep_view() == latest_token(tv.take(i as int)),
            decreases self.tokens.len() - i,
        {
            proof {
                assert(tv.take(i + 1).drop_last() =~= tv.take(i as int));
                assert(tv.take(i + 1).last() == tv[i as int]);
            }
            match &best {
                None => {
                    best = Some(self.tokens[i].clone());
                },
                Some(b) => {
                    let better = str_le(b.created_at.as_str(), self.tokens[i].created_at.as_str())
                        && !str_le(self.tokens[i].created_at.as_str(), b.created_at.as_str());
                    if better {
                        best = Some(self.tokens[i].clone());
                    }
                },
            }
            i = i + 1;
        }
        proof {
            assert(tv.take(self.tokens@.len() as int) =~= tv);
        }
        Ok(best)
    }
}

/// The stored events after a batch of updates, applied in order.
pub open spec fn apply_updates(es: Seq<EventView>, us: Seq<(Seq<char>, EventUpdateView)>) -> Seq<
    EventView,
>
    decreases us.len(),
{
    if us.len() == 0 {
        es
    } else {
        update_event_in(apply_updates(es, us.drop_last()), us.last().0, us.last().1)
    }
}

/// A batch of updates changes no event's id and no event's place.
pub proof fn lemma_apply_updates_preserves_ids(
    es: Seq<EventView>,
    us: Seq<(Seq<char>, EventUpdateView)>,
)
    ensures
        apply_updates(es, us).len() == es.len(),
        forall|k: int| 0 <= k < es.len() ==> apply_updates(es, us)[k].id == es[k].id,
    decreases us.len(),
{
    if us.len() > 0 {
        lemma_apply_updates_preserves_ids(es, us.drop_last());
    }
}

/// The query that restricts to the given identifiers and nothing else.
pub open spec fn ids_query(ids: Seq<Seq<char>>) -> EventFindManyView {
    EventFindManyView { from: None, to: None, ids_in: Some(ids) }
}

/// A notification setting is found exactly when its key is stored.
pub proof fn lemma_find_notification_some(ns: Seq<NotificationView>, id: Seq<char>)
    ensures
        find_notification(ns, id) is Some <==> has_notification_id(ns, id),
    decreases ns.len(),
{
    if ns.len() > 0 {
        if ns[0].event_id == id {
            assert(has_notification_id(ns, id));
        } else {
            lemma_find_notification_some(ns.drop_first(), id);
            if has_notification_id(ns, id) {
                let k = choose|k: int|
                    0 <= k < ns.len() && #[trigger] ns[k].event_id == id;
                assert(ns.drop_first()[k - 1].event_id == id);
                assert(has_notification_id(ns.drop_first(), id));
            }
            if has_notification_id(ns.drop_first(), id) {
                let k = choose|k: int|
                    0 <= k < ns.drop_first().len() && #[trigger] ns.drop_first()[k].event_id == id;
                assert(ns[k + 1].event_id == id);
                assert(has_notification_id(ns, id));
            }
        }
    }
}

/// Every stored event that answers the query and has its notification
/// setting appears among the queried pairs.
pub proof fn lemma_find_many_complete(
    es: Seq<EventView>,
    ns: Seq<NotificationView>,
    q: EventFindManyView,
    k: int,
)
    requires
        0 <= k < es.len(),
        matches_query(es[k], q),
        find_notification(ns, es[k].id) is Some,
    ensures
        exists|j: int|
            0 <= j < find_many_spec(es, ns, q).len() && #[trigger] find_many_spec(es, ns, q)[j].0
                == es[k],
    decreases es.len(),
{
    let r = find_many_spec(es, ns, q);
    if k == es.len() - 1 {
        assert(r[r.len() - 1].0 == es[k]);
    } else {
        assert(es.drop_last()[k] == es[k]);
        lemma_find_many_complete(es.drop_last(), ns, q, k);
        let prev = find_many_spec(es.drop_last(), ns, q);
        let j = choose|j: int| 0 <= j < prev.len() && #[trigger] prev[j].0 == es[k];
        assert(r[j].0 == es[k]);
    }
}

/// Every queried pair is a stored event, with its own notification setting,
/// that answers the query.
pub proof fn lemma_find_many_sound(
    es: Seq<EventView>,
    ns: Seq<NotificationView>,
    q: EventFindManyView,
    j: int,
)
    requires
        0 <= j < find_many_spec(es, ns, q).len(),
    ensures
        exists|k: int|
            0 <= k < es.len() && #[trigger] es[k] == find_many_spec(es, ns, q)[j].0 && matches_query(
                es[k],
                q,
            ),
        find_notification(ns, find_many_spec(es, ns, q)[j].0.id) is Some,
        find_many_spec(es, ns, q)[j].1 == find_notification(ns, find_many_spec(es, ns, q)[j].0.id)
            ->0,
    decreases es.len(),
{
    let r = find_many_spec(es, ns, q);
    let prev = find_many_spec(es.drop_last(), ns, q);
    if j < prev.len() {
        lemma_find_many_sound(es.drop_last(), ns, q, j);
        let k = choose|k: int|
            0 <= k < es.drop_last().len() && #[trigger] es.drop_last()[k] == prev[j].0
                && matches_query(es.drop_last()[k], q);
        assert(es[k] == r[j].0 && matches_query(es[k], q));
    } else {
        assert(es[es.len() - 1] == r[j].0 && matches_query(es[es.len() - 1], q));
    }
}

/// A field-wise update keeps every credential's id, so uniqueness is kept.
proof fn lemma_update_preserves_unique_tokens(
    ts: Seq<OAuthTokenView>,
    id: Seq<char>,
    u: OAuthTokenUpdateView,
)
    requires
        unique_token_ids(ts),
    ensures
        unique_token_ids(update_token_in(ts, id, u)),
{
    let upd = update_token_in(ts, id, u);
    assert forall|i: int, j: int| 0 <= i < j < upd.len() implies upd[i].id != upd[j].id by {
        assert(upd[i].id == ts[i].id);
        assert(upd[j].id == ts[j].id);
    }
}

} // verus!

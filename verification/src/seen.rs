//! The events that a client has already seen.

use vstd::hash_set::StringHashSet;
use vstd::prelude::*;

verus! {

/// The most events that are remembered.
pub const MAX_SEEN: usize = 5000;

/// The time to live of a remembered event, in nanoseconds: two hours. Events
/// that have outlived it are the first to go when there are too many.
pub const SEEN_TTL: u128 = 7_200_000_000_000;

/// Whether an event seen at one time has not outlived its time at another.
pub open spec fn is_fresh(at: u128, now: u128) -> bool {
    at as int > now as int - SEEN_TTL as int
}

/// The identifiers of events, in their order.
pub open spec fn event_ids(events: Seq<(Seq<char>, u128)>) -> Seq<Seq<char>> {
    events.map_values(|event: (Seq<char>, u128)| event.0)
}

/// The events that have not outlived their time, in their order.
pub open spec fn fresh_events(
    events: Seq<(Seq<char>, u128)>,
    now: u128,
) -> Seq<(Seq<char>, u128)> {
    events.filter(|event: (Seq<char>, u128)| is_fresh(event.1, now))
}

/// What is remembered after an event came in, in the order of arrival. A known
/// event changes nothing. A new one is added with its time; if that makes too
/// many, those that have outlived their time are forgotten, and if there are
/// still too many, so is the oldest.
pub open spec fn after_event(
    seen: Seq<(Seq<char>, u128)>,
    id: Seq<char>,
    now: u128,
) -> Seq<(Seq<char>, u128)> {
    if event_ids(seen).contains(id) {
        seen
    } else {
        let more = seen.push((id, now));
        if more.len() <= MAX_SEEN {
            more
        } else {
            let kept = fresh_events(more, now);
            if kept.len() <= MAX_SEEN {
                kept
            } else {
                kept.drop_first()
            }
        }
    }
}

/// Whether some events can be what is remembered: no event occurs twice, and
/// there are not too many.
pub open spec fn is_seen_list(events: Seq<(Seq<char>, u128)>) -> bool {
    &&& event_ids(events).no_duplicates()
    &&& events.len() <= MAX_SEEN
}

struct SeenEvent {
    id: String,
    at: u128,
}

spec fn event_models(events: Seq<SeenEvent>) -> Seq<(Seq<char>, u128)> {
    events.map_values(|event: SeenEvent| (event.id@, event.at))
}

/// Whether a set holds the identifiers of some events.
spec fn indexes(index: Set<Seq<char>>, events: Seq<(Seq<char>, u128)>) -> bool {
    forall|id: Seq<char>| #[trigger] index.contains(id) <==> event_ids(events).contains(id)
}

/// The identifiers of events, each with the time at which it came in.
pub struct SeenEvents {
    index: StringHashSet,
    events: Vec<SeenEvent>,
}

impl View for SeenEvents {
    type V = Seq<(Seq<char>, u128)>;

    closed spec fn view(&self) -> Seq<(Seq<char>, u128)> {
        event_models(self.events@)
    }
}

proof fn lemma_ids_push(events: Seq<(Seq<char>, u128)>, event: (Seq<char>, u128))
    ensures
        event_ids(events.push(event)) == event_ids(events).push(event.0),
        forall|id: Seq<char>| #[trigger]
            event_ids(events.push(event)).contains(id) <==> event_ids(events).contains(id) || id
                == event.0,
        event_ids(events).no_duplicates() && !event_ids(events).contains(event.0) ==> event_ids(
            events.push(event),
        ).no_duplicates(),
{
    let ids = event_ids(events);
    let more = event_ids(events.push(event));
    assert(more =~= ids.push(event.0));
    assert forall|id: Seq<char>| #[trigger] more.contains(id) <==> ids.contains(id) || id
        == event.0 by {
        if ids.contains(id) {
            let i = choose|i: int| 0 <= i < ids.len() && ids[i] == id;
            assert(more[i] == id);
        }
        assert(more[ids.len() as int] == event.0);
    }
}

proof fn lemma_fresh_push(events: Seq<(Seq<char>, u128)>, event: (Seq<char>, u128), now: u128)
    ensures
        fresh_events(events.push(event), now) == if is_fresh(event.1, now) {
            fresh_events(events, now).push(event)
        } else {
            fresh_events(events, now)
        },
{
    reveal(Seq::filter);
    assert(events.push(event).drop_last() =~= events);
}

/// The fresh ones of distinct events are distinct, no more, and among them.
proof fn lemma_fresh_events(events: Seq<(Seq<char>, u128)>, now: u128)
    requires
        event_ids(events).no_duplicates(),
    ensures
        fresh_events(events, now).len() <= events.len(),
        event_ids(fresh_events(events, now)).no_duplicates(),
        forall|id: Seq<char>| #[trigger]
            event_ids(fresh_events(events, now)).contains(id) ==> event_ids(events).contains(id),
    decreases events.len(),
{
    reveal(Seq::filter);
    if events.len() > 0 {
        let before = events.drop_last();
        let event = events.last();
        assert(before.push(event) =~= events);
        lemma_ids_push(before, event);
        assert(!event_ids(before).contains(event.0)) by {
            if event_ids(before).contains(event.0) {
                let i = choose|i: int|
                    0 <= i < event_ids(before).len() && event_ids(before)[i] == event.0;
                assert(event_ids(events)[i] == event_ids(events)[events.len() - 1]);
            }
        }
        assert forall|i: int, j: int|
            0 <= i < before.len() && 0 <= j < before.len() && i != j implies event_ids(before)[i]
            != event_ids(before)[j] by {
            assert(event_ids(events)[i] != event_ids(events)[j]);
        }
        lemma_fresh_events(before, now);
        lemma_fresh_push(before, event, now);
        lemma_ids_push(fresh_events(before, now), event);
    }
}

/// Without its first event, a list of distinct events holds all the others.
proof fn lemma_drop_first(events: Seq<(Seq<char>, u128)>)
    requires
        events.len() > 0,
        event_ids(events).no_duplicates(),
    ensures
        event_ids(events.drop_first()).no_duplicates(),
        forall|id: Seq<char>| #[trigger]
            event_ids(events.drop_first()).contains(id) <==> event_ids(events).contains(id) && id
                != events[0].0,
{
    let ids = event_ids(events);
    let rest = event_ids(events.drop_first());
    assert(rest =~= ids.drop_first());
    assert forall|id: Seq<char>| #[trigger] rest.contains(id) <==> ids.contains(id) && id
        != events[0].0 by {
        if rest.contains(id) {
            let i = choose|i: int| 0 <= i < rest.len() && rest[i] == id;
            assert(ids[i + 1] == id && ids[0] != ids[i + 1]);
        }
        if ids.contains(id) && id != events[0].0 {
            let i = choose|i: int| 0 <= i < ids.len() && ids[i] == id;
            assert(rest[i - 1] == id);
        }
    }
}

/// Where a fresh event stands among the fresh ones: behind the fresh ones
/// before it, and before the fresh ones behind it.
proof fn lemma_fresh_position(events: Seq<(Seq<char>, u128)>, i: int, now: u128)
    requires
        0 <= i < events.len(),
        is_fresh(events[i].1, now),
    ensures
        fresh_events(events, now) == fresh_events(events.take(i), now).push(events[i])
            + fresh_events(events.skip(i + 1), now),
{
    let pred = |event: (Seq<char>, u128)| is_fresh(event.1, now);
    let upto = events.take(i).push(events[i]);
    assert(events =~= upto + events.skip(i + 1));
    Seq::filter_distributes_over_add(upto, events.skip(i + 1), pred);
    lemma_fresh_push(events.take(i), events[i], now);
}

/// If no event is lost, all are fresh.
proof fn lemma_all_fresh(events: Seq<(Seq<char>, u128)>, now: u128)
    requires
        fresh_events(events, now).len() >= events.len(),
    ensures
        fresh_events(events, now) == events,
        forall|j: int| 0 <= j < events.len() ==> is_fresh((#[trigger] events[j]).1, now),
    decreases events.len(),
{
    reveal(Seq::filter);
    if events.len() > 0 {
        let before = events.drop_last();
        assert(before.push(events.last()) =~= events);
        before.lemma_filter_len(|event: (Seq<char>, u128)| is_fresh(event.1, now));
        lemma_fresh_push(before, events.last(), now);
        lemma_all_fresh(before, now);
        assert forall|j: int| 0 <= j < events.len() implies is_fresh(
            (#[trigger] events[j]).1,
            now,
        ) by {
            if j < before.len() {
                assert(before[j] == events[j]);
            }
        }
    }
}

proof fn lemma_fresh_of_fresh(events: Seq<(Seq<char>, u128)>, i: int, now: u128)
    requires
        0 <= i <= events.len(),
        forall|j: int| 0 <= j < events.len() ==> is_fresh((#[trigger] events[j]).1, now),
    ensures
        fresh_events(events.take(i), now) == events.take(i),
    decreases i,
{
    reveal(Seq::filter);
    if i > 0 {
        lemma_fresh_of_fresh(events, i - 1, now);
        assert(events.take(i - 1).push(events[i - 1]) =~= events.take(i));
        lemma_fresh_push(events.take(i - 1), events[i - 1], now);
    }
}

impl SeenEvents {
    /// Whether the index holds the identifiers of the events.
    pub closed spec fn is_indexed(&self) -> bool {
        indexes(self.index@, self@)
    }

    /// Whether the events can be what is remembered, and their index is right.
    pub open spec fn wf(&self) -> bool {
        &&& is_seen_list(self@)
        &&& self.is_indexed()
    }

    /// No events.
    pub fn new() -> (seen: Self)
        ensures
            seen.wf(),
            seen@ == Seq::<(Seq<char>, u128)>::empty(),
    {
        let seen = SeenEvents { index: StringHashSet::new(), events: Vec::new() };
        assert(seen@ =~= Seq::empty());
        seen
    }

    /// Takes note of an event and tells whether it is a new one.
    pub fn observe(&mut self, id: String, now: u128) -> (is_new: bool)
        requires
            old(self).wf(),
        ensures
            final(self).wf(),
            is_new == !event_ids(old(self)@).contains(id@),
            final(self)@ == after_event(old(self)@, id@, now),
    {
        if self.index.contains(id.as_str()) {
            return false;
        }
        let ghost before = self@;
        let ghost more = before.push((id@, now));
        self.index.insert(id.clone());
        self.events.push(SeenEvent { id, at: now });
        proof {
            assert(self@ =~= more);
            lemma_ids_push(before, (id@, now));
        }
        if self.events.len() > MAX_SEEN {
            self.forget_expired(now);
            proof {
                lemma_fresh_events(more, now);
            }
            if self.events.len() > MAX_SEEN {
                self.forget_oldest();
            }
        }
        true
    }

    /// Forgets the events that have outlived their time.
    fn forget_expired(&mut self, now: u128)
        requires
            event_ids(old(self)@).no_duplicates(),
        ensures
            final(self)@ == fresh_events(old(self)@, now),
            indexes(final(self).index@, final(self)@),
    {
        let mut index: StringHashSet = StringHashSet::new();
        let mut events: Vec<SeenEvent> = Vec::new();
        let mut i: usize = 0;
        let ghost all = self@;
        proof {
            reveal(Seq::filter);
            assert(event_models(events@) =~= Seq::empty());
            assert(all.take(0) =~= Seq::empty());
        }
        while i < self.events.len()
            invariant
                i <= self.events.len(),
                all == event_models(self.events@),
                event_models(events@) == fresh_events(all.take(i as int), now),
                indexes(index@, event_models(events@)),
            decreases self.events.len() - i,
        {
            let at: u128 = self.events[i].at;
            proof {
                assert(all.take(i as int).push(all[i as int]) =~= all.take(i + 1));
                lemma_fresh_push(all.take(i as int), all[i as int], now);
            }
            if now < SEEN_TTL || at > now - SEEN_TTL {
                let id: String = self.events[i].id.clone();
                let ghost kept = event_models(events@);
                index.insert(id.clone());
                events.push(SeenEvent { id, at });
                proof {
                    assert(event_models(events@) =~= kept.push(all[i as int]));
                    lemma_ids_push(kept, all[i as int]);
                }
            }
            i = i + 1;
        }
        assert(all.take(i as int) =~= all);
        self.index = index;
        self.events = events;
    }

    /// Forgets the oldest event.
    fn forget_oldest(&mut self)
        requires
            old(self)@.len() > 0,
            event_ids(old(self)@).no_duplicates(),
            indexes(old(self).index@, old(self)@),
        ensures
            final(self)@ == old(self)@.drop_first(),
            event_ids(final(self)@).no_duplicates(),
            indexes(final(self).index@, final(self)@),
    {
        let ghost before = self@;
        let oldest = self.events.remove(0);
        self.index.remove(oldest.id.as_str());
        proof {
            assert(self@ =~= before.drop_first());
            lemma_drop_first(before);
        }
    }
}

/// What is remembered stays within its bound and without duplicates, whatever
/// event comes in.
pub proof fn law_seen_events_are_bounded(
    seen: Seq<(Seq<char>, u128)>,
    id: Seq<char>,
    now: u128,
)
    requires
        is_seen_list(seen),
    ensures
        is_seen_list(after_event(seen, id, now)),
        after_event(seen, id, now).len() <= 5000,
{
    let more = seen.push((id, now));
    if !event_ids(seen).contains(id) {
        lemma_ids_push(seen, (id, now));
        lemma_fresh_events(more, now);
        let kept = fresh_events(more, now);
        if kept.len() > MAX_SEEN {
            lemma_drop_first(kept);
        }
    }
}

/// A new event is the last that is remembered; and an event that came in is not
/// new the next time, when it changes nothing.
pub proof fn law_event_is_remembered(
    seen: Seq<(Seq<char>, u128)>,
    id: Seq<char>,
    now: u128,
    later: u128,
)
    ensures
        event_ids(after_event(seen, id, now)).contains(id),
        !event_ids(seen).contains(id) ==> after_event(seen, id, now).last() == (id, now),
        after_event(after_event(seen, id, now), id, later) == after_event(seen, id, now),
{
    let after = after_event(seen, id, now);
    if !event_ids(seen).contains(id) {
        lemma_fresh_push(seen, (id, now), now);
        assert(after.len() > 0 && after.last() == (id, now));
        assert(event_ids(after)[after.len() - 1] == id);
    }
}

/// An event is forgotten only when the bound is reached, and only if it came in
/// two hours ago or more or is the oldest of events of which none did.
pub proof fn law_only_expired_or_oldest_is_forgotten(
    seen: Seq<(Seq<char>, u128)>,
    id: Seq<char>,
    now: u128,
    i: int,
)
    requires
        is_seen_list(seen),
        0 <= i < seen.len(),
        !after_event(seen, id, now).contains(seen[i]),
    ensures
        seen.len() == 5000,
        now as int - seen[i].1 as int >= 7_200_000_000_000 || i == 0 && forall|j: int|
            0 <= j < seen.len() ==> (now as int - (#[trigger] seen[j]).1 as int) < 7_200_000_000_000,
{
    let more = seen.push((id, now));
    let kept = fresh_events(more, now);
    assert(seen.contains(seen[i]));
    assert(more[i] == seen[i]);
    assert(more.contains(seen[i]));
    if is_fresh(seen[i].1, now) {
        lemma_fresh_position(more, i, now);
        let p = fresh_events(more.take(i), now).len() as int;
        assert(kept[p] == seen[i]);
        assert(kept.len() > MAX_SEEN) by {
            if kept.len() <= MAX_SEEN {
                assert(kept.contains(seen[i]));
            }
        }
        if p > 0 {
            assert(kept.drop_first()[p - 1] == seen[i]);
        }
        lemma_all_fresh(more, now);
        assert forall|j: int| 0 <= j < seen.len() implies is_fresh((#[trigger] seen[j]).1, now) by {
            assert(more[j] == seen[j]);
        }
        lemma_fresh_of_fresh(more, i, now);
    }
}

/// What is remembered after a series of events, each with its time.
pub open spec fn after_events(
    seen: Seq<(Seq<char>, u128)>,
    events: Seq<(Seq<char>, u128)>,
) -> Seq<(Seq<char>, u128)>
    decreases events.len(),
{
    if events.len() == 0 {
        seen
    } else {
        after_event(
            after_events(seen, events.drop_last()),
            events.last().0,
            events.last().1,
        )
    }
}

/// However many events come in, the bound is kept.
pub proof fn law_seen_events_stay_bounded(
    seen: Seq<(Seq<char>, u128)>,
    events: Seq<(Seq<char>, u128)>,
)
    requires
        is_seen_list(seen),
    ensures
        is_seen_list(after_events(seen, events)),
        after_events(seen, events).len() <= 5000,
    decreases events.len(),
{
    if events.len() > 0 {
        law_seen_events_stay_bounded(seen, events.drop_last());
        law_seen_events_are_bounded(
            after_events(seen, events.drop_last()),
            events.last().0,
            events.last().1,
        );
    }
}

/// The identifiers of the events from an index on, and of the events of a
/// series.
pub open spec fn ids_from(
    seen: Seq<(Seq<char>, u128)>,
    i: int,
    events: Seq<(Seq<char>, u128)>,
) -> Set<Seq<char>> {
    event_ids(seen.skip(i)).to_set().union(event_ids(events).to_set())
}

/// Whether the events from an index on have identifiers of a set.
spec fn only_newer(events: Seq<(Seq<char>, u128)>, p: int, ids: Set<Seq<char>>) -> bool {
    forall|j: int| p <= j < events.len() ==> ids.contains((#[trigger] events[j]).0)
}

/// A fresh event is still there when those that have outlived their time are
/// forgotten, and behind it stand no others than before and the new one.
proof fn lemma_kept_when_few(
    before: Seq<(Seq<char>, u128)>,
    p: int,
    event: (Seq<char>, u128),
    ids: Set<Seq<char>>,
)
    requires
        0 <= p < before.len(),
        is_fresh(before[p].1, event.1),
        only_newer(before, p, ids),
        ids.contains(event.0),
    ensures
        exists|q: int|
            0 <= q < fresh_events(before.push(event), event.1).len() && #[trigger] fresh_events(
                before.push(event),
                event.1,
            )[q] == before[p] && only_newer(fresh_events(before.push(event), event.1), q, ids),
{
    let more = before.push(event);
    let kept = fresh_events(more, event.1);
    lemma_fresh_position(more, p, event.1);
    let q = fresh_events(more.take(p), event.1).len() as int;
    let behind = fresh_events(more.skip(p + 1), event.1);
    assert(kept[q] == before[p]);
    assert forall|j: int| q <= j < kept.len() implies ids.contains((#[trigger] kept[j]).0) by {
        if j > q {
            let found = behind[j - q - 1];
            assert(kept[j] == found);
            assert(behind.contains(found));
            let rest = more.skip(p + 1);
            rest.lemma_filter_contains_rev(
                |e: (Seq<char>, u128)| is_fresh(e.1, event.1),
                found,
            );
            let k = choose|k: int| 0 <= k < rest.len() && rest[k] == found;
            assert(more[k + p + 1] == found);
            if k + p + 1 < before.len() {
                assert(before[k + p + 1] == found);
            }
        }
    }
}

proof fn lemma_still_remembered(
    seen: Seq<(Seq<char>, u128)>,
    i: int,
    events: Seq<(Seq<char>, u128)>,
    n: int,
)
    requires
        is_seen_list(seen),
        0 <= i < seen.len(),
        0 <= n <= events.len(),
        forall|j: int| 0 <= j < events.len() ==> is_fresh(seen[i].1, (#[trigger] events[j]).1),
        ids_from(seen, i, events).len() <= MAX_SEEN,
    ensures
        exists|p: int|
            0 <= p < after_events(seen, events.take(n)).len() && #[trigger] after_events(
                seen,
                events.take(n),
            )[p] == seen[i] && only_newer(
                after_events(seen, events.take(n)),
                p,
                ids_from(seen, i, events),
            ),
    decreases n,
{
    let ids = ids_from(seen, i, events);
    if n == 0 {
        assert forall|j: int| i <= j < seen.len() implies ids.contains((#[trigger] seen[j]).0) by {
            assert(event_ids(seen.skip(i))[j - i] == seen[j].0);
        }
        assert(after_events(seen, events.take(n)) == seen);
        assert(after_events(seen, events.take(n))[i] == seen[i]);
    } else {
        lemma_still_remembered(seen, i, events, n - 1);
        let before = after_events(seen, events.take(n - 1));
        let p = choose|p: int|
            0 <= p < before.len() && #[trigger] before[p] == seen[i] && only_newer(before, p, ids);
        let event = events[n - 1];
        assert(events.take(n).drop_last() =~= events.take(n - 1));
        assert(events.take(n).last() == event);
        law_seen_events_stay_bounded(seen, events.take(n - 1));
        assert(ids.contains(event.0)) by {
            assert(event_ids(events)[n - 1] == event.0);
        }
        let after = after_event(before, event.0, event.1);
        let more = before.push(event);
        assert(after_events(seen, events.take(n)) == after);
        if event_ids(before).contains(event.0) {
            assert(after_events(seen, events.take(n))[p] == seen[i]);
        } else if more.len() <= MAX_SEEN {
            assert(only_newer(after, p, ids));
            assert(after_events(seen, events.take(n))[p] == seen[i]);
        } else {
            lemma_kept_when_few(before, p, event, ids);
            let kept = fresh_events(more, event.1);
            let q = choose|q: int|
                0 <= q < kept.len() && #[trigger] kept[q] == before[p] && only_newer(kept, q, ids);
            if kept.len() > MAX_SEEN {
                lemma_ids_push(before, event);
                lemma_fresh_events(more, event.1);
                if q == 0 {
                    let all = event_ids(kept);
                    all.unique_seq_to_set();
                    assert(all.to_set().subset_of(ids)) by {
                        assert forall|id: Seq<char>| all.to_set().contains(id) implies ids.contains(
                            id,
                        ) by {
                            let j = choose|j: int| 0 <= j < all.len() && all[j] == id;
                            assert(kept[j].0 == id);
                        }
                    }
                    vstd::seq_lib::seq_to_set_is_finite(event_ids(seen.skip(i)));
                    vstd::seq_lib::seq_to_set_is_finite(event_ids(events));
                    vstd::set_lib::lemma_len_subset(all.to_set(), ids);
                }
                assert(only_newer(after, q - 1, ids));
                assert(after_events(seen, events.take(n))[q - 1] == seen[i]);
            } else {
                assert(after_events(seen, events.take(n))[q] == seen[i]);
            }
        }
    }
}

/// An event is a duplicate for two hours after it was first seen, whatever
/// other events come in meanwhile, as long as the event itself, those that came
/// in after it and those that come in are no more than the bound.
pub proof fn law_duplicates_are_recognised(
    seen: Seq<(Seq<char>, u128)>,
    i: int,
    events: Seq<(Seq<char>, u128)>,
)
    requires
        is_seen_list(seen),
        0 <= i < seen.len(),
        forall|j: int|
            0 <= j < events.len() ==> ((#[trigger] events[j]).1 as int - seen[i].1 as int)
                < 7_200_000_000_000,
        ids_from(seen, i, events).len() <= 5000,
    ensures
        after_events(seen, events).contains(seen[i]),
        event_ids(after_events(seen, events)).contains(seen[i].0),
{
    lemma_still_remembered(seen, i, events, events.len() as int);
    let after = after_events(seen, events);
    assert(events.take(events.len() as int) =~= events);
    let p = choose|p: int|
        0 <= p < after.len() && after[p] == seen[i] && only_newer(
            after,
            p,
            ids_from(seen, i, events),
        );
    assert(event_ids(after)[p] == seen[i].0);
}

}

//! The event bus: events are queued when emitted and delivered at the next
//! flush, when they go to the listeners registered for their type and into a
//! bounded log of the most recent events.

use vstd::prelude::*;

use crate::text::str_eq;

verus! {

/// A game event: its type name and what it carries.
#[derive(Debug, Clone)]
pub struct GameEvent<P> {
    pub event_type: String,
    pub payload: P,
}

/// Fields an event type must carry, per the event schema.
#[derive(Debug, Clone)]
pub struct EventFieldSchema {
    pub fields: Vec<String>,
    pub description: String,
}

/// The event schema: required fields per event type.
#[derive(Debug, Clone)]
pub struct EventSchema {
    pub events: Vec<(String, EventFieldSchema)>,
}

/// Index of the first schema entry for `event_type`, searching from `i`.
pub open spec fn schema_index_from(events: Seq<(String, EventFieldSchema)>, event_type: Seq<char>, i: int) -> Option<int>
    decreases events.len() - i,
{
    if i < 0 || i >= events.len() {
        None
    } else if events[i].0@ == event_type {
        Some(i)
    } else {
        schema_index_from(events, event_type, i + 1)
    }
}

/// `name` is one of `names`.
pub open spec fn names_contain(names: Seq<String>, name: Seq<char>) -> bool {
    exists|i: int| 0 <= i < names.len() && (#[trigger] names[i])@ == name
}

/// The required fields of `event_type` that `present` lacks, in schema order.
pub open spec fn spec_missing_fields(schema: EventSchema, event_type: Seq<char>, present: Seq<String>) -> Seq<Seq<char>> {
    match schema_index_from(schema.events@, event_type, 0) {
        Some(i) => schema.events@[i].1.fields@.map_values(|f: String| f@).filter(
            |f: Seq<char>| !names_contain(present, f),
        ),
        None => Seq::empty(),
    }
}

fn contains_name(names: &Vec<String>, name: &String) -> (r: bool)
    ensures
        r == names_contain(names@, name@),
{
    let mut i: usize = 0;
    while i < names.len()
        invariant
            i <= names@.len(),
            forall|k: int| 0 <= k < i ==> (#[trigger] names@[k])@ != name@,
        decreases names@.len() - i,
    {
        if str_eq(names[i].as_str(), name.as_str()) {
            proof {
                assert(names@[i as int]@ == name@);
            }
            return true;
        }
        i = i + 1;
    }
    false
}

impl EventSchema {
    /// The fields that the schema requires of `event_type` and that an event
    /// carrying the fields `present` lacks. Event types the schema does not
    /// list require nothing.
    pub fn missing_fields(&self, event_type: &str, present: &Vec<String>) -> (r: Vec<String>)
        ensures
            r@.map_values(|f: String| f@) == spec_missing_fields(*self, event_type@, present@),
    {
        let found = self.find_event(event_type);
        let mut missing: Vec<String> = Vec::new();
        let i = match found {
            Some(i) => i,
            None => {
                proof {
                    assert(missing@.map_values(|f: String| f@) =~= Seq::<Seq<char>>::empty());
                }
                return missing;
            },
        };
        let fields = &self.events[i].1.fields;
        let ghost fv = fields@.map_values(|f: String| f@);
        let ghost keep = |f: Seq<char>| !names_contain(present@, f);
        let mut k: usize = 0;
        while k < fields.len()
            invariant
                k <= fields@.len(),
                fv == fields@.map_values(|f: String| f@),
                keep == (|f: Seq<char>| !names_contain(present@, f)),
                missing@.map_values(|f: String| f@) == fv.take(k as int).filter(keep),
            decreases fields@.len() - k,
        {
            proof {
                assert(fv.take(k + 1) =~= fv.take(k as int).push(fv[k as int]));
                fv.take(k as int).lemma_filter_push(fv[k as int], keep);
                assert(fv[k as int] == fields@[k as int]@);
            }
            if !contains_name(present, &fields[k]) {
                missing.push(fields[k].clone());
                proof {
                    assert(missing@.map_values(|f: String| f@) =~= fv.take(k as int).filter(keep).push(
                        fv[k as int],
                    ));
                }
            } else {
            }
            k = k + 1;
        }
        proof {
            assert(fv.take(fields@.len() as int) =~= fv);
            assert(spec_missing_fields(*self, event_type@, present@) == fv.filter(keep));
        }
        missing
    }

    /// Position of the first schema entry for `event_type`.
    fn find_event(&self, event_type: &str) -> (r: Option<usize>)
        ensures
            match r {
                Some(i) => i < self.events@.len() && schema_index_from(self.events@, event_type@, 0)
                    == Some(i as int),
                None => schema_index_from(self.events@, event_type@, 0) is None,
            },
    {
        let mut i: usize = 0;
        while i < self.events.len()
            invariant
                i <= self.events@.len(),
                schema_index_from(self.events@, event_type@, 0) == schema_index_from(
                    self.events@,
                    event_type@,
                    i as int,
                ),
            decreases self.events@.len() - i,
        {
            if str_eq(self.events[i].0.as_str(), event_type) {
                return Some(i);
            }
            i = i + 1;
        }
        None
    }
}

// ---------------------------------------------------------------------------
// Bounded log
// ---------------------------------------------------------------------------

/// How many events the log keeps: its capacity, but at least one.
pub open spec fn log_bound(capacity: nat) -> nat {
    if capacity == 0 {
        1
    } else {
        capacity
    }
}

/// The log after one event is added: the oldest entry makes room first when
/// the log is at capacity.
pub open spec fn log_push<E>(log: Seq<E>, e: E, capacity: nat) -> Seq<E> {
    let l = if log.len() >= capacity && log.len() > 0 {
        log.drop_first()
    } else {
        log
    };
    l.push(e)
}

/// The log after the events are added one by one.
pub open spec fn log_push_all<E>(log: Seq<E>, events: Seq<E>, capacity: nat) -> Seq<E>
    decreases events.len(),
{
    if events.len() == 0 {
        log
    } else {
        log_push(log_push_all(log, events.drop_last(), capacity), events.last(), capacity)
    }
}

/// The most recent events of `s`, at most `bound` of them.
pub open spec fn latest<E>(s: Seq<E>, bound: nat) -> Seq<E> {
    if s.len() <= bound {
        s
    } else {
        s.skip(s.len() - bound)
    }
}

/// Adding events to a log within its bound leaves exactly the most recent
/// events of the old log followed by the new ones, as many as the bound
/// allows.
pub proof fn lemma_log_keeps_latest<E>(log: Seq<E>, events: Seq<E>, capacity: nat)
    requires
        log.len() <= log_bound(capacity),
    ensures
        log_push_all(log, events, capacity) == latest(log + events, log_bound(capacity)),
    decreases events.len(),
{
    let b = log_bound(capacity);
    if events.len() == 0 {
        assert(log + events =~= log);
    } else {
        let prev = events.drop_last();
        let e = events.last();
        lemma_log_keeps_latest(log, prev, capacity);
        let l = latest(log + prev, b);
        assert(l.len() <= b);
        let all = log + events;
        assert(all =~= (log + prev).push(e));
        let pushed = log_push(l, e, capacity);
        if (log + prev).len() + 1 <= b {
            assert(pushed =~= all);
        } else {
            assert(pushed =~= all.skip(all.len() - b));
        }
    }
}

/// Every log bounded this way stays within its bound.
pub proof fn lemma_latest_within_bound<E>(s: Seq<E>, bound: nat)
    ensures
        latest(s, bound).len() <= bound,
        latest(s, bound).len() == if s.len() <= bound {
            s.len()
        } else {
            bound
        },
{
}

/// The event types of a run of events, in order.
pub open spec fn event_types<P>(events: Seq<GameEvent<P>>) -> Seq<Seq<char>> {
    events.map_values(|e: GameEvent<P>| e.event_type@)
}

/// Registration `i` listens to the type of event `e`.
pub open spec fn listens_to(listeners: Seq<(u64, Seq<char>)>, types: Seq<Seq<char>>, e: int, i: int) -> bool {
    0 <= e < types.len() && 0 <= i < listeners.len() && listeners[i].1 == types[e]
}

/// Call `a` comes before call `b`: an earlier event, or the same event and an
/// earlier registration.
pub open spec fn call_before(a: (usize, usize), b: (usize, usize)) -> bool {
    a.0 < b.0 || (a.0 == b.0 && a.1 < b.1)
}

/// `plan` lists the calls `(event index, registration index)` to make when
/// the events of `types` are delivered: each registration for an event's type
/// gets that event exactly once, events in order and, for one event, the
/// registrations in the order they were made; no other call is made.
pub open spec fn is_dispatch_plan(
    listeners: Seq<(u64, Seq<char>)>,
    types: Seq<Seq<char>>,
    plan: Seq<(usize, usize)>,
) -> bool {
    &&& forall|k: int|
        0 <= k < plan.len() ==> listens_to(listeners, types, (#[trigger] plan[k]).0 as int, plan[k].1 as int)
    &&& forall|e: usize, i: usize|
        #[trigger] listens_to(listeners, types, e as int, i as int) ==> exists|k: int|
            0 <= k < plan.len() && #[trigger] plan[k] == (e, i)
    &&& forall|k1: int, k2: int| 0 <= k1 < k2 < plan.len() ==> call_before(#[trigger] plan[k1], #[trigger] plan[k2])
}

/// Every call of the plan was made: callback `plan[k].1` returned from a
/// call with event `plan[k].0`.
pub open spec fn calls_made<P, F: Fn(&GameEvent<P>)>(
    callbacks: Seq<F>,
    events: Seq<GameEvent<P>>,
    plan: Seq<(usize, usize)>,
) -> bool {
    forall|k: int|
        0 <= k < plan.len() ==> call_ensures(
            callbacks[(#[trigger] plan[k]).1 as int],
            (&events[plan[k].0 as int],),
            (),
        )
}

/// The listeners were notified of the events: the calls of a dispatch plan
/// for the registrations were all made.
pub open spec fn listeners_notified<P, F: Fn(&GameEvent<P>)>(
    listeners: Seq<(u64, Seq<char>)>,
    callbacks: Seq<F>,
    events: Seq<GameEvent<P>>,
) -> bool {
    exists|plan: Seq<(usize, usize)>|
        #[trigger] is_dispatch_plan(listeners, event_types(events), plan) && calls_made(callbacks, events, plan)
}

/// In a dispatch plan each registration for an event's type gets the event
/// exactly once, and the calls for one event follow the registration order.
pub proof fn lemma_dispatch_once_in_order(
    listeners: Seq<(u64, Seq<char>)>,
    types: Seq<Seq<char>>,
    plan: Seq<(usize, usize)>,
    e: usize,
    i: usize,
)
    requires
        is_dispatch_plan(listeners, types, plan),
        listens_to(listeners, types, e as int, i as int),
    ensures
        exists|k: int| 0 <= k < plan.len() && plan[k] == (e, i),
        forall|k1: int, k2: int|
            0 <= k1 < plan.len() && 0 <= k2 < plan.len() && plan[k1] == (e, i) && plan[k2] == (e, i) ==> k1 == k2,
        forall|j: usize|
            i < j && #[trigger] listens_to(listeners, types, e as int, j as int) ==> exists|k1: int, k2: int|
                0 <= k1 < k2 < plan.len() && plan[k1] == (e, i) && plan[k2] == (e, j),
{
    assert forall|k1: int, k2: int|
        0 <= k1 < plan.len() && 0 <= k2 < plan.len() && plan[k1] == (e, i) && plan[k2] == (e, i) implies k1 == k2 by {
        if k1 < k2 {
            assert(call_before(plan[k1], plan[k2]));
        } else if k2 < k1 {
            assert(call_before(plan[k2], plan[k1]));
        }
    }
    assert forall|j: usize| i < j && #[trigger] listens_to(listeners, types, e as int, j as int) implies exists|
        k1: int,
        k2: int,
    | 0 <= k1 < k2 < plan.len() && plan[k1] == (e, i) && plan[k2] == (e, j) by {
        let k1 = choose|k: int| 0 <= k < plan.len() && plan[k] == (e, i);
        let k2 = choose|k: int| 0 <= k < plan.len() && plan[k] == (e, j);
        if k2 < k1 {
            assert(call_before(plan[k2], plan[k1]));
        }
        assert(k1 != k2);
    }
}

// ---------------------------------------------------------------------------
// Event bus
// ---------------------------------------------------------------------------

/// Central event bus with a bounded log. Listeners are callbacks of type `F`.
pub struct EventBus<P, F: Fn(&GameEvent<P>)> {
    /// Registered listeners, as `(id, event type, callback)` in order of
    /// registration.
    listeners: Vec<(u64, String, F)>,
    next_listener_id: u64,
    log: std::collections::VecDeque<GameEvent<P>>,
    log_capacity: usize,
    pending: Vec<GameEvent<P>>,
}

/// The registrations for one event type, in order, as listener ids.
pub open spec fn ids_for(listeners: Seq<(u64, Seq<char>)>, event_type: Seq<char>) -> Seq<u64> {
    listeners.filter(has_type(event_type)).map_values(id_of())
}

/// The registration is for `event_type`.
pub open spec fn has_type(event_type: Seq<char>) -> spec_fn((u64, Seq<char>)) -> bool {
    |l: (u64, Seq<char>)| l.1 == event_type
}

/// The id of a registration.
pub open spec fn id_of() -> spec_fn((u64, Seq<char>)) -> u64 {
    |l: (u64, Seq<char>)| l.0
}

/// The registration is not the one with id `id`.
pub open spec fn not_listener(id: u64) -> spec_fn((u64, Seq<char>)) -> bool {
    |l: (u64, Seq<char>)| l.0 != id
}

/// The registration with its callback is not the one with id `id`.
pub open spec fn not_registration<F>(id: u64) -> spec_fn((u64, Seq<char>, F)) -> bool {
    |l: (u64, Seq<char>, F)| l.0 != id
}

/// The id is not `id`.
pub open spec fn other_id(id: u64) -> spec_fn(u64) -> bool {
    |x: u64| x != id
}

/// The callback accepts every event.
pub open spec fn accepts_all<P, F: Fn(&GameEvent<P>)>(f: F) -> bool {
    forall|e: &GameEvent<P>| #[trigger] call_requires(f, (e,))
}

impl<P, F: Fn(&GameEvent<P>)> EventBus<P, F> {
    #[verifier::type_invariant]
    closed spec fn inv(&self) -> bool {
        &&& self.log@.len() <= log_bound(self.log_capacity as nat)
        &&& forall|i: int|
            0 <= i < self.listeners@.len() ==> (#[trigger] self.listeners@[i]).0
                < self.next_listener_id
        &&& forall|i: int| 0 <= i < self.listeners@.len() ==> accepts_all(#[trigger] self.listeners@[i].2)
    }

    /// The listener registrations, as `(id, event type)` in order.
    pub closed spec fn listeners(&self) -> Seq<(u64, Seq<char>)> {
        self.listeners@.map_values(|l: (u64, String, F)| (l.0, l.1@))
    }

    /// The registrations with their callbacks, in order.
    pub closed spec fn registrations(&self) -> Seq<(u64, Seq<char>, F)> {
        self.listeners@.map_values(|l: (u64, String, F)| (l.0, l.1@, l.2))
    }

    /// The callbacks of the registrations, in the same order.
    pub closed spec fn callbacks(&self) -> Seq<F> {
        self.listeners@.map_values(|l: (u64, String, F)| l.2)
    }

    /// The id the next registration gets.
    pub closed spec fn next_id(&self) -> u64 {
        self.next_listener_id
    }

    /// The logged events, oldest first.
    pub closed spec fn log(&self) -> Seq<GameEvent<P>> {
        self.log@
    }

    /// How many events the log is meant to keep.
    pub closed spec fn capacity(&self) -> nat {
        self.log_capacity as nat
    }

    /// The events emitted since the last flush, in order.
    pub closed spec fn pending(&self) -> Seq<GameEvent<P>> {
        self.pending@
    }

    /// An empty bus whose log keeps `log_capacity` events.
    pub fn new(log_capacity: usize) -> (b: Self)
        ensures
            b.listeners() == Seq::<(u64, Seq<char>)>::empty(),
            b.callbacks() == Seq::<F>::empty(),
            b.next_id() == 0,
            b.log() == Seq::<GameEvent<P>>::empty(),
            b.pending() == Seq::<GameEvent<P>>::empty(),
            b.capacity() == log_capacity,
    {
        let b = EventBus {
            listeners: Vec::new(),
            next_listener_id: 0,
            log: std::collections::VecDeque::new(),
            log_capacity,
            pending: Vec::new(),
        };
        proof {
            assert(b.listeners() =~= Seq::<(u64, Seq<char>)>::empty());
            assert(b.callbacks() =~= Seq::<F>::empty());
        }
        b
    }

    /// Queues an event; listeners hear of it at the next flush.
    pub fn emit(&mut self, event_type: &str, payload: P)
        ensures
            final(self).pending().len() == old(self).pending().len() + 1,
            final(self).pending().drop_last() == old(self).pending(),
            final(self).pending().last().event_type@ == event_type@,
            final(self).pending().last().payload == payload,
            final(self).log() == old(self).log(),
            final(self).listeners() == old(self).listeners(),
            final(self).callbacks() == old(self).callbacks(),
            final(self).next_id() == old(self).next_id(),
            final(self).capacity() == old(self).capacity(),
    {
        proof {
            use_type_invariant(&*self);
        }
        let mut pending = Vec::new();
        std::mem::swap(&mut pending, &mut self.pending);
        pending.push(GameEvent { event_type: event_type.to_owned(), payload });
        self.pending = pending;
        proof {
            assert(self.pending@.drop_last() =~= old(self).pending@);
        }
    }

    /// Queues an event whose payload is the empty value of its type.
    pub fn emit_simple(&mut self, event_type: &str)
        where P: Default
        ensures
            final(self).pending().len() == old(self).pending().len() + 1,
            final(self).pending().drop_last() == old(self).pending(),
            final(self).pending().last().event_type@ == event_type@,
            final(self).log() == old(self).log(),
            final(self).listeners() == old(self).listeners(),
            final(self).callbacks() == old(self).callbacks(),
            final(self).next_id() == old(self).next_id(),
            final(self).capacity() == old(self).capacity(),
    {
        self.emit(event_type, P::default());
    }

    /// The id the next registration gets.
    pub fn next_listener_id(&self) -> (r: u64)
        ensures
            r == self.next_id(),
    {
        self.next_listener_id
    }

    /// Registers a callback for an event type and returns its id, which no
    /// earlier registration had.
    pub fn listen(&mut self, event_type: &str, callback: F) -> (id: u64)
        requires
            old(self).next_id() < u64::MAX,
            accepts_all(callback),
        ensures
            id == old(self).next_id(),
            final(self).next_id() == id + 1,
            final(self).listeners() == old(self).listeners().push((id, event_type@)),
            final(self).callbacks() == old(self).callbacks().push(callback),
            forall|i: int|
                0 <= i < old(self).listeners().len() ==> (#[trigger] old(self).listeners()[i]).0 != id,
            final(self).log() == old(self).log(),
            final(self).pending() == old(self).pending(),
            final(self).capacity() == old(self).capacity(),
    {
        proof {
            use_type_invariant(&*self);
        }
        let id = self.next_listener_id;
        self.next_listener_id = id + 1;
        let mut listeners = Vec::new();
        std::mem::swap(&mut listeners, &mut self.listeners);
        listeners.push((id, event_type.to_owned(), callback));
        proof {
            assert forall|i: int| 0 <= i < listeners@.len() implies (#[trigger] listeners@[i]).0
                < self.next_listener_id by {
                if i < old(self).listeners@.len() {
                    assert(listeners@[i] == old(self).listeners@[i]);
                }
            }
            assert forall|i: int| 0 <= i < listeners@.len() implies accepts_all(#[trigger] listeners@[i].2) by {
                if i < old(self).listeners@.len() {
                    assert(listeners@[i] == old(self).listeners@[i]);
                }
            }
        }
        self.listeners = listeners;
        proof {
            assert(self.listeners() =~= old(self).listeners().push((id, event_type@)));
            assert(self.callbacks() =~= old(self).callbacks().push(callback));
            assert forall|i: int| 0 <= i < old(self).listeners().len() implies (#[trigger] old(
                self,
            ).listeners()[i]).0 != id by {
                assert(old(self).listeners@[i].0 < id);
            }
        }
        id
    }

    /// Removes the listener with the given id; the others keep their order
    /// and their callbacks.
    pub fn remove_listener(&mut self, listener_id: u64)
        ensures
            final(self).registrations() == old(self).registrations().filter(not_registration(listener_id)),
            final(self).listeners() == old(self).listeners().filter(not_listener(listener_id)),
            final(self).next_id() == old(self).next_id(),
            final(self).log() == old(self).log(),
            final(self).pending() == old(self).pending(),
            final(self).capacity() == old(self).capacity(),
    {
        proof {
            use_type_invariant(&*self);
        }
        let ghost keep = not_listener(listener_id);
        let ghost keep_r = not_registration::<F>(listener_id);
        let ghost all = self.listeners@;
        let ghost all_r = old(self).registrations();
        let ghost all_l = old(self).listeners();
        let mut rest: Vec<(u64, String, F)> = Vec::new();
        std::mem::swap(&mut rest, &mut self.listeners);
        let mut kept: Vec<(u64, String, F)> = Vec::new();
        while rest.len() > 0
            invariant
                rest@.len() <= all.len(),
                rest@ == all.skip(all.len() - rest@.len()),
                keep == not_listener(listener_id),
                keep_r == not_registration::<F>(listener_id),
                all_r == all.map_values(|l: (u64, String, F)| (l.0, l.1@, l.2)),
                all_l == all.map_values(|l: (u64, String, F)| (l.0, l.1@)),
                kept@.map_values(|l: (u64, String, F)| (l.0, l.1@)) == all_l.take(all.len() - rest@.len()).filter(keep),
                kept@.map_values(|l: (u64, String, F)| (l.0, l.1@, l.2)) == all_r.take(all.len() - rest@.len()).filter(keep_r),
                forall|k: int| 0 <= k < kept@.len() ==> (#[trigger] kept@[k]).0 < self.next_listener_id,
                forall|k: int| 0 <= k < kept@.len() ==> accepts_all(#[trigger] kept@[k].2),
                forall|k: int| 0 <= k < all.len() ==> (#[trigger] all[k]).0 < self.next_listener_id,
                forall|k: int| 0 <= k < all.len() ==> accepts_all(#[trigger] all[k].2),
                self.listeners@.len() == 0,
            decreases rest@.len(),
        {
            let ghost i = all.len() - rest@.len();
            let e = rest.remove(0);
            proof {
                assert(e == all[i]);
                assert(rest@ =~= all.skip(all.len() - rest@.len()));
                assert(all_l.take(i + 1) =~= all_l.take(i).push(all_l[i]));
                all_l.take(i).lemma_filter_push(all_l[i], keep);
                assert(all_r.take(i + 1) =~= all_r.take(i).push(all_r[i]));
                all_r.take(i).lemma_filter_push(all_r[i], keep_r);
            }
            if e.0 != listener_id {
                kept.push(e);
                proof {
                    assert(kept@.map_values(|l: (u64, String, F)| (l.0, l.1@)) =~= all_l.take(i).filter(
                        keep,
                    ).push(all_l[i]));
                    assert(kept@.map_values(|l: (u64, String, F)| (l.0, l.1@, l.2)) =~= all_r.take(
                        i,
                    ).filter(keep_r).push(all_r[i]));
                }
            } else {
                proof {
                    assert(kept@.map_values(|l: (u64, String, F)| (l.0, l.1@)) =~= all_l.take(i + 1).filter(
                        keep,
                    ));
                }
            }
        }
        proof {
            assert(all_l.take(all.len() as int) =~= all_l);
            assert(all_r.take(all.len() as int) =~= all_r);
        }
        self.listeners = kept;
    }

    /// Ids of the listeners registered for an event type, in the order they
    /// are to be called.
    pub fn listeners_for(&self, event_type: &str) -> (r: Vec<u64>)
        ensures
            r@ == ids_for(self.listeners(), event_type@),
    {
        let ghost keep = has_type(event_type@);
        let ghost get_id = id_of();
        let mut ids: Vec<u64> = Vec::new();
        let mut i: usize = 0;
        while i < self.listeners.len()
            invariant
                i <= self.listeners@.len(),
                keep == has_type(event_type@),
                get_id == id_of(),
                ids@ == self.listeners().take(i as int).filter(keep).map_values(get_id),
            decreases self.listeners@.len() - i,
        {
            proof {
                assert(self.listeners().take(i + 1) =~= self.listeners().take(i as int).push(
                    self.listeners()[i as int],
                ));
                self.listeners().take(i as int).lemma_filter_push(self.listeners()[i as int], keep);
            }
            if str_eq(self.listeners[i].1.as_str(), event_type) {
                ids.push(self.listeners[i].0);
                proof {
                    assert(ids@ =~= self.listeners().take(i as int).filter(keep).push(
                        self.listeners()[i as int],
                    ).map_values(get_id));
                }
            }
            i = i + 1;
        }
        proof {
            assert(self.listeners().take(self.listeners@.len() as int) =~= self.listeners());
        }
        ids
    }

    /// The calls that delivering `events` makes: for each event in order, the
    /// registrations for its type in the order they were made.
    pub fn dispatch_plan(&self, events: &Vec<GameEvent<P>>) -> (plan: Vec<(usize, usize)>)
        ensures
            is_dispatch_plan(self.listeners(), event_types(events@), plan@),
    {
        let ghost l = self.listeners();
        let ghost t = event_types(events@);
        let mut plan: Vec<(usize, usize)> = Vec::new();
        let n = self.listeners.len();
        let mut e: usize = 0;
        while e < events.len()
            invariant
                l == self.listeners(),
                t == event_types(events@),
                n == l.len(),
                e <= events@.len(),
                forall|k: int| 0 <= k < plan@.len() ==> listens_to(l, t, (#[trigger] plan@[k]).0 as int, plan@[k].1 as int),
                forall|k: int| 0 <= k < plan@.len() ==> (#[trigger] plan@[k]).0 < e,
                forall|x: usize, y: usize|
                    x < e && #[trigger] listens_to(l, t, x as int, y as int) ==> exists|k: int|
                        0 <= k < plan@.len() && #[trigger] plan@[k] == (x, y),
                forall|k1: int, k2: int|
                    0 <= k1 < k2 < plan@.len() ==> call_before(#[trigger] plan@[k1], #[trigger] plan@[k2]),
            decreases events@.len() - e,
        {
            let mut i: usize = 0;
            while i < n
                invariant
                    l == self.listeners(),
                    t == event_types(events@),
                    n == l.len(),
                    e < events@.len(),
                    i <= n,
                    forall|k: int| 0 <= k < plan@.len() ==> listens_to(l, t, (#[trigger] plan@[k]).0 as int, plan@[k].1 as int),
                    forall|k: int| 0 <= k < plan@.len() ==> (#[trigger] plan@[k]).0 < e || (plan@[k].0 == e && plan@[k].1 < i),
                    forall|x: usize, y: usize|
                        (x < e || (x == e && y < i)) && #[trigger] listens_to(l, t, x as int, y as int) ==> exists|k: int|
                            0 <= k < plan@.len() && #[trigger] plan@[k] == (x, y),
                    forall|k1: int, k2: int|
                        0 <= k1 < k2 < plan@.len() ==> call_before(#[trigger] plan@[k1], #[trigger] plan@[k2]),
                decreases n - i,
            {
                assert(l[i as int].1 == self.listeners@[i as int].1@);
                assert(t[e as int] == events@[e as int].event_type@);
                if str_eq(self.listeners[i].1.as_str(), events[e].event_type.as_str()) {
                    let ghost before = plan@;
                    plan.push((e, i));
                    proof {
                        assert(listens_to(l, t, e as int, i as int));
                        assert forall|x: usize, y: usize|
                            (x < e || (x == e && y < i + 1)) && #[trigger] listens_to(l, t, x as int, y as int)
                            implies exists|k: int| 0 <= k < plan@.len() && #[trigger] plan@[k] == (x, y) by {
                            if x == e && y == i {
                                assert(plan@[before.len() as int] == (x, y));
                            } else {
                                let k = choose|k: int| 0 <= k < before.len() && #[trigger] before[k] == (x, y);
                                assert(plan@[k] == (x, y));
                            }
                        }
                    }
                } else {
                    proof {
                        assert(!listens_to(l, t, e as int, i as int));
                    }
                }
                i = i + 1;
            }
            e = e + 1;
        }
        plan
    }

    /// Calls the listeners for `events` as `dispatch_plan` lays out.
    fn deliver(&self, events: &Vec<GameEvent<P>>)
        ensures
            listeners_notified(self.listeners(), self.callbacks(), events@),
    {
        proof {
            use_type_invariant(self);
        }
        let plan = self.dispatch_plan(events);
        let mut k: usize = 0;
        while k < plan.len()
            invariant
                k <= plan@.len(),
                is_dispatch_plan(self.listeners(), event_types(events@), plan@),
                self.listeners().len() == self.listeners@.len(),
                self.callbacks().len() == self.listeners@.len(),
                forall|i: int| 0 <= i < self.listeners@.len() ==> accepts_all(#[trigger] self.listeners@[i].2),
                forall|i: int| 0 <= i < self.listeners@.len() ==> #[trigger] self.callbacks()[i] == self.listeners@[i].2,
                calls_made(self.callbacks(), events@, plan@.take(k as int)),
            decreases plan@.len() - k,
        {
            let (e, i) = plan[k];
            proof {
                assert(listens_to(self.listeners(), event_types(events@), plan@[k as int].0 as int, plan@[k as int].1 as int));
                assert(accepts_all(self.listeners@[i as int].2));
            }
            let callback = &self.listeners[i].2;
            let event = &events[e];
            proof {
                assert(call_requires(*callback, (event,)));
            }
            callback(event);
            proof {
                assert(plan@.take(k + 1) =~= plan@.take(k as int).push(plan@[k as int]));
                assert(self.callbacks()[i as int] == *callback);
            }
            k = k + 1;
        }
        proof {
            assert(plan@.take(plan@.len() as int) =~= plan@);
        }
    }

    /// The logged events, oldest first.
    pub fn get_log(&self) -> (r: &std::collections::VecDeque<GameEvent<P>>)
        ensures
            r@ == self.log(),
    {
        &self.log
    }
}

impl<P: Clone, F: Fn(&GameEvent<P>)> EventBus<P, F> {
    /// Delivers the queued events: each listener registered for an event's
    /// type is called with it, in the order `dispatch_plan` gives (every call
    /// of such a plan is made, see `listeners_notified`); the events
    /// go into the log, which keeps only the most recent ones (at most its
    /// capacity, and at least one), and are handed back in emission order.
    pub fn flush(&mut self) -> (events: Vec<GameEvent<P>>)
        ensures
            final(self).log() == latest(
                old(self).log() + old(self).pending(),
                log_bound(old(self).capacity()),
            ),
            final(self).pending() == Seq::<GameEvent<P>>::empty(),
            events@.len() == old(self).pending().len(),
            forall|i: int|
                0 <= i < events@.len() ==> (#[trigger] events@[i]).event_type@ == old(
                    self,
                ).pending()[i].event_type@ && cloned(old(self).pending()[i].payload, events@[i].payload),
            listeners_notified(old(self).listeners(), old(self).callbacks(), events@),
            final(self).listeners() == old(self).listeners(),
            final(self).callbacks() == old(self).callbacks(),
            final(self).next_id() == old(self).next_id(),
            final(self).capacity() == old(self).capacity(),
    {
        proof {
            use_type_invariant(&*self);
        }
        let ghost old_log = self.log@;
        let mut pending: Vec<GameEvent<P>> = Vec::new();
        std::mem::swap(&mut pending, &mut self.pending);
        let ghost evs = pending@;
        let mut handed: Vec<GameEvent<P>> = Vec::new();
        let mut log = std::collections::VecDeque::new();
        std::mem::swap(&mut log, &mut self.log);
        // move the events into the log, oldest first
        let ghost cap = self.log_capacity as nat;
        while pending.len() > 0
            invariant
                pending@.len() <= evs.len(),
                pending@ == evs.skip(evs.len() - pending@.len()),
                log@ == log_push_all(old_log, evs.take(evs.len() - pending@.len()), cap),
                cap == self.log_capacity as nat,
                handed@.len() == evs.len() - pending@.len(),
                forall|i: int|
                    0 <= i < handed@.len() ==> (#[trigger] handed@[i]).event_type@ == evs[i].event_type@
                        && cloned(evs[i].payload, handed@[i].payload),
            decreases pending@.len(),
        {
            let ghost k = evs.len() - pending@.len();
            let e = pending.remove(0);
            proof {
                assert(e == evs[k]);
                assert(pending@ =~= evs.skip(evs.len() - pending@.len()));
                assert(evs.take(k + 1).drop_last() =~= evs.take(k));
                assert(evs.take(k + 1).last() == evs[k]);
            }
            handed.push(GameEvent { event_type: e.event_type.clone(), payload: e.payload.clone() });
            if log.len() >= self.log_capacity {
                let _ = log.pop_front();
            }
            log.push_back(e);
            proof {
                assert(log@ == log_push_all(old_log, evs.take(k + 1), cap));
            }
        }
        proof {
            assert(evs.take(evs.len() as int) =~= evs);
            lemma_log_keeps_latest(old_log, evs, cap);
            lemma_latest_within_bound(old_log + evs, log_bound(cap));
        }
        self.log = log;
        self.deliver(&handed);
        handed
    }
}

/// The registrations for an event type after a listener is removed are the
/// earlier ones without it, in the same order.
pub proof fn lemma_removed_listener_not_called(
    listeners: Seq<(u64, Seq<char>)>,
    id: u64,
    event_type: Seq<char>,
)
    ensures
        !ids_for(listeners.filter(not_listener(id)), event_type).contains(id),
        ids_for(listeners.filter(not_listener(id)), event_type) == ids_for(
            listeners,
            event_type,
        ).filter(other_id(id)),
    decreases listeners.len(),
{
    let not_id = not_listener(id);
    let is_type = has_type(event_type);
    let get_id = id_of();
    let neq = other_id(id);
    if listeners.len() == 0 {
        assert(listeners.filter(not_id) =~= listeners) by {
            reveal(Seq::filter);
        }
        assert(ids_for(listeners, event_type) =~= Seq::<u64>::empty()) by {
            reveal(Seq::filter);
        }
        assert(ids_for(listeners, event_type).filter(neq) =~= Seq::<u64>::empty()) by {
            reveal(Seq::filter);
        }
    } else {
        let prev = listeners.drop_last();
        let l = listeners.last();
        lemma_removed_listener_not_called(prev, id, event_type);
        assert(listeners =~= prev.push(l));
        prev.lemma_filter_push(l, not_id);
        prev.lemma_filter_push(l, is_type);
        prev.filter(not_id).lemma_filter_push(l, is_type);
        let g = prev.filter(is_type).map_values(get_id);
        g.lemma_filter_push(l.0, neq);
        assert(prev.filter(is_type).push(l).map_values(get_id) =~= g.push(l.0));
        assert(prev.filter(not_id).filter(is_type).push(l).map_values(get_id) =~= prev.filter(
            not_id,
        ).filter(is_type).map_values(get_id).push(l.0));
        if is_type(l) {
            if not_id(l) {
                assert(ids_for(listeners.filter(not_id), event_type) == ids_for(prev.filter(not_id), event_type).push(l.0));
                assert(ids_for(listeners, event_type) == g.push(l.0));
            } else {
                assert(listeners.filter(not_id) == prev.filter(not_id));
                assert(ids_for(listeners, event_type) == g.push(l.0));
            }
        } else {
            assert(ids_for(listeners, event_type) == g);
            if not_id(l) {
                assert(ids_for(listeners.filter(not_id), event_type) == ids_for(prev.filter(not_id), event_type));
            } else {
                assert(listeners.filter(not_id) == prev.filter(not_id));
            }
        }
    }
    let r = ids_for(listeners.filter(not_id), event_type);
    broadcast use vstd::seq_lib::group_filter_ensures;
    assert(!r.contains(id)) by {
        if r.contains(id) {
            let k = choose|k: int| 0 <= k < r.len() && r[k] == id;
            assert(neq(r[k]));
        }
    }
}

} // verus!

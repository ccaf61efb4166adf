use std::marker::PhantomData;
use vstd::prelude::*;

use crate::utils::str_map::StrMap;

verus! {

broadcast use vstd::string::group_string_axioms;

/// The key a listener is registered under; `off` takes it back.
pub type EventBusKey = u64;

/// What the bus knows of a listener.
pub struct BusListenerInfo {
    pub id: EventBusKey,
    pub once: bool,
}

/// A stored bus callback.
trait BusCallback<P> {
    /// Whether the callback has been called with `data`.
    spec fn heard(&self, data: &P) -> bool;

    /// Whether the callback has been called with `data` as call number
    /// `step` of an emission.
    spec fn heard_at(&self, data: &P, step: nat) -> bool;

    fn call(&self, data: &P, step: Ghost<nat>)
        ensures
            self.heard(data),
            self.heard_at(data, step@),
    ;
}

#[verifier::reject_recursive_types(P)]
struct ClosureCallback<P, F: Fn(&P)> {
    f: F,
    marker: PhantomData<P>,
}

impl<P, F: Fn(&P)> ClosureCallback<P, F> {
    #[verifier::type_invariant]
    closed spec fn callable(self) -> bool {
        forall|d: &P| call_requires(self.f, (d,))
    }
}

impl<P, F: Fn(&P)> BusCallback<P> for ClosureCallback<P, F> {
    /// Whether the closure has been called with `data`.
    closed spec fn heard(&self, data: &P) -> bool {
        call_ensures(self.f, (data,), ())
    }

    /// Whether the closure has been called with `data`; a closure keeps no
    /// count of its calls.
    closed spec fn heard_at(&self, data: &P, step: nat) -> bool {
        call_ensures(self.f, (data,), ())
    }

    fn call(&self, data: &P, step: Ghost<nat>) {
        proof {
            use_type_invariant(self);
        }
        (self.f)(data);
    }
}

#[verifier::reject_recursive_types(P)]
struct BusEntry<P> {
    id: EventBusKey,
    once: bool,
    callback: Box<dyn BusCallback<P>>,
}

impl<P> BusEntry<P> {
    spec fn info(self) -> BusListenerInfo {
        BusListenerInfo { id: self.id, once: self.once }
    }

}

/// The listener `id` holding callback `c` as a trait object: std
/// `Box::new`, then the unsizing coercion. A call through the trait object
/// dispatches to `c`'s own `call`.
#[verifier::external_body]
fn boxed_entry<P: 'static, C: BusCallback<P> + 'static>(id: EventBusKey, once: bool, c: C) -> (r: BusEntry<P>)
    ensures
        r.info() == (BusListenerInfo { id, once }),
        forall|d: &P| #[trigger] r.callback.heard(d) == c.heard(d),
        forall|d: &P, n: nat| #[trigger] r.callback.heard_at(d, n) == c.heard_at(d, n),
{
    BusEntry { id, once, callback: Box::new(c) }
}

spec fn entry_infos<P>(v: Seq<BusEntry<P>>) -> Seq<BusListenerInfo> {
    v.map_values(|e: BusEntry<P>| e.info())
}

/// The listeners other than the one registered under `key`.
pub open spec fn without_bus_key(s: Seq<BusListenerInfo>, key: EventBusKey) -> Seq<BusListenerInfo> {
    s.filter(|l: BusListenerInfo| l.id != key)
}

/// The listeners that stay after an emission: all but the one-shot ones.
pub open spec fn without_bus_once(s: Seq<BusListenerInfo>) -> Seq<BusListenerInfo> {
    s.filter(|l: BusListenerInfo| !l.once)
}

proof fn lemma_filter_push(s: Seq<BusListenerInfo>, x: BusListenerInfo, pred: spec_fn(BusListenerInfo) -> bool)
    ensures
        s.push(x).filter(pred) == if pred(x) {
            s.filter(pred).push(x)
        } else {
            s.filter(pred)
        },
{
    reveal(Seq::filter);
    assert(s.push(x).drop_last() =~= s);
}

/// The entries of `v` whose info satisfies: not under `key` (when `key` is
/// given), or not one-shot (when it is not).
fn filter_entries<P>(v: Vec<BusEntry<P>>, key: Option<EventBusKey>) -> (r: Vec<BusEntry<P>>)
    ensures
        entry_infos(r@) == match key {
            Some(k) => without_bus_key(entry_infos(v@), k),
            None => without_bus_once(entry_infos(v@)),
        },
{
    let ghost orig = entry_infos(v@);
    let ghost pred = match key {
        Some(k) => |l: BusListenerInfo| l.id != k,
        None => |l: BusListenerInfo| !l.once,
    };
    let mut v = v;
    let mut r: Vec<BusEntry<P>> = Vec::new();
    let total = v.len();
    let mut i: usize = 0;
    assert(orig.take(0) =~= Seq::<BusListenerInfo>::empty());
    assert(entry_infos(r@) =~= Seq::<BusListenerInfo>::empty());
    assert(entry_infos(v@) =~= orig.skip(0));
    proof {
        reveal(Seq::filter);
    }
    while v.len() > 0
        invariant
            i + v@.len() == orig.len(),
            orig.len() == total,
            entry_infos(v@) == orig.skip(i as int),
            entry_infos(r@) == orig.take(i as int).filter(pred),
            pred == match key {
                Some(k) => |l: BusListenerInfo| l.id != k,
                None => |l: BusListenerInfo| !l.once,
            },
        decreases v@.len(),
    {
        let ghost old_v = v@;
        let ghost old_r = r@;
        let x = v.remove(0);
        assert(x.info() == orig[i as int]) by {
            assert(entry_infos(old_v)[0] == orig.skip(i as int)[0]);
        }
        assert(entry_infos(v@) =~= orig.skip(i + 1)) by {
            assert forall|j: int| 0 <= j < v@.len() implies entry_infos(v@)[j] == orig.skip(i + 1)[j] by {
                assert(v@[j] == old_v[j + 1]);
                assert(entry_infos(old_v)[j + 1] == orig.skip(i as int)[j + 1]);
            }
        }
        proof {
            lemma_filter_push(orig.take(i as int), x.info(), pred);
            assert(orig.take(i + 1) =~= orig.take(i as int).push(x.info()));
        }
        let keep = match key {
            Some(k) => x.id != k,
            None => !x.once,
        };
        if keep {
            r.push(x);
            assert(entry_infos(r@) =~= entry_infos(old_r).push(x.info()));
        }
        i = i + 1;
    }
    assert(orig.take(i as int) =~= orig);
    r
}

/// The abstract state of an [`EventBus`].
pub struct EventBusView {
    /// The listeners of each channel, in registration order.
    pub channels: Map<Seq<char>, Seq<BusListenerInfo>>,
    /// The emitted channels with the emission count at the time, oldest first.
    pub history: Seq<(Seq<char>, u64)>,
    pub max_history: usize,
    pub emit_count: u64,
    pub next_key: EventBusKey,
}

/// The listeners of channel `event`; none when it has no entry.
pub open spec fn channel_of(v: EventBusView, event: Seq<char>) -> Seq<BusListenerInfo> {
    if v.channels.dom().contains(event) {
        v.channels[event]
    } else {
        Seq::empty()
    }
}

/// The state after registering a listener on channel `event`.
pub open spec fn spec_subscribe(v: EventBusView, event: Seq<char>, once: bool) -> EventBusView {
    EventBusView {
        channels: v.channels.insert(event, channel_of(v, event).push(BusListenerInfo { id: v.next_key, once })),
        next_key: (v.next_key + 1) as u64,
        ..v
    }
}

/// The history after recording an emission on `event`: the oldest record
/// goes first when the history is full.
pub open spec fn pushed_history(h: Seq<(Seq<char>, u64)>, max: usize, event: Seq<char>, count: u64) -> Seq<
    (Seq<char>, u64),
> {
    if h.len() >= max {
        h.drop_first().push((event, count))
    } else {
        h.push((event, count))
    }
}

/// The state after an emission on `event`: one more emission, recorded in
/// the history, and the channel's one-shot listeners gone.
pub open spec fn spec_emit(v: EventBusView, event: Seq<char>) -> EventBusView {
    let n = (v.emit_count + 1) as u64;
    EventBusView {
        channels: if v.channels.dom().contains(event) {
            v.channels.insert(event, without_bus_once(v.channels[event]))
        } else {
            v.channels
        },
        history: pushed_history(v.history, v.max_history, event, n),
        emit_count: n,
        ..v
    }
}

/// Named channels of listeners, with a bounded history of emissions.
#[verifier::reject_recursive_types(P)]
pub struct EventBus<P> {
    channels: StrMap<Vec<BusEntry<P>>>,
    history: Vec<(String, u64)>,
    max_history: usize,
    emit_count: u64,
    next_id: EventBusKey,
}

spec fn channel_views<P>(m: Map<Seq<char>, Vec<BusEntry<P>>>) -> Map<Seq<char>, Seq<BusListenerInfo>> {
    m.map_values(|v: Vec<BusEntry<P>>| entry_infos(v@))
}

/// History records with their channel names as character sequences.
pub open spec fn history_view(h: Seq<(String, u64)>) -> Seq<(Seq<char>, u64)> {
    h.map_values(|e: (String, u64)| (e.0@, e.1))
}

impl<P> View for EventBus<P> {
    type V = EventBusView;

    closed spec fn view(&self) -> EventBusView {
        EventBusView {
            channels: channel_views(self.channels@),
            history: history_view(self.history@),
            max_history: self.max_history,
            emit_count: self.emit_count,
            next_key: self.next_id,
        }
    }
}

impl<P: 'static> EventBus<P> {
    /// Well-formedness of the channel table.
    pub closed spec fn wf(&self) -> bool {
        self.channels.wf()
    }

    /// Whether every listener registered on channel `event` under `key` has
    /// been called with `data`.
    pub closed spec fn key_heard(&self, event: Seq<char>, key: EventBusKey, data: &P) -> bool {
        self.channels@.dom().contains(event) ==> forall|i: int|
            0 <= i < self.channels@[event]@.len() && #[trigger] self.channels@[event]@[i].id == key
                ==> self.channels@[event]@[i].callback.heard(data)
    }

    /// Whether the listener at position `i` of channel `event` has been
    /// called with `data` as call number `step` of an emission.
    pub closed spec fn position_heard(&self, event: Seq<char>, i: int, data: &P, step: nat) -> bool {
        &&& self.channels@.dom().contains(event)
        &&& 0 <= i < self.channels@[event]@.len()
        &&& self.channels@[event]@[i].callback.heard_at(data, step)
    }

    /// An empty bus keeping the last 100 emissions.
    pub fn new() -> (r: Self)
        ensures
            r.wf(),
            r@.channels == Map::<Seq<char>, Seq<BusListenerInfo>>::empty(),
            r@.history.len() == 0,
            r@.max_history == 100,
            r@.emit_count == 0,
            r@.next_key == 1,
    {
        let r = EventBus {
            channels: StrMap::new(),
            history: Vec::new(),
            max_history: 100,
            emit_count: 0,
            next_id: 1,
        };
        assert(r@.channels =~= Map::<Seq<char>, Seq<BusListenerInfo>>::empty());
        r
    }

    fn subscribe<C: BusCallback<P> + 'static>(&mut self, event: &str, callback: C, once: bool) -> (r: EventBusKey)
        requires
            old(self).wf(),
            old(self)@.next_key < u64::MAX,
        ensures
            forall|d: &P| #[trigger] final(self).key_heard(event@, r, d) ==> callback.heard(d),
            forall|e: Seq<char>, k: EventBusKey, d: &P|
                e != event@ || k != r ==> #[trigger] final(self).key_heard(e, k, d) == old(self).key_heard(e, k, d),
            forall|d: &P, n: nat|
                #[trigger] final(self).position_heard(event@, channel_of(old(self)@, event@).len() as int, d, n) ==> callback.heard_at(d, n),
            forall|e: Seq<char>, i: int, d: &P, n: nat|
                e != event@ || i != channel_of(old(self)@, event@).len() ==> #[trigger] final(self).position_heard(e, i, d, n)
                    == old(self).position_heard(e, i, d, n),
            final(self).wf(),
            r == old(self)@.next_key,
            final(self)@ == spec_subscribe(old(self)@, event@, once),
    {
        let id = self.next_id;
        let ghost old_c = self.channels@;
        let entries = self.channels.remove(event);
        let mut list = match entries {
            Some(l) => l,
            None => Vec::new(),
        };
        let ghost old_list = list@;
        assert(entry_infos(old_list) == channel_of(old(self)@, event@)) by {
            if !old_c.dom().contains(event@) {
                assert(entry_infos(old_list) =~= Seq::<BusListenerInfo>::empty());
            }
        }
        let e = boxed_entry(id, once, callback);
        let ghost eg = e;
        list.push(e);
        assert(entry_infos(list@) =~= entry_infos(old_list).push(BusListenerInfo { id, once }));
        let ghost li = entry_infos(list@);
        let ghost lg = list@;
        self.channels.insert(event, list);
        self.next_id = id + 1;
        assert(channel_views(self.channels@) =~= channel_views(old_c).insert(event@, li));
        proof {
            assert(self.channels@[event@]@ == lg);
            assert(lg == old_list.push(eg));
            assert forall|d: &P| #[trigger] self.key_heard(event@, id, d) implies callback.heard(d) by {
                assert(lg[old_list.len() as int] == eg);
            }
            assert(old_list.len() == channel_of(old(self)@, event@).len());
            assert forall|d: &P, n: nat| #[trigger] self.position_heard(event@, old_list.len() as int, d, n) implies callback.heard_at(d, n) by {
                assert(lg[old_list.len() as int] == eg);
            }
            assert forall|ev: Seq<char>, i: int, d: &P, n: nat|
                ev != event@ || i != old_list.len() implies #[trigger] self.position_heard(ev, i, d, n) == old(self).position_heard(ev, i, d, n) by {
                if ev == event@ {
                    if old_c.dom().contains(ev) {
                        assert(old_list == old_c[ev]@);
                    }
                    if 0 <= i < old_list.len() {
                        assert(lg[i] == old_list[i]);
                    }
                } else {
                    assert(self.channels@.dom().contains(ev) == old_c.dom().contains(ev));
                    if old_c.dom().contains(ev) {
                        assert(self.channels@[ev] == old_c[ev]);
                    }
                }
            }
            assert forall|ev: Seq<char>, k: EventBusKey, d: &P|
                ev != event@ || k != id implies #[trigger] self.key_heard(ev, k, d) == old(self).key_heard(ev, k, d) by {
                if ev == event@ {
                    if old_c.dom().contains(ev) {
                        assert(old_list == old_c[ev]@);
                    }
                    assert forall|i: int| 0 <= i < old_list.len() implies lg[i] == old_list[i] by {}
                    if old(self).key_heard(ev, k, d) && old_c.dom().contains(ev) {
                        assert forall|i: int| 0 <= i < lg.len() && #[trigger] lg[i].id == k implies lg[i].callback.heard(d) by {
                            if i < old_list.len() {
                                assert(old_c[ev]@[i] == lg[i]);
                            }
                        }
                    }
                    if self.key_heard(ev, k, d) && old_c.dom().contains(ev) {
                        assert forall|i: int| 0 <= i < old_c[ev]@.len() && #[trigger] old_c[ev]@[i].id == k implies old_c[ev]@[i].callback.heard(d) by {
                            assert(old_c[ev]@[i] == lg[i]);
                        }
                    }
                } else {
                    assert(self.channels@.dom().contains(ev) == old_c.dom().contains(ev));
                    if old_c.dom().contains(ev) {
                        assert(self.channels@[ev] == old_c[ev]);
                    }
                }
            }
        }
        id
    }

    /// Registers `callback` on channel `event`; returns its key.
    pub fn on<F: Fn(&P) + Send + Sync + 'static>(&mut self, event: &str, callback: F) -> (r: EventBusKey)
        requires
            old(self).wf(),
            old(self)@.next_key < u64::MAX,
            forall|d: &P| call_requires(callback, (d,)),
        ensures
            forall|d: &P| #[trigger] final(self).key_heard(event@, r, d) ==> call_ensures(callback, (d,), ()),
            forall|e: Seq<char>, k: EventBusKey, d: &P| e != event@ || k != r ==> #[trigger] final(self).key_heard(e, k, d) == old(self).key_heard(e, k, d),
            forall|d: &P, n: nat|
                #[trigger] final(self).position_heard(event@, channel_of(old(self)@, event@).len() as int, d, n) ==> call_ensures(callback, (d,), ()),
            forall|e: Seq<char>, i: int, d: &P, n: nat|
                e != event@ || i != channel_of(old(self)@, event@).len() ==> #[trigger] final(self).position_heard(e, i, d, n)
                    == old(self).position_heard(e, i, d, n),
            final(self).wf(),
            r == old(self)@.next_key,
            final(self)@ == spec_subscribe(old(self)@, event@, false),
    {
        let cb = ClosureCallback { f: callback, marker: PhantomData };
        proof {
            assert(cb.f == callback);
            assert forall|d: &P| #[trigger] cb.heard(d) == call_ensures(callback, (d,), ()) by {
                assert(cb.heard(d) == call_ensures(cb.f, (d,), ()));
            }
            assert forall|d: &P, n: nat| #[trigger] cb.heard_at(d, n) == call_ensures(callback, (d,), ()) by {
                assert(cb.heard_at(d, n) == call_ensures(cb.f, (d,), ()));
            }
        }
        self.subscribe(event, cb, false)
    }

    /// Registers `callback` on channel `event` for its next emission only;
    /// returns its key.
    pub fn once<F: Fn(&P) + Send + Sync + 'static>(&mut self, event: &str, callback: F) -> (r: EventBusKey)
        requires
            old(self).wf(),
            old(self)@.next_key < u64::MAX,
            forall|d: &P| call_requires(callback, (d,)),
        ensures
            forall|d: &P| #[trigger] final(self).key_heard(event@, r, d) ==> call_ensures(callback, (d,), ()),
            forall|e: Seq<char>, k: EventBusKey, d: &P| e != event@ || k != r ==> #[trigger] final(self).key_heard(e, k, d) == old(self).key_heard(e, k, d),
            forall|d: &P, n: nat|
                #[trigger] final(self).position_heard(event@, channel_of(old(self)@, event@).len() as int, d, n) ==> call_ensures(callback, (d,), ()),
            forall|e: Seq<char>, i: int, d: &P, n: nat|
                e != event@ || i != channel_of(old(self)@, event@).len() ==> #[trigger] final(self).position_heard(e, i, d, n)
                    == old(self).position_heard(e, i, d, n),
            final(self).wf(),
            r == old(self)@.next_key,
            final(self)@ == spec_subscribe(old(self)@, event@, true),
    {
        let cb = ClosureCallback { f: callback, marker: PhantomData };
        proof {
            assert(cb.f == callback);
            assert forall|d: &P| #[trigger] cb.heard(d) == call_ensures(callback, (d,), ()) by {
                assert(cb.heard(d) == call_ensures(cb.f, (d,), ()));
            }
            assert forall|d: &P, n: nat| #[trigger] cb.heard_at(d, n) == call_ensures(callback, (d,), ()) by {
                assert(cb.heard_at(d, n) == call_ensures(cb.f, (d,), ()));
            }
        }
        self.subscribe(event, cb, true)
    }

    /// Removes the listener registered under `key` from channel `event`.
    pub fn off(&mut self, event: &str, key: EventBusKey)
        requires
            old(self).wf(),
        ensures
            final(self).wf(),
            final(self)@ == if old(self)@.channels.dom().contains(event@) {
                EventBusView {
                    channels: old(self)@.channels.insert(event@, without_bus_key(old(self)@.channels[event@], key)),
                    ..old(self)@
                }
            } else {
                old(self)@
            },
    {
        let ghost old_c = self.channels@;
        match self.channels.remove(event) {
            Some(list) => {
                let kept = filter_entries(list, Some(key));
                let ghost ki = entry_infos(kept@);
                self.channels.insert(event, kept);
                assert(channel_views(self.channels@) =~= channel_views(old_c).insert(event@, ki));
            },
            None => {
                assert(self.channels@ =~= old_c);
            },
        }
    }

    /// Removes channel `event` with all its listeners.
    pub fn off_all(&mut self, event: &str)
        requires
            old(self).wf(),
        ensures
            final(self).wf(),
            final(self)@ == (EventBusView { channels: old(self)@.channels.remove(event@), ..old(self)@ }),
    {
        let ghost old_c = self.channels@;
        let _ = self.channels.remove(event);
        assert(channel_views(self.channels@) =~= channel_views(old_c).remove(event@));
    }

    /// Emits `data` on channel `event`: counts and records the emission, calls
    /// the channel's listeners in registration order, then drops its one-shot
    /// listeners.
    pub fn emit(&mut self, event: &str, data: P)
        requires
            old(self).wf(),
            old(self)@.emit_count < u64::MAX,
            old(self)@.history.len() > 0 || old(self)@.max_history > 0,
        ensures
            final(self).wf(),
            final(self)@ == spec_emit(old(self)@, event@),
            forall|k: EventBusKey| #[trigger] old(self).key_heard(event@, k, &data),
            forall|i: int|
                0 <= i < channel_of(old(self)@, event@).len() ==> #[trigger] old(self).position_heard(event@, i, &data, i as nat),
    {
        let ghost v0 = self@;
        self.emit_count = self.emit_count + 1;
        let ghost old_h = self.history@;
        if self.history.len() >= self.max_history {
            let _ = self.history.remove(0);
        }
        self.history.push((event.to_string(), self.emit_count));
        proof {
            let rec = (event@, self.emit_count);
            if old_h.len() >= self.max_history {
                assert(history_view(self.history@) =~= history_view(old_h).drop_first().push(rec));
            } else {
                assert(history_view(self.history@) =~= history_view(old_h).push(rec));
            }
        }
        let ghost old_c = self.channels@;
        match self.channels.remove(event) {
            Some(list) => {
                let mut i: usize = 0;
                while i < list.len()
                    invariant
                        i <= list@.len(),
                        forall|j: int| 0 <= j < i ==> #[trigger] list@[j].callback.heard(&data),
                        forall|j: int| 0 <= j < i ==> #[trigger] list@[j].callback.heard_at(&data, j as nat),
                    decreases list@.len() - i,
                {
                    list[i].callback.call(&data, Ghost(i as nat));
                    i = i + 1;
                }
                assert(list@ == old(self).channels@[event@]@);
                assert forall|k: EventBusKey| #[trigger] old(self).key_heard(event@, k, &data) by {
                    assert forall|m: int| 0 <= m < old(self).channels@[event@]@.len() && #[trigger] old(self).channels@[event@]@[m].id == k
                        implies old(self).channels@[event@]@[m].callback.heard(&data) by {
                        assert(list@[m].callback.heard(&data));
                    }
                }
                assert(entry_infos(list@).len() == list@.len());
                assert forall|i: int| 0 <= i < channel_of(old(self)@, event@).len() implies #[trigger] old(self).position_heard(event@, i, &data, i as nat) by {
                    assert(list@[i].callback.heard_at(&data, i as nat));
                }
                let kept = filter_entries(list, None);
                let ghost ki = entry_infos(kept@);
                self.channels.insert(event, kept);
                assert(channel_views(self.channels@) =~= channel_views(old_c).insert(event@, ki));
            },
            None => {
                assert(self.channels@ =~= old_c);
                assert(channel_of(old(self)@, event@).len() == 0);
            },
        }
        assert(self@.channels == spec_emit(v0, event@).channels);
    }

    /// How many listeners channel `event` has.
    pub fn listener_count(&self, event: &str) -> (r: usize)
        requires
            self.wf(),
        ensures
            r == channel_of(self@, event@).len(),
    {
        match self.channels.get(event) {
            Some(list) => list.len(),
            None => 0,
        }
    }

    /// Whether channel `event` has a listener.
    pub fn has_listeners(&self, event: &str) -> (r: bool)
        requires
            self.wf(),
        ensures
            r == (channel_of(self@, event@).len() > 0),
    {
        match self.channels.get(event) {
            Some(list) => list.len() > 0,
            None => false,
        }
    }

    /// How many emissions happened since the bus was created or cleared.
    pub fn get_emit_count(&self) -> (r: u64)
        ensures
            r == self@.emit_count,
    {
        self.emit_count
    }

    /// How many emissions the history keeps.
    pub fn get_max_history(&self) -> (r: usize)
        ensures
            r == self@.max_history,
    {
        self.max_history
    }

    /// The key the next listener registered gets.
    pub fn next_key(&self) -> (r: EventBusKey)
        ensures
            r == self@.next_key,
    {
        self.next_id
    }

    /// The recorded emissions, oldest first.
    pub fn get_history(&self) -> (r: &[(String, u64)])
        ensures
            history_view(r@) == self@.history,
    {
        self.history.as_slice()
    }

    pub fn clear_history(&mut self)
        ensures
            final(self).wf() == old(self).wf(),
            final(self)@ == (EventBusView { history: Seq::empty(), ..old(self)@ }),
    {
        self.history.clear();
        assert(history_view(self.history@) =~= Seq::<(Seq<char>, u64)>::empty());
    }

    /// Sets how many emissions the history keeps; the history is trimmed by
    /// the following emissions only.
    pub fn set_max_history(&mut self, max: usize)
        ensures
            final(self).wf() == old(self).wf(),
            final(self)@ == (EventBusView { max_history: max, ..old(self)@ }),
    {
        self.max_history = max;
    }

    /// Drops every channel and the history, and resets the emission count.
    pub fn clear_all(&mut self)
        ensures
            final(self).wf(),
            final(self)@ == (EventBusView {
                channels: Map::empty(),
                history: Seq::empty(),
                emit_count: 0,
                ..old(self)@
            }),
    {
        self.channels = StrMap::new();
        self.history.clear();
        self.emit_count = 0;
        assert(channel_views(self.channels@) =~= Map::<Seq<char>, Seq<BusListenerInfo>>::empty());
        assert(history_view(self.history@) =~= Seq::<(Seq<char>, u64)>::empty());
    }
}

impl<P: 'static> Default for EventBus<P> {
    fn default() -> (r: Self)
        ensures
            r.wf(),
            r@.channels == Map::<Seq<char>, Seq<BusListenerInfo>>::empty(),
            r@.history.len() == 0,
            r@.max_history == 100,
            r@.emit_count == 0,
            r@.next_key == 1,
    {
        Self::new()
    }
}

/// With a limit of at least one, an emission keeps the history within the
/// limit, and the newest record is the emission just made.
pub proof fn lemma_emit_history_bounded(v: EventBusView, event: Seq<char>)
    requires
        v.max_history >= 1,
        v.history.len() <= v.max_history,
        v.emit_count < u64::MAX,
    ensures
        spec_emit(v, event).history.len() <= v.max_history,
        spec_emit(v, event).history.last() == (event, (v.emit_count + 1) as u64),
{
}

/// A one-shot listener is gone after the first emission on its channel,
/// while the channel's other listeners stay, in order.
pub proof fn lemma_once_fires_once(v: EventBusView, event: Seq<char>)
    requires
        v.emit_count < u64::MAX,
        v.channels.dom().contains(event),
    ensures
        forall|i: int|
            0 <= i < spec_emit(v, event).channels[event].len() ==> !(#[trigger] spec_emit(
                v,
                event,
            ).channels[event][i]).once,
        spec_emit(v, event).channels[event] == without_bus_once(v.channels[event]),
{
    let s = v.channels[event];
    let pred = |l: BusListenerInfo| !l.once;
    assert forall|i: int| 0 <= i < s.filter(pred).len() implies !(#[trigger] s.filter(pred)[i]).once by {
        s.lemma_filter_pred(pred, i);
    }
}

} // verus!

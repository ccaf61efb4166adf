use std::any::TypeId;
use std::marker::PhantomData;
use vstd::prelude::*;

use crate::utils::type_ids::{same_type, type_id_of};

verus! {

/// A stored listener callback, called with the emitted event.
trait EventCallback<P: ?Sized> {
    /// Whether the callback has been called with `event`.
    spec fn heard(&self, event: &P) -> bool;

    fn call(&self, event: &P)
        ensures
            self.heard(event),
    ;
}

#[verifier::reject_recursive_types(P)]
struct ClosureCallback<P: ?Sized, F: Fn(&P)> {
    f: F,
    marker: PhantomData<Box<P>>,
}

impl<P: ?Sized, F: Fn(&P)> ClosureCallback<P, F> {
    #[verifier::type_invariant]
    closed spec fn callable(self) -> bool {
        forall|e: &P| call_requires(self.f, (e,))
    }
}

impl<P: ?Sized, F: Fn(&P)> EventCallback<P> for ClosureCallback<P, F> {
    /// Whether the closure has been called with `event`.
    closed spec fn heard(&self, event: &P) -> bool {
        call_ensures(self.f, (event,), ())
    }

    fn call(&self, event: &P) {
        proof {
            use_type_invariant(self);
        }
        (self.f)(event);
    }
}

#[verifier::reject_recursive_types(P)]
struct Listener<P: ?Sized> {
    type_id: TypeId,
    callback: Box<dyn EventCallback<P>>,
}

/// The listener of type `type_id` holding callback `c` as a trait object:
/// std `Box::new`, then the unsizing coercion. A call through the trait
/// object dispatches to `c`'s own `call`.
#[verifier::external_body]
fn boxed_listener<P: ?Sized + 'static, C: EventCallback<P> + 'static>(type_id: TypeId, c: C) -> (r: Listener<P>)
    ensures
        r.type_id == type_id,
        forall|e: &P| #[trigger] r.callback.heard(e) == c.heard(e),
{
    Listener { type_id, callback: Box::new(c) }
}

spec fn types_of<P: ?Sized>(v: Seq<Listener<P>>) -> Seq<TypeId> {
    v.map_values(|l: Listener<P>| l.type_id)
}

/// Whether a listener is of an event type other than `t`.
pub open spec fn other_type(t: TypeId) -> spec_fn(TypeId) -> bool {
    |x: TypeId| x != t
}

/// Whether a listener is of event type `t`.
pub open spec fn same_type_as(t: TypeId) -> spec_fn(TypeId) -> bool {
    |x: TypeId| x == t
}

/// The listeners of every event type but `t`.
pub open spec fn without_type(s: Seq<TypeId>, t: TypeId) -> Seq<TypeId> {
    s.filter(other_type(t))
}

/// How many listeners event type `t` has.
pub open spec fn count_of(s: Seq<TypeId>, t: TypeId) -> nat {
    s.filter(same_type_as(t)).len()
}

proof fn lemma_filter_push(s: Seq<TypeId>, x: TypeId, pred: spec_fn(TypeId) -> bool)
    ensures
        s.push(x).filter(pred) == if pred(x) {
            s.filter(pred).push(x)
        } else {
            s.filter(pred)
        },
{
    reveal(Seq::filter);
    assert(s.push(x).drop_last() =~= s);
}

/// Listeners by event type: each event type has its listeners, called in
/// registration order with the emitted event.
#[verifier::reject_recursive_types(P)]
pub struct EventBus<P: ?Sized> {
    listeners: Vec<Listener<P>>,
}

impl<P: ?Sized> View for EventBus<P> {
    type V = Seq<TypeId>;

    /// The event type of each listener, in registration order.
    closed spec fn view(&self) -> Seq<TypeId> {
        types_of(self.listeners@)
    }
}

impl<P: ?Sized + 'static> EventBus<P> {
    /// Whether the `i`-th listener (in registration order) has been called
    /// with `event`.
    pub closed spec fn listener_heard(&self, i: int, event: &P) -> bool {
        self.listeners@[i].callback.heard(event)
    }

    /// Whether every listener of the type with identifier `t` has been
    /// called with `event`.
    pub open spec fn type_heard(&self, t: TypeId, event: &P) -> bool {
        forall|i: int| 0 <= i < self@.len() && self@[i] == t ==> #[trigger] self.listener_heard(i, event)
    }

    pub fn new() -> (r: Self)
        ensures
            r@ == Seq::<TypeId>::empty(),
    {
        let r = EventBus { listeners: Vec::new() };
        assert(r@ =~= Seq::<TypeId>::empty());
        r
    }

    /// Registers `callback` for events of the type with identifier `t`.
    pub fn on_type<F: Fn(&P) + Send + Sync + 'static>(&mut self, t: TypeId, callback: F)
        requires
            forall|e: &P| call_requires(callback, (e,)),
        ensures
            final(self)@ == old(self)@.push(t),
            forall|i: int, e: &P| 0 <= i < old(self)@.len() ==> #[trigger] final(self).listener_heard(i, e) == old(self).listener_heard(i, e),
            forall|e: &P| #[trigger] final(self).listener_heard(old(self)@.len() as int, e) == call_ensures(callback, (e,), ()),
    {
        let cb = ClosureCallback { f: callback, marker: PhantomData };
        proof {
            assert(cb.f == callback);
            assert forall|e: &P| #[trigger] cb.heard(e) == call_ensures(callback, (e,), ()) by {
                assert(cb.heard(e) == call_ensures(cb.f, (e,), ()));
            }
        }
        let l = boxed_listener(t, cb);
        let ghost old_l = self.listeners@;
        self.listeners.push(l);
        assert(types_of(self.listeners@) =~= types_of(old_l).push(t));
        proof {
            assert forall|i: int, e: &P| 0 <= i < old_l.len() implies #[trigger] self.listener_heard(i, e) == old(self).listener_heard(i, e) by {
                assert(self.listeners@[i] == old_l[i]);
            }
            assert(self.listeners@[old_l.len() as int] == l);
        }
    }

    /// Registers `callback` for events of type `E`.
    pub fn on<E: ?Sized + 'static, F: Fn(&P) + Send + Sync + 'static>(&mut self, callback: F)
        requires
            forall|e: &P| call_requires(callback, (e,)),
        ensures
            exists|t: TypeId| final(self)@ == #[trigger] old(self)@.push(t),
    {
        let t = type_id_of::<E>();
        self.on_type(t, callback);
    }

    /// Calls the listeners of the type with identifier `t` with `event`, in
    /// registration order.
    pub fn emit_type(&self, t: TypeId, event: &P)
        ensures
            self.type_heard(t, event),
    {
        let mut i: usize = 0;
        while i < self.listeners.len()
            invariant
                i <= self.listeners@.len(),
                forall|j: int| 0 <= j < i && self.listeners@[j].type_id == t ==> #[trigger] self.listeners@[j].callback.heard(event),
            decreases self.listeners@.len() - i,
        {
            if same_type(&self.listeners[i].type_id, &t) {
                self.listeners[i].callback.call(event);
            }
            i = i + 1;
        }
    }

    /// Calls the listeners of type `E` with `event`, in registration order.
    pub fn emit<E: ?Sized + 'static>(&self, event: &P)
        ensures
            exists|t: TypeId| #[trigger] self.type_heard(t, event),
    {
        let t = type_id_of::<E>();
        self.emit_type(t, event);
    }

    /// Removes every listener of the type with identifier `t`.
    pub fn off_type(&mut self, t: TypeId)
        ensures
            final(self)@ == without_type(old(self)@, t),
    {
        let ghost orig = self@;
        let ghost pred = other_type(t);
        let mut old_list: Vec<Listener<P>> = Vec::new();
        std::mem::swap(&mut old_list, &mut self.listeners);
        let total = old_list.len();
        let mut i: usize = 0;
        proof {
            reveal(Seq::filter);
        }
        assert(orig.take(0) =~= Seq::<TypeId>::empty());
        assert(types_of(self.listeners@) =~= Seq::<TypeId>::empty());
        assert(types_of(old_list@) =~= orig.skip(0));
        while old_list.len() > 0
            invariant
                i + old_list@.len() == orig.len(),
                orig.len() == total,
                types_of(old_list@) == orig.skip(i as int),
                types_of(self.listeners@) == orig.take(i as int).filter(pred),
                pred == other_type(t),
            decreases old_list@.len(),
        {
            let ghost before = old_list@;
            let ghost kept = self.listeners@;
            let l = old_list.remove(0);
            assert(l.type_id == orig[i as int]) by {
                assert(types_of(before)[0] == orig.skip(i as int)[0]);
            }
            assert(types_of(old_list@) =~= orig.skip(i + 1)) by {
                assert forall|j: int| 0 <= j < old_list@.len() implies types_of(old_list@)[j] == orig.skip(
                    i + 1,
                )[j] by {
                    assert(old_list@[j] == before[j + 1]);
                    assert(types_of(before)[j + 1] == orig.skip(i as int)[j + 1]);
                }
            }
            proof {
                lemma_filter_push(orig.take(i as int), l.type_id, pred);
                assert(orig.take(i + 1) =~= orig.take(i as int).push(l.type_id));
            }
            if !same_type(&l.type_id, &t) {
                let ghost lt = l.type_id;
                self.listeners.push(l);
                assert(types_of(self.listeners@) =~= types_of(kept).push(lt));
            }
            i = i + 1;
        }
        assert(orig.take(i as int) =~= orig);
    }

    /// Removes every listener of type `E`.
    pub fn off<E: ?Sized + 'static>(&mut self)
        ensures
            exists|t: TypeId| final(self)@ == #[trigger] without_type(old(self)@, t),
    {
        let t = type_id_of::<E>();
        self.off_type(t);
    }

    /// Removes every listener.
    pub fn clear(&mut self)
        ensures
            final(self)@ == Seq::<TypeId>::empty(),
    {
        self.listeners.clear();
        assert(self@ =~= Seq::<TypeId>::empty());
    }

    /// How many listeners the type with identifier `t` has.
    pub fn listener_count_of(&self, t: TypeId) -> (r: usize)
        ensures
            r == count_of(self@, t),
    {
        let ghost pred = same_type_as(t);
        let mut n: usize = 0;
        let mut i: usize = 0;
        proof {
            reveal(Seq::filter);
        }
        assert(self@.take(0) =~= Seq::<TypeId>::empty());
        while i < self.listeners.len()
            invariant
                i <= self.listeners@.len(),
                n <= i,
                n == self@.take(i as int).filter(pred).len(),
                pred == same_type_as(t),
            decreases self.listeners@.len() - i,
        {
            proof {
                lemma_filter_push(self@.take(i as int), self@[i as int], pred);
                assert(self@.take(i + 1) =~= self@.take(i as int).push(self@[i as int]));
            }
            if same_type(&self.listeners[i].type_id, &t) {
                n = n + 1;
            }
            i = i + 1;
        }
        assert(self@.take(i as int) =~= self@);
        n
    }

    /// How many listeners type `E` has.
    pub fn listener_count<E: ?Sized + 'static>(&self) -> (r: usize)
        ensures
            exists|t: TypeId| r == #[trigger] count_of(self@, t),
    {
        let t = type_id_of::<E>();
        self.listener_count_of(t)
    }
}

impl<P: ?Sized + 'static> Default for EventBus<P> {
    fn default() -> (r: Self)
        ensures
            r@ == Seq::<TypeId>::empty(),
    {
        Self::new()
    }
}

/// Removing the listeners of a type leaves none of that type and does not
/// touch the others.
pub proof fn lemma_off_type(s: Seq<TypeId>, t: TypeId, u: TypeId)
    ensures
        count_of(without_type(s, t), t) == 0,
        u != t ==> count_of(without_type(s, t), u) == count_of(s, u),
    decreases s.len(),
{
    reveal(Seq::filter);
    if s.len() > 0 {
        lemma_off_type(s.drop_last(), t, u);
        lemma_filter_push(s.drop_last(), s.last(), other_type(t));
        assert(s.drop_last().push(s.last()) =~= s);
        let w = without_type(s.drop_last(), t);
        lemma_filter_push(w, s.last(), same_type_as(t));
        lemma_filter_push(w, s.last(), same_type_as(u));
        lemma_filter_push(s.drop_last(), s.last(), same_type_as(u));
    }
}

/// A DOM-like event target: listeners added by event type and events
/// dispatched to them.
#[verifier::reject_recursive_types(P)]
pub struct EventTarget<P: ?Sized> {
    bus: EventBus<P>,
}

impl<P: ?Sized> View for EventTarget<P> {
    type V = Seq<TypeId>;

    closed spec fn view(&self) -> Seq<TypeId> {
        self.bus@
    }
}

impl<P: ?Sized + 'static> EventTarget<P> {
    /// Whether the `i`-th listener (in registration order) has been called
    /// with `event`.
    pub closed spec fn listener_heard(&self, i: int, event: &P) -> bool {
        self.bus.listener_heard(i, event)
    }

    /// Whether every listener of the type with identifier `t` has been
    /// called with `event`.
    pub open spec fn bus_type_heard(&self, t: TypeId, event: &P) -> bool {
        forall|i: int| 0 <= i < self@.len() && self@[i] == t ==> #[trigger] self.listener_heard(i, event)
    }

    pub fn new() -> (r: Self)
        ensures
            r@ == Seq::<TypeId>::empty(),
    {
        EventTarget { bus: EventBus::new() }
    }

    /// Adds a listener for events of type `E`.
    pub fn add_event_listener<E: ?Sized + 'static, F: Fn(&P) + Send + Sync + 'static>(&mut self, callback: F)
        requires
            forall|e: &P| call_requires(callback, (e,)),
        ensures
            exists|t: TypeId| final(self)@ == #[trigger] old(self)@.push(t),
            forall|i: int, e: &P| 0 <= i < old(self)@.len() ==> #[trigger] final(self).listener_heard(i, e) == old(self).listener_heard(i, e),
            forall|e: &P| #[trigger] final(self).listener_heard(old(self)@.len() as int, e) == call_ensures(callback, (e,), ()),
    {
        let t = type_id_of::<E>();
        self.bus.on_type(t, callback);
        assert(self@ == old(self)@.push(t));
    }

    /// Calls the listeners of type `E` with `event`.
    pub fn dispatch_event<E: ?Sized + 'static>(&self, event: &P)
        ensures
            exists|t: TypeId| #[trigger] self.bus_type_heard(t, event),
    {
        let t = type_id_of::<E>();
        self.bus.emit_type(t, event);
        assert forall|i: int| 0 <= i < self@.len() && self@[i] == t implies #[trigger] self.listener_heard(i, event) by {
            assert(self.bus.listener_heard(i, event));
        }
        assert(self.bus_type_heard(t, event));
    }

    /// Removes every listener of type `E`.
    pub fn remove_event_listeners<E: ?Sized + 'static>(&mut self)
        ensures
            exists|t: TypeId| final(self)@ == #[trigger] without_type(old(self)@, t),
    {
        let t = type_id_of::<E>();
        self.bus.off_type(t);
        assert(self@ == without_type(old(self)@, t));
    }
}

impl<P: ?Sized + 'static> Default for EventTarget<P> {
    fn default() -> (r: Self)
        ensures
            r@ == Seq::<TypeId>::empty(),
    {
        Self::new()
    }
}

} // verus!

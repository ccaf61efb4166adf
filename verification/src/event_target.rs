use std::marker::PhantomData;
use vstd::prelude::*;

use crate::utils::str_map::StrMap;

verus! {

/// The key a listener is registered under; `off` takes it back.
pub type EventKey = u64;

/// What the target knows of a registered listener.
pub struct ListenerInfo {
    pub id: EventKey,
    pub priority: i32,
    pub once: bool,
}

/// The position at which a listener of priority `p` is inserted into `t`:
/// before the first listener of lower priority.
pub open spec fn first_below(t: Seq<ListenerInfo>, p: i32) -> int
    decreases t.len(),
{
    if t.len() == 0 {
        0
    } else if t[0].priority < p {
        0
    } else {
        1 + first_below(t.drop_first(), p)
    }
}

/// `t` with `x` inserted after every listener of priority `x.priority` or more.
pub open spec fn insert_by_priority(t: Seq<ListenerInfo>, x: ListenerInfo) -> Seq<ListenerInfo> {
    t.insert(first_below(t, x.priority), x)
}

/// The listeners in firing order: by priority, highest first; listeners of
/// equal priority keep the order in which they were registered.
pub open spec fn sort_by_priority(s: Seq<ListenerInfo>) -> Seq<ListenerInfo>
    decreases s.len(),
{
    if s.len() == 0 {
        s
    } else {
        insert_by_priority(sort_by_priority(s.drop_last()), s.last())
    }
}

/// Highest priority first.
pub open spec fn is_sorted_by_priority(s: Seq<ListenerInfo>) -> bool {
    forall|i: int, j: int| 0 <= i < j < s.len() ==> s[i].priority >= s[j].priority
}

/// The listeners of priority `p`, in order.
pub open spec fn with_priority(s: Seq<ListenerInfo>, p: i32) -> Seq<ListenerInfo> {
    s.filter(|l: ListenerInfo| l.priority == p)
}

/// The listeners that stay after an emission: all but the one-shot ones.
pub open spec fn without_once(s: Seq<ListenerInfo>) -> Seq<ListenerInfo> {
    s.filter(|l: ListenerInfo| !l.once)
}

/// The listeners other than the one registered under `key`.
pub open spec fn without_key(s: Seq<ListenerInfo>, key: EventKey) -> Seq<ListenerInfo> {
    s.filter(|l: ListenerInfo| l.id != key)
}

proof fn lemma_first_below(t: Seq<ListenerInfo>, p: i32)
    ensures
        0 <= first_below(t, p) <= t.len(),
        forall|j: int| 0 <= j < first_below(t, p) ==> t[j].priority >= p,
        first_below(t, p) < t.len() ==> t[first_below(t, p)].priority < p,
    decreases t.len(),
{
    if t.len() > 0 && t[0].priority >= p {
        lemma_first_below(t.drop_first(), p);
        assert forall|j: int| 0 <= j < first_below(t, p) implies t[j].priority >= p by {
            if j > 0 {
                assert(t[j] == t.drop_first()[j - 1]);
            }
        }
    }
}

proof fn lemma_insert_sorted(t: Seq<ListenerInfo>, x: ListenerInfo)
    requires
        is_sorted_by_priority(t),
    ensures
        is_sorted_by_priority(insert_by_priority(t, x)),
        insert_by_priority(t, x).len() == t.len() + 1,
        insert_by_priority(t, x).to_multiset() == t.to_multiset().insert(x),
{
    let k = first_below(t, x.priority);
    lemma_first_below(t, x.priority);
    let r = insert_by_priority(t, x);
    t.insert_ensures(k, x);
    assert forall|i: int, j: int| 0 <= i < j < r.len() implies r[i].priority
        >= r[j].priority by {
        if j < k {
        } else if j == k {
        } else if i < k {
            assert(r[j] == t[j - 1]);
            assert(t[i].priority >= t[j - 1].priority);
        } else if i == k {
            assert(r[j] == t[j - 1]);
            assert(t[k].priority < x.priority);
            assert(t[k].priority >= t[j - 1].priority);
        } else {
            assert(r[i] == t[i - 1]);
            assert(r[j] == t[j - 1]);
        }
    }
    vstd::seq_lib::to_multiset_insert(t, k, x);
}

/// The firing order is sorted by priority, highest first, and holds exactly
/// the registered listeners.
pub proof fn lemma_sort_by_priority(s: Seq<ListenerInfo>)
    ensures
        is_sorted_by_priority(sort_by_priority(s)),
        sort_by_priority(s).len() == s.len(),
        sort_by_priority(s).to_multiset() == s.to_multiset(),
    decreases s.len(),
{
    if s.len() > 0 {
        lemma_sort_by_priority(s.drop_last());
        lemma_insert_sorted(sort_by_priority(s.drop_last()), s.last());
        vstd::seq_lib::to_multiset_build(s.drop_last(), s.last());
        assert(s.drop_last().push(s.last()) =~= s);
    } else {
        assert(sort_by_priority(s) =~= s);
    }
}

proof fn lemma_filter_none(s: Seq<ListenerInfo>, pred: spec_fn(ListenerInfo) -> bool)
    requires
        forall|i: int| 0 <= i < s.len() ==> !pred(#[trigger] s[i]),
    ensures
        s.filter(pred) == Seq::<ListenerInfo>::empty(),
    decreases s.len(),
{
    reveal(Seq::filter);
    if s.len() > 0 {
        lemma_filter_none(s.drop_last(), pred);
    }
    assert(s.filter(pred) =~= Seq::<ListenerInfo>::empty());
}

proof fn lemma_filter_push(s: Seq<ListenerInfo>, x: ListenerInfo, pred: spec_fn(ListenerInfo) -> bool)
    ensures
        s.push(x).filter(pred) == if pred(x) {
            s.filter(pred).push(x)
        } else {
            s.filter(pred)
        },
{
    reveal(Seq::filter);
    assert(s.push(x).drop_last() =~= s);
}

proof fn lemma_insert_stable(t: Seq<ListenerInfo>, x: ListenerInfo, p: i32)
    requires
        is_sorted_by_priority(t),
    ensures
        with_priority(insert_by_priority(t, x), p) == if x.priority == p {
            with_priority(t, p).push(x)
        } else {
            with_priority(t, p)
        },
{
    let pred = |l: ListenerInfo| l.priority == p;
    let k = first_below(t, x.priority);
    lemma_first_below(t, x.priority);
    let a = t.subrange(0, k);
    let b = t.subrange(k, t.len() as int);
    assert(t =~= a + b);
    assert(insert_by_priority(t, x) =~= a.push(x) + b);
    Seq::filter_distributes_over_add(a, b, pred);
    Seq::filter_distributes_over_add(a.push(x), b, pred);
    lemma_filter_push(a, x, pred);
    if x.priority == p {
        assert forall|i: int| 0 <= i < b.len() implies !pred(#[trigger] b[i]) by {
            assert(b[i] == t[k + i]);
            if i > 0 {
                assert(t[k].priority >= t[k + i].priority);
            }
        }
        lemma_filter_none(b, pred);
        assert(a.filter(pred).push(x) + b.filter(pred) =~= a.filter(pred).push(x));
        assert(a.filter(pred) + b.filter(pred) =~= a.filter(pred));
    }
}

/// Listeners of equal priority fire in the order in which they were
/// registered.
pub proof fn lemma_sort_stable(s: Seq<ListenerInfo>, p: i32)
    ensures
        with_priority(sort_by_priority(s), p) == with_priority(s, p),
    decreases s.len(),
{
    if s.len() > 0 {
        lemma_sort_stable(s.drop_last(), p);
        lemma_sort_by_priority(s.drop_last());
        lemma_insert_stable(sort_by_priority(s.drop_last()), s.last(), p);
        lemma_filter_push(s.drop_last(), s.last(), |l: ListenerInfo| l.priority == p);
        assert(s.drop_last().push(s.last()) =~= s);
    }
}

/// Listeners already in firing order stay as they are.
pub proof fn lemma_sort_sorted(s: Seq<ListenerInfo>)
    requires
        is_sorted_by_priority(s),
    ensures
        sort_by_priority(s) == s,
    decreases s.len(),
{
    if s.len() > 0 {
        let t = s.drop_last();
        assert(is_sorted_by_priority(t));
        lemma_sort_sorted(t);
        lemma_first_below(t, s.last().priority);
        if first_below(t, s.last().priority) < t.len() {
            assert(t[first_below(t, s.last().priority)].priority >= s.last().priority);
        }
        assert(t.insert(t.len() as int, s.last()) =~= s);
    }
}

proof fn lemma_first_below_at(t: Seq<ListenerInfo>, p: i32, k: int)
    requires
        0 <= k <= t.len(),
        forall|j: int| 0 <= j < k ==> t[j].priority >= p,
        k == t.len() || t[k].priority < p,
    ensures
        first_below(t, p) == k,
    decreases k,
{
    if k > 0 {
        assert forall|j: int| 0 <= j < k - 1 implies t.drop_first()[j].priority >= p by {
            assert(t.drop_first()[j] == t[j + 1]);
        }
        lemma_first_below_at(t.drop_first(), p, k - 1);
    }
}

proof fn lemma_filter_elems(s: Seq<ListenerInfo>, pred: spec_fn(ListenerInfo) -> bool)
    ensures
        forall|i: int|
            0 <= i < s.filter(pred).len() ==> exists|j: int|
                0 <= j < s.len() && #[trigger] s.filter(pred)[i] == s[j],
    decreases s.len(),
{
    reveal(Seq::filter);
    if s.len() > 0 {
        lemma_filter_elems(s.drop_last(), pred);
        let f = s.filter(pred);
        let g = s.drop_last().filter(pred);
        assert forall|i: int| 0 <= i < f.len() implies exists|j: int|
            0 <= j < s.len() && #[trigger] f[i] == s[j] by {
            if i < g.len() {
                assert(f[i] == g[i]);
                let j = choose|j: int| 0 <= j < s.drop_last().len() && g[i] == s.drop_last()[j];
                assert(f[i] == s[j]);
            } else {
                assert(f[i] == s[s.len() - 1]);
            }
        }
    }
}

/// Every key in `s` is below `n`.
pub open spec fn keys_below(s: Seq<ListenerInfo>, n: EventKey) -> bool {
    forall|i: int| 0 <= i < s.len() ==> #[trigger] s[i].id < n
}

proof fn lemma_keys_below_filter(s: Seq<ListenerInfo>, pred: spec_fn(ListenerInfo) -> bool, n: EventKey)
    requires
        keys_below(s, n),
    ensures
        keys_below(s.filter(pred), n),
{
    lemma_filter_elems(s, pred);
    assert forall|i: int| 0 <= i < s.filter(pred).len() implies #[trigger] s.filter(pred)[i].id < n by {
        let j = choose|j: int| 0 <= j < s.len() && #[trigger] s.filter(pred)[i] == s[j];
        assert(s[j].id < n);
    }
}

proof fn lemma_keys_below_sort(s: Seq<ListenerInfo>, n: EventKey)
    requires
        keys_below(s, n),
    ensures
        keys_below(sort_by_priority(s), n),
{
    let t = sort_by_priority(s);
    lemma_sort_by_priority(s);
    assert forall|i: int| 0 <= i < t.len() implies #[trigger] t[i].id < n by {
        let x = t[i];
        vstd::seq_lib::to_multiset_contains(t, x);
        vstd::seq_lib::to_multiset_contains(s, x);
        assert(t.contains(x));
        assert(s.contains(x));
        let j = choose|j: int| 0 <= j < s.len() && s[j] == x;
        assert(s[j].id < n);
    }
}

/// Dropping listeners keeps the others in firing order.
pub proof fn lemma_filter_sorted(s: Seq<ListenerInfo>, pred: spec_fn(ListenerInfo) -> bool)
    requires
        is_sorted_by_priority(s),
    ensures
        is_sorted_by_priority(s.filter(pred)),
    decreases s.len(),
{
    reveal(Seq::filter);
    if s.len() > 0 {
        let t = s.drop_last();
        assert(is_sorted_by_priority(t));
        lemma_filter_sorted(t, pred);
        lemma_filter_elems(t, pred);
        let g = t.filter(pred);
        if pred(s.last()) {
            let f = g.push(s.last());
            assert forall|i: int, j: int| 0 <= i < j < f.len() implies f[i].priority
                >= f[j].priority by {
                if j == f.len() - 1 {
                    let k = choose|k: int| 0 <= k < t.len() && g[i] == t[k];
                    assert(f[i] == s[k]);
                    assert(f[j] == s[s.len() - 1]);
                } else {
                    assert(f[i] == g[i]);
                    assert(f[j] == g[j]);
                }
            }
        }
    }
}

/// A stored listener callback.
trait EventCallback<E> {
    /// Whether the callback has been called with `event` as call number
    /// `step` of an emission.
    spec fn heard(&self, event: &E, step: nat) -> bool;

    fn invoke(&self, event: &E, step: Ghost<nat>)
        ensures
            self.heard(event, step@),
    ;
}

struct ClosureCallback<E, F: Fn(&E)> {
    f: F,
    marker: PhantomData<E>,
}

impl<E, F: Fn(&E)> ClosureCallback<E, F> {
    #[verifier::type_invariant]
    closed spec fn callable(self) -> bool {
        forall|e: &E| call_requires(self.f, (e,))
    }
}

impl<E, F: Fn(&E)> EventCallback<E> for ClosureCallback<E, F> {
    /// Whether the closure has been called with `event`; a closure keeps no
    /// count of its calls.
    closed spec fn heard(&self, event: &E, step: nat) -> bool {
        call_ensures(self.f, (event,), ())
    }

    fn invoke(&self, event: &E, step: Ghost<nat>) {
        proof {
            use_type_invariant(self);
        }
        (self.f)(event);
    }
}

#[verifier::reject_recursive_types(E)]
struct Listener<E> {
    id: EventKey,
    priority: i32,
    once: bool,
    callback: Box<dyn EventCallback<E>>,
}

impl<E> Listener<E> {
    spec fn info(self) -> ListenerInfo {
        ListenerInfo { id: self.id, priority: self.priority, once: self.once }
    }

}

/// The listener `id` holding callback `c` as a trait object: std
/// `Box::new`, then the unsizing coercion. A call through the trait object
/// dispatches to `c`'s own `invoke`.
#[verifier::external_body]
fn boxed_listener<E: 'static, C: EventCallback<E> + 'static>(id: EventKey, priority: i32, once: bool, c: C) -> (r: Listener<E>)
    ensures
        r.info() == (ListenerInfo { id, priority, once }),
        forall|e: &E, n: nat| #[trigger] r.callback.heard(e, n) == c.heard(e, n),
{
    Listener { id, priority, once, callback: Box::new(c) }
}

spec fn infos<E>(v: Seq<Listener<E>>) -> Seq<ListenerInfo> {
    v.map_values(|l: Listener<E>| l.info())
}

/// Every listener of `from` is in `to`.
spec fn covers<E>(to: Seq<Listener<E>>, from: Seq<Listener<E>>) -> bool {
    forall|k: int|
        #![trigger from[k]]
        0 <= k < from.len() ==> exists|j: int| #![trigger to[j]] 0 <= j < to.len() && to[j] == from[k]
}

spec fn seq_key_heard<E>(ls: Seq<Listener<E>>, key: EventKey, event: &E) -> bool {
    forall|i: int|
        0 <= i < ls.len() && #[trigger] ls[i].id == key ==> exists|n: nat| #[trigger] ls[i].callback.heard(event, n)
}

spec fn seq_key_heard_at<E>(ls: Seq<Listener<E>>, key: EventKey, event: &E, step: nat) -> bool {
    exists|i: int| 0 <= i < ls.len() && ls[i].id == key && #[trigger] ls[i].callback.heard(event, step)
}

/// When the listeners of `ol`, reordered as `order`, were called in that
/// order, every listener of `ol` heard the event, and the one at firing
/// position `j` heard it as call number `j`.
proof fn lemma_called_in_order<E>(ol: Seq<Listener<E>>, order: Seq<Listener<E>>, event: &E)
    requires
        order == ol || (covers(order, ol) && covers(ol, order)),
        forall|j: int| 0 <= j < order.len() ==> #[trigger] order[j].callback.heard(event, j as nat),
    ensures
        forall|k: EventKey| #[trigger] seq_key_heard(ol, k, event),
        forall|j: int| 0 <= j < order.len() ==> #[trigger] seq_key_heard_at(ol, infos(order)[j].id, event, j as nat),
{
    assert forall|k: EventKey| #[trigger] seq_key_heard(ol, k, event) by {
        assert forall|m: int| 0 <= m < ol.len() && #[trigger] ol[m].id == k implies exists|n: nat|
            #[trigger] ol[m].callback.heard(event, n) by {
            if order == ol {
                assert(order[m].callback.heard(event, m as nat));
            } else {
                let j = choose|j: int| #![trigger order[j]] 0 <= j < order.len() && order[j] == ol[m];
                assert(order[j].callback.heard(event, j as nat));
            }
        }
    }
    assert forall|j: int| 0 <= j < order.len() implies #[trigger] seq_key_heard_at(ol, infos(order)[j].id, event, j as nat) by {
        assert(infos(order)[j] == order[j].info());
        assert(order[j].callback.heard(event, j as nat));
        if order == ol {
            assert(ol[j].callback.heard(event, j as nat));
        } else {
            let m = choose|m: int| #![trigger ol[m]] 0 <= m < ol.len() && order[j] == ol[m];
            assert(ol[m].callback.heard(event, j as nat));
        }
    }
}

/// The listeners of `v` reordered into firing order.
fn sorted_listeners<E>(v: Vec<Listener<E>>, Ghost(given): Ghost<Seq<Listener<E>>>) -> (r: Vec<Listener<E>>)
    requires
        v@ == given,
    ensures
        infos(r@) == sort_by_priority(infos(given)),
        forall|k: int|
            #![trigger given[k]]
            0 <= k < given.len() ==> exists|j: int| #![trigger r@[j]] 0 <= j < r@.len() && r@[j] == given[k],
        covers(given, r@),
{
    let ghost orig = infos(v@);
    let ghost objs = v@;
    let mut v = v;
    let mut r: Vec<Listener<E>> = Vec::new();
    let total = v.len();
    let mut i: usize = 0;
    let ghost mut src: Seq<int> = Seq::empty();
    assert(orig.take(0) =~= Seq::<ListenerInfo>::empty());
    assert(infos(r@) =~= Seq::<ListenerInfo>::empty());
    assert(infos(v@) =~= orig.skip(0));
    while v.len() > 0
        invariant
            i + v@.len() == orig.len(),
            orig.len() == total,
            infos(v@) == orig.skip(i as int),
            infos(r@) == sort_by_priority(orig.take(i as int)),
            r@.len() == i,
            objs.len() == total,
            forall|j: int| 0 <= j < v@.len() ==> v@[j] == objs[i + j],
            forall|k: int|
                #![trigger objs[k]]
                0 <= k < i ==> exists|j: int| #![trigger r@[j]] 0 <= j < r@.len() && r@[j] == objs[k],
            src.len() == r@.len(),
            forall|j: int| 0 <= j < r@.len() ==> 0 <= #[trigger] src[j] < i && r@[j] == objs[src[j]],
        decreases v@.len(),
    {
        let ghost old_v = v@;
        let ghost old_r = r@;
        let x = v.remove(0);
        assert(x.info() == orig[i as int]) by {
            assert(infos(old_v)[0] == orig.skip(i as int)[0]);
        }
        assert(infos(v@) =~= orig.skip(i + 1)) by {
            assert forall|j: int| 0 <= j < v@.len() implies infos(v@)[j] == orig.skip(i + 1)[j] by {
                assert(v@[j] == old_v[j + 1]);
                assert(infos(old_v)[j + 1] == orig.skip(i as int)[j + 1]);
            }
        }
        let p = x.priority;
        let mut k: usize = 0;
        while k < r.len() && r[k].priority >= p
            invariant
                k <= r@.len(),
                r@ == old_r,
                forall|j: int| 0 <= j < k ==> infos(r@)[j].priority >= p,
            decreases r@.len() - k,
        {
            k = k + 1;
        }
        proof {
            lemma_first_below_at(infos(old_r), p, k as int);
        }
        assert(x == objs[i as int]);
        r.insert(k, x);
        proof {
            assert(r@ =~= old_r.insert(k as int, x));
            assert forall|j: int| 0 <= j < v@.len() implies v@[j] == objs[i + 1 + j] by {
                assert(v@[j] == old_v[j + 1]);
            }
            assert forall|m: int| #![trigger objs[m]] 0 <= m < i + 1 implies exists|j: int| #![trigger r@[j]] 0 <= j < r@.len() && r@[j] == objs[m] by {
                if m == i {
                    assert(r@[k as int] == objs[m]);
                } else {
                    assert(objs[m] == objs[m]);
                    let j0 = choose|j: int| 0 <= j < old_r.len() && old_r[j] == objs[m];
                    if j0 < k {
                        assert(r@[j0] == objs[m]);
                    } else {
                        assert(r@[j0 + 1] == objs[m]);
                    }
                }
            }
            src = src.insert(k as int, i as int);
            assert forall|j: int| 0 <= j < r@.len() implies 0 <= #[trigger] src[j] < i + 1 && r@[j] == objs[src[j]] by {
                if j < k {
                    assert(r@[j] == old_r[j]);
                } else if j > k {
                    assert(r@[j] == old_r[j - 1]);
                }
            }
            let t = infos(old_r);
            assert(infos(r@) =~= t.insert(k as int, x.info())) by {
                assert(r@ =~= old_r.insert(k as int, x));
                t.insert_ensures(k as int, x.info());
                old_r.insert_ensures(k as int, x);
            }
            assert(orig.take(i + 1).drop_last() =~= orig.take(i as int));
        }
        i = i + 1;
    }
    assert(orig.take(i as int) =~= orig);
    assert forall|j: int| #![trigger r@[j]] 0 <= j < r@.len() implies exists|k: int|
        #![trigger given[k]] 0 <= k < given.len() && given[k] == r@[j] by {
        assert(given[src[j]] == r@[j]);
    }
    r
}

/// The listeners of `v` other than the one-shot ones, in order.
fn drop_once_listeners<E>(v: Vec<Listener<E>>) -> (r: Vec<Listener<E>>)
    ensures
        infos(r@) == without_once(infos(v@)),
{
    let ghost orig = infos(v@);
    let ghost pred = |l: ListenerInfo| !l.once;
    let mut v = v;
    let mut r: Vec<Listener<E>> = Vec::new();
    let total = v.len();
    let mut i: usize = 0;
    proof {
        reveal(Seq::filter);
    }
    assert(orig.take(0) =~= Seq::<ListenerInfo>::empty());
    assert(infos(r@) =~= Seq::<ListenerInfo>::empty());
    assert(infos(v@) =~= orig.skip(0));
    while v.len() > 0
        invariant
            i + v@.len() == orig.len(),
            orig.len() == total,
            infos(v@) == orig.skip(i as int),
            infos(r@) == orig.take(i as int).filter(pred),
            pred == (|l: ListenerInfo| !l.once),
        decreases v@.len(),
    {
        let ghost old_v = v@;
        let ghost old_r = r@;
        let x = v.remove(0);
        assert(x.info() == orig[i as int]) by {
            assert(infos(old_v)[0] == orig.skip(i as int)[0]);
        }
        assert(infos(v@) =~= orig.skip(i + 1)) by {
            assert forall|j: int| 0 <= j < v@.len() implies infos(v@)[j] == orig.skip(i + 1)[j] by {
                assert(v@[j] == old_v[j + 1]);
                assert(infos(old_v)[j + 1] == orig.skip(i as int)[j + 1]);
            }
        }
        proof {
            lemma_filter_push(orig.take(i as int), x.info(), pred);
            assert(orig.take(i + 1) =~= orig.take(i as int).push(x.info()));
        }
        if !x.once {
            r.push(x);
            assert(infos(r@) =~= infos(old_r).push(x.info()));
        }
        i = i + 1;
    }
    assert(orig.take(i as int) =~= orig);
    r
}

/// The listeners of `v` other than the one registered under `key`, in order.
fn drop_keyed_listener<E>(v: Vec<Listener<E>>, key: EventKey) -> (r: Vec<Listener<E>>)
    ensures
        infos(r@) == without_key(infos(v@), key),
{
    let ghost orig = infos(v@);
    let ghost pred = |l: ListenerInfo| l.id != key;
    let mut v = v;
    let mut r: Vec<Listener<E>> = Vec::new();
    let total = v.len();
    let mut i: usize = 0;
    proof {
        reveal(Seq::filter);
    }
    assert(orig.take(0) =~= Seq::<ListenerInfo>::empty());
    assert(infos(r@) =~= Seq::<ListenerInfo>::empty());
    assert(infos(v@) =~= orig.skip(0));
    while v.len() > 0
        invariant
            i + v@.len() == orig.len(),
            orig.len() == total,
            infos(v@) == orig.skip(i as int),
            infos(r@) == orig.take(i as int).filter(pred),
            pred == (|l: ListenerInfo| l.id != key),
        decreases v@.len(),
    {
        let ghost old_v = v@;
        let ghost old_r = r@;
        let x = v.remove(0);
        assert(x.info() == orig[i as int]) by {
            assert(infos(old_v)[0] == orig.skip(i as int)[0]);
        }
        assert(infos(v@) =~= orig.skip(i + 1)) by {
            assert forall|j: int| 0 <= j < v@.len() implies infos(v@)[j] == orig.skip(i + 1)[j] by {
                assert(v@[j] == old_v[j + 1]);
                assert(infos(old_v)[j + 1] == orig.skip(i as int)[j + 1]);
            }
        }
        proof {
            lemma_filter_push(orig.take(i as int), x.info(), pred);
            assert(orig.take(i + 1) =~= orig.take(i as int).push(x.info()));
        }
        if x.id != key {
            r.push(x);
            assert(infos(r@) =~= infos(old_r).push(x.info()));
        }
        i = i + 1;
    }
    assert(orig.take(i as int) =~= orig);
    r
}

/// The abstract state of an [`EventTarget`]: its listeners in their stored
/// order, whether that order still has to be sorted before the next
/// emission, and the key the next listener gets.
pub struct EventTargetView {
    pub listeners: Seq<ListenerInfo>,
    pub needs_sort: bool,
    pub next_key: EventKey,
}

/// The order in which the next emission calls the listeners.
pub open spec fn firing_order(v: EventTargetView) -> Seq<ListenerInfo> {
    if v.needs_sort {
        sort_by_priority(v.listeners)
    } else {
        v.listeners
    }
}

/// Listeners of one event type, called by priority, highest first.
#[verifier::reject_recursive_types(E)]
pub struct EventTarget<E: Clone + PartialEq + 'static> {
    listeners: Vec<Listener<E>>,
    dirty: bool,
    next_id: EventKey,
}

impl<E: Clone + PartialEq + 'static> View for EventTarget<E> {
    type V = EventTargetView;

    closed spec fn view(&self) -> EventTargetView {
        EventTargetView { listeners: infos(self.listeners@), needs_sort: self.dirty, next_key: self.next_id }
    }
}

impl<E: Clone + PartialEq + 'static> EventTarget<E> {
    /// Well-formedness: unless a sort is pending, the listeners are in firing order.
    pub closed spec fn wf(&self) -> bool {
        &&& !self.dirty ==> is_sorted_by_priority(infos(self.listeners@))
        &&& keys_below(self@.listeners, self@.next_key)
    }

    /// Whether every listener registered under `key` has been called with
    /// `event`.
    pub closed spec fn key_heard(&self, key: EventKey, event: &E) -> bool {
        seq_key_heard(self.listeners@, key, event)
    }

    /// Whether a listener registered under `key` has been called with
    /// `event` as call number `step` of an emission.
    pub closed spec fn key_heard_at(&self, key: EventKey, event: &E, step: nat) -> bool {
        seq_key_heard_at(self.listeners@, key, event, step)
    }

    pub fn new() -> (r: Self)
        ensures
            r.wf(),
            r@.listeners.len() == 0,
            !r@.needs_sort,
            r@.next_key == 1,
    {
        let r = EventTarget { listeners: Vec::new(), dirty: false, next_id: 1 };
        assert(r@.listeners =~= Seq::<ListenerInfo>::empty());
        r
    }

    fn add<C: EventCallback<E> + 'static>(&mut self, callback: C, priority: i32, once: bool) -> (r: EventKey)
        requires
            old(self).wf(),
            old(self)@.next_key < u64::MAX,
        ensures
            forall|e: &E| #[trigger] final(self).key_heard(r, e) ==> exists|n: nat| #[trigger] callback.heard(e, n),
            forall|k: EventKey, e: &E| k != r ==> #[trigger] final(self).key_heard(k, e) == old(self).key_heard(k, e),
            forall|e: &E, n: nat| #[trigger] final(self).key_heard_at(r, e, n) ==> callback.heard(e, n),
            forall|k: EventKey, e: &E, n: nat| k != r ==> #[trigger] final(self).key_heard_at(k, e, n) == old(self).key_heard_at(k, e, n),
            final(self).wf(),
            r == old(self)@.next_key,
            final(self)@ == (EventTargetView {
                listeners: old(self)@.listeners.push(ListenerInfo { id: r, priority, once }),
                needs_sort: true,
                next_key: (r + 1) as u64,
            }),
    {
        let id = self.next_id;
        let ghost old_l = self.listeners@;
        let l = boxed_listener(id, priority, once, callback);
        let ghost lg = l;
        self.listeners.push(l);
        self.dirty = true;
        self.next_id = id + 1;
        assert(infos(self.listeners@) =~= infos(old_l).push(lg.info()));
        proof {
            let n = old_l.len() as int;
            assert(self.listeners@[n] == lg);
            assert forall|e: &E| #[trigger] self.key_heard(id, e) implies exists|m: nat| #[trigger] callback.heard(e, m) by {
                assert(self.listeners@[n].id == id);
                let m = choose|m: nat| #[trigger] self.listeners@[n].callback.heard(e, m);
                assert(callback.heard(e, m));
            }
            assert forall|k: EventKey, e: &E| k != id implies #[trigger] self.key_heard(k, e) == old(self).key_heard(k, e) by {
                assert forall|i: int| 0 <= i < old_l.len() implies self.listeners@[i] == old_l[i] by {}
            }
            assert forall|e: &E, m: nat| #[trigger] self.key_heard_at(id, e, m) implies callback.heard(e, m) by {
                let i = choose|i: int|
                    0 <= i < self.listeners@.len() && self.listeners@[i].id == id && #[trigger] self.listeners@[i].callback.heard(e, m);
                if i < n {
                    assert(infos(old_l)[i] == old_l[i].info());
                    assert(old(self)@.listeners[i].id < old(self)@.next_key);
                    assert(old_l[i].id < id);
                }
            }
            assert forall|k: EventKey, e: &E, m: nat| k != id implies #[trigger] self.key_heard_at(k, e, m) == old(self).key_heard_at(k, e, m) by {
                if self.key_heard_at(k, e, m) {
                    let i = choose|i: int|
                        0 <= i < self.listeners@.len() && self.listeners@[i].id == k && #[trigger] self.listeners@[i].callback.heard(e, m);
                    assert(old_l[i] == self.listeners@[i]);
                }
                if old(self).key_heard_at(k, e, m) {
                    let i = choose|i: int|
                        0 <= i < old_l.len() && old_l[i].id == k && #[trigger] old_l[i].callback.heard(e, m);
                    assert(old_l[i] == self.listeners@[i]);
                }
            }
        }
        id
    }

    /// Registers `callback` with priority 0; returns its key.
    pub fn on<F: Fn(&E) + Send + Sync + 'static>(&mut self, callback: F) -> (r: EventKey)
        requires
            old(self).wf(),
            old(self)@.next_key < u64::MAX,
            forall|e: &E| call_requires(callback, (e,)),
        ensures
            forall|e: &E| #[trigger] final(self).key_heard(r, e) ==> call_ensures(callback, (e,), ()),
            forall|k: EventKey, e: &E| k != r ==> #[trigger] final(self).key_heard(k, e) == old(self).key_heard(k, e),
            forall|e: &E, n: nat| #[trigger] final(self).key_heard_at(r, e, n) ==> call_ensures(callback, (e,), ()),
            forall|k: EventKey, e: &E, n: nat| k != r ==> #[trigger] final(self).key_heard_at(k, e, n) == old(self).key_heard_at(k, e, n),
            final(self).wf(),
            r == old(self)@.next_key,
            final(self)@ == (EventTargetView {
                listeners: old(self)@.listeners.push(ListenerInfo { id: r, priority: 0, once: false }),
                needs_sort: true,
                next_key: (r + 1) as u64,
            }),
    {
        self.on_with_priority(callback, 0)
    }

    /// Registers `callback` with the given priority (higher fires first);
    /// returns its key.
    pub fn on_with_priority<F: Fn(&E) + Send + Sync + 'static>(&mut self, callback: F, priority: i32) -> (r: EventKey)
        requires
            old(self).wf(),
            old(self)@.next_key < u64::MAX,
            forall|e: &E| call_requires(callback, (e,)),
        ensures
            forall|e: &E| #[trigger] final(self).key_heard(r, e) ==> call_ensures(callback, (e,), ()),
            forall|k: EventKey, e: &E| k != r ==> #[trigger] final(self).key_heard(k, e) == old(self).key_heard(k, e),
            forall|e: &E, n: nat| #[trigger] final(self).key_heard_at(r, e, n) ==> call_ensures(callback, (e,), ()),
            forall|k: EventKey, e: &E, n: nat| k != r ==> #[trigger] final(self).key_heard_at(k, e, n) == old(self).key_heard_at(k, e, n),
            final(self).wf(),
            r == old(self)@.next_key,
            final(self)@ == (EventTargetView {
                listeners: old(self)@.listeners.push(ListenerInfo { id: r, priority, once: false }),
                needs_sort: true,
                next_key: (r + 1) as u64,
            }),
    {
        let cb = ClosureCallback { f: callback, marker: PhantomData };
        proof {
            assert(cb.f == callback);
            assert forall|e: &E, n: nat| #[trigger] cb.heard(e, n) == call_ensures(callback, (e,), ()) by {
                assert(cb.heard(e, n) == call_ensures(cb.f, (e,), ()));
            }
        }
        self.add(cb, priority, false)
    }

    /// Registers `callback` with priority 0 for the next emission only;
    /// returns its key.
    pub fn once<F: Fn(&E) + Send + Sync + 'static>(&mut self, callback: F) -> (r: EventKey)
        requires
            old(self).wf(),
            old(self)@.next_key < u64::MAX,
            forall|e: &E| call_requires(callback, (e,)),
        ensures
            forall|e: &E| #[trigger] final(self).key_heard(r, e) ==> call_ensures(callback, (e,), ()),
            forall|k: EventKey, e: &E| k != r ==> #[trigger] final(self).key_heard(k, e) == old(self).key_heard(k, e),
            forall|e: &E, n: nat| #[trigger] final(self).key_heard_at(r, e, n) ==> call_ensures(callback, (e,), ()),
            forall|k: EventKey, e: &E, n: nat| k != r ==> #[trigger] final(self).key_heard_at(k, e, n) == old(self).key_heard_at(k, e, n),
            final(self).wf(),
            r == old(self)@.next_key,
            final(self)@ == (EventTargetView {
                listeners: old(self)@.listeners.push(ListenerInfo { id: r, priority: 0, once: true }),
                needs_sort: true,
                next_key: (r + 1) as u64,
            }),
    {
        let cb = ClosureCallback { f: callback, marker: PhantomData };
        proof {
            assert(cb.f == callback);
            assert forall|e: &E, n: nat| #[trigger] cb.heard(e, n) == call_ensures(callback, (e,), ()) by {
                assert(cb.heard(e, n) == call_ensures(cb.f, (e,), ()));
            }
        }
        self.add(cb, 0, true)
    }

    /// Removes the listener registered under `key`, if any.
    pub fn off(&mut self, key: EventKey)
        requires
            old(self).wf(),
        ensures
            final(self).wf(),
            final(self)@ == (EventTargetView {
                listeners: without_key(old(self)@.listeners, key),
                ..old(self)@
            }),
    {
        let mut v: Vec<Listener<E>> = Vec::new();
        std::mem::swap(&mut v, &mut self.listeners);
        self.listeners = drop_keyed_listener(v, key);
        proof {
            if !self.dirty {
                lemma_filter_sorted(old(self)@.listeners, |l: ListenerInfo| l.id != key);
            }
            lemma_keys_below_filter(old(self)@.listeners, |l: ListenerInfo| l.id != key, old(self)@.next_key);
        }
    }

    /// Removes every listener.
    pub fn off_all(&mut self)
        ensures
            final(self).wf(),
            final(self)@ == (EventTargetView {
                listeners: Seq::empty(),
                needs_sort: false,
                ..old(self)@
            }),
    {
        self.listeners.clear();
        self.dirty = false;
        assert(infos(self.listeners@) =~= Seq::<ListenerInfo>::empty());
    }

    /// Calls every listener with `event` in firing order, then removes the
    /// one-shot listeners.
    #[verifier::spinoff_prover]
    #[verifier::rlimit(20)]
    pub fn emit(&mut self, event: &E)
        requires
            old(self).wf(),
        ensures
            final(self).wf(),
            final(self)@ == (EventTargetView {
                listeners: without_once(firing_order(old(self)@)),
                needs_sort: false,
                next_key: old(self)@.next_key,
            }),
            forall|k: EventKey| #[trigger] old(self).key_heard(k, event),
            forall|j: int|
                0 <= j < firing_order(old(self)@).len() ==> #[trigger] old(self).key_heard_at(
                    firing_order(old(self)@)[j].id,
                    event,
                    j as nat,
                ),
    {
        let ghost ol = self.listeners@;
        if self.dirty {
            let mut v: Vec<Listener<E>> = Vec::new();
            std::mem::swap(&mut v, &mut self.listeners);
            assert(v@ == old(self).listeners@);
            let ghost vv = v@;
            let sorted = sorted_listeners(v, Ghost(vv));
            proof {
                assert(vv == ol);
                assert(covers(sorted@, ol));
                assert(covers(ol, sorted@));
            }
            let ghost sg = sorted@;
            self.listeners = sorted;
            self.dirty = false;
            assert(self.listeners@ == sg);
            proof {
                lemma_sort_by_priority(old(self)@.listeners);
            }
        }
        let ghost order = self.listeners@;
        assert(order == ol || (covers(order, ol) && covers(ol, order)));
        let mut i: usize = 0;
        while i < self.listeners.len()
            invariant
                self.listeners@ == order,
                i <= order.len(),
                forall|j: int| 0 <= j < i ==> #[trigger] order[j].callback.heard(event, j as nat),
            decreases order.len() - i,
        {
            self.listeners[i].callback.invoke(event, Ghost(i as nat));
            i = i + 1;
        }
        proof {
            lemma_called_in_order(ol, order, event);
            assert(infos(order) == firing_order(old(self)@));
            assert forall|j: int| 0 <= j < firing_order(old(self)@).len() implies #[trigger] old(self).key_heard_at(
                firing_order(old(self)@)[j].id,
                event,
                j as nat,
            ) by {
                assert(seq_key_heard_at(ol, infos(order)[j].id, event, j as nat));
            }
            assert forall|k: EventKey| #[trigger] old(self).key_heard(k, event) by {
                assert(seq_key_heard(ol, k, event));
            }
        }
        let mut v: Vec<Listener<E>> = Vec::new();
        std::mem::swap(&mut v, &mut self.listeners);
        self.listeners = drop_once_listeners(v);
        proof {
            lemma_filter_sorted(infos(order), |l: ListenerInfo| !l.once);
            if old(self).dirty {
                lemma_keys_below_sort(old(self)@.listeners, old(self)@.next_key);
            }
            lemma_keys_below_filter(firing_order(old(self)@), |l: ListenerInfo| !l.once, old(self)@.next_key);
        }
    }

    pub fn has_listeners(&self) -> (r: bool)
        ensures
            r == (self@.listeners.len() > 0),
    {
        self.listeners.len() > 0
    }

    pub fn listener_count(&self) -> (r: usize)
        ensures
            r == self@.listeners.len(),
    {
        self.listeners.len()
    }
}

impl<E: Clone + PartialEq + 'static> Default for EventTarget<E> {
    fn default() -> (r: Self)
        ensures
            r.wf(),
            r@.listeners.len() == 0,
            !r@.needs_sort,
            r@.next_key == 1,
    {
        Self::new()
    }
}

/// Listeners always fire in priority order, highest first, those of equal
/// priority in the order in which they were registered: the next emission's
/// order is the stable priority sort of the stored listeners.
pub proof fn lemma_firing_order_is_priority_sort<E: Clone + PartialEq + 'static>(t: &EventTarget<E>)
    requires
        t.wf(),
    ensures
        firing_order(t@) == sort_by_priority(t@.listeners),
        is_sorted_by_priority(firing_order(t@)),
        forall|p: i32| #[trigger] with_priority(firing_order(t@), p) == with_priority(t@.listeners, p),
{
    if !t@.needs_sort {
        lemma_sort_sorted(t@.listeners);
    }
    lemma_sort_by_priority(t@.listeners);
    assert forall|p: i32| #[trigger] with_priority(firing_order(t@), p) == with_priority(
        t@.listeners,
        p,
    ) by {
        lemma_sort_stable(t@.listeners, p);
    }
}

/// Event targets kept by name.
pub struct TypedEventBus<T> {
    targets: StrMap<T>,
}

impl<T> View for TypedEventBus<T> {
    type V = Map<Seq<char>, T>;

    closed spec fn view(&self) -> Map<Seq<char>, T> {
        self.targets@
    }
}

impl<T> TypedEventBus<T> {
    /// A bus without targets.
    pub fn new() -> (r: Self)
        ensures
            r@ == Map::<Seq<char>, T>::empty(),
    {
        TypedEventBus { targets: StrMap::new() }
    }
}

impl<T> Default for TypedEventBus<T> {
    fn default() -> (r: Self)
        ensures
            r@ == Map::<Seq<char>, T>::empty(),
    {
        Self::new()
    }
}

} // verus!

use vstd::prelude::*;

use super::text::{lemma_lex_total, lemma_lex_trans, lex_lt, lex_sorted, names_of, str_eq, str_lt};

verus! {

broadcast use vstd::string::group_string_axioms;

/// The map holding, for each key, the value of its last pair.
pub open spec fn map_of<V>(p: Seq<(Seq<char>, V)>) -> Map<Seq<char>, V>
    decreases p.len(),
{
    if p.len() == 0 {
        Map::empty()
    } else {
        map_of(p.drop_last()).insert(p.last().0, p.last().1)
    }
}

/// No key occurs twice.
pub open spec fn keys_unique<V>(p: Seq<(Seq<char>, V)>) -> bool {
    forall|i: int, j: int| 0 <= i < j < p.len() ==> p[i].0 != p[j].0
}

/// How many pairs have a value satisfying `pred`.
pub open spec fn count_values<V>(p: Seq<(Seq<char>, V)>, pred: spec_fn(V) -> bool) -> nat
    decreases p.len(),
{
    if p.len() == 0 {
        0
    } else {
        count_values(p.drop_last(), pred) + if pred(p.last().1) {
            1nat
        } else {
            0nat
        }
    }
}

/// The keys of `m` whose value satisfies `pred`.
pub open spec fn keys_where<V>(m: Map<Seq<char>, V>, pred: spec_fn(V) -> bool) -> Set<Seq<char>> {
    m.dom().filter(|k: Seq<char>| pred(m[k]))
}

/// With distinct keys, the map holds exactly the pairs.
pub proof fn lemma_map_of<V>(p: Seq<(Seq<char>, V)>)
    requires
        keys_unique(p),
    ensures
        map_of(p).dom().finite(),
        map_of(p).dom().len() == p.len(),
        forall|k: Seq<char>|
            #[trigger] map_of(p).dom().contains(k) <==> exists|i: int| 0 <= i < p.len() && p[i].0 == k,
        forall|i: int| 0 <= i < p.len() ==> #[trigger] map_of(p)[p[i].0] == p[i].1,
    decreases p.len(),
{
    if p.len() > 0 {
        let q = p.drop_last();
        assert(keys_unique(q));
        lemma_map_of(q);
        let k = p.last().0;
        assert(!map_of(q).dom().contains(k)) by {
            if map_of(q).dom().contains(k) {
                let i = choose|i: int| 0 <= i < q.len() && q[i].0 == k;
                assert(p[i].0 == p[p.len() - 1].0);
            }
        }
        assert forall|kk: Seq<char>| #[trigger] map_of(p).dom().contains(kk) <==> exists|i: int|
            0 <= i < p.len() && p[i].0 == kk by {
            if map_of(p).dom().contains(kk) && kk != k {
                let i = choose|i: int| 0 <= i < q.len() && q[i].0 == kk;
                assert(p[i].0 == kk);
            }
            if exists|i: int| 0 <= i < p.len() && p[i].0 == kk {
                let i = choose|i: int| 0 <= i < p.len() && p[i].0 == kk;
                if i < q.len() {
                    assert(q[i].0 == kk);
                }
            }
        }
        assert forall|i: int| 0 <= i < p.len() implies #[trigger] map_of(p)[p[i].0] == p[i].1 by {
            if i < q.len() {
                assert(q[i] == p[i]);
                assert(p[i].0 != k);
            }
        }
    }
}

/// Two pair sequences with distinct keys that hold the same pairs at the
/// positions of one key give the same map, key by key.
proof fn lemma_map_of_ext<V>(p: Seq<(Seq<char>, V)>, m: Map<Seq<char>, V>)
    requires
        keys_unique(p),
        forall|k: Seq<char>| #[trigger] m.dom().contains(k) <==> exists|i: int| 0 <= i < p.len() && p[i].0 == k,
        forall|i: int| 0 <= i < p.len() ==> #[trigger] m[p[i].0] == p[i].1,
    ensures
        map_of(p) == m,
{
    lemma_map_of(p);
    assert forall|k: Seq<char>| #[trigger] map_of(p).dom().contains(k) implies map_of(p)[k] == m[k] by {
        let i = choose|i: int| 0 <= i < p.len() && p[i].0 == k;
    }
    assert(map_of(p) =~= m);
}

/// Counting the pairs whose value satisfies `pred` counts the keys of the map
/// whose value does.
pub proof fn lemma_count_values<V>(p: Seq<(Seq<char>, V)>, pred: spec_fn(V) -> bool)
    requires
        keys_unique(p),
    ensures
        keys_where(map_of(p), pred).finite(),
        count_values(p, pred) == keys_where(map_of(p), pred).len(),
    decreases p.len(),
{
    lemma_map_of(p);
    if p.len() == 0 {
        assert(keys_where(map_of(p), pred) =~= Set::<Seq<char>>::empty());
    } else {
        let q = p.drop_last();
        assert(keys_unique(q));
        lemma_count_values(q, pred);
        lemma_map_of(q);
        let k = p.last().0;
        let v = p.last().1;
        assert(!map_of(q).dom().contains(k)) by {
            if map_of(q).dom().contains(k) {
                let i = choose|i: int| 0 <= i < q.len() && q[i].0 == k;
                assert(p[i].0 == p[p.len() - 1].0);
            }
        }
        let s = keys_where(map_of(q), pred);
        if pred(v) {
            assert(keys_where(map_of(p), pred) =~= s.insert(k));
        } else {
            assert(keys_where(map_of(p), pred) =~= s);
        }
    }
}

/// Updating the value at one position updates the map at that key.
pub proof fn lemma_map_of_update<V>(p: Seq<(Seq<char>, V)>, i: int, v: V)
    requires
        keys_unique(p),
        0 <= i < p.len(),
    ensures
        keys_unique(p.update(i, (p[i].0, v))),
        map_of(p.update(i, (p[i].0, v))) == map_of(p).insert(p[i].0, v),
{
    let q = p.update(i, (p[i].0, v));
    assert(keys_unique(q)) by {
        assert forall|a: int, b: int| 0 <= a < b < q.len() implies q[a].0 != q[b].0 by {
            assert(q[a].0 == p[a].0);
            assert(q[b].0 == p[b].0);
        }
    }
    lemma_map_of(p);
    let m = map_of(p).insert(p[i].0, v);
    assert forall|k: Seq<char>| #[trigger] m.dom().contains(k) <==> exists|j: int|
        0 <= j < q.len() && q[j].0 == k by {
        if m.dom().contains(k) {
            let j = if k == p[i].0 {
                i
            } else {
                choose|j: int| 0 <= j < p.len() && p[j].0 == k
            };
            assert(q[j].0 == k);
        }
        if exists|j: int| 0 <= j < q.len() && q[j].0 == k {
            let j = choose|j: int| 0 <= j < q.len() && q[j].0 == k;
            assert(p[j].0 == k);
        }
    }
    assert forall|j: int| 0 <= j < q.len() implies #[trigger] m[q[j].0] == q[j].1 by {
        if j != i {
            assert(p[j].0 != p[i].0);
        }
    }
    lemma_map_of_ext(q, m);
}

/// Removing the pair at one position removes its key from the map.
pub proof fn lemma_map_of_remove<V>(p: Seq<(Seq<char>, V)>, i: int)
    requires
        keys_unique(p),
        0 <= i < p.len(),
    ensures
        keys_unique(p.remove(i)),
        map_of(p.remove(i)) == map_of(p).remove(p[i].0),
{
    let q = p.remove(i);
    p.remove_ensures(i);
    assert(keys_unique(q)) by {
        assert forall|a: int, b: int| 0 <= a < b < q.len() implies q[a].0 != q[b].0 by {
            let a2 = if a < i {
                a
            } else {
                a + 1
            };
            let b2 = if b < i {
                b
            } else {
                b + 1
            };
            assert(q[a] == p[a2]);
            assert(q[b] == p[b2]);
        }
    }
    lemma_map_of(p);
    let m = map_of(p).remove(p[i].0);
    assert forall|k: Seq<char>| #[trigger] m.dom().contains(k) <==> exists|j: int|
        0 <= j < q.len() && q[j].0 == k by {
        if m.dom().contains(k) {
            let j = choose|j: int| 0 <= j < p.len() && p[j].0 == k;
            assert(j != i);
            if j < i {
                assert(q[j] == p[j]);
            } else {
                assert(q[j - 1] == p[j]);
            }
        }
        if exists|j: int| 0 <= j < q.len() && q[j].0 == k {
            let j = choose|j: int| 0 <= j < q.len() && q[j].0 == k;
            let j2 = if j < i {
                j
            } else {
                j + 1
            };
            assert(p[j2] == q[j]);
            assert(j2 != i);
        }
    }
    assert forall|j: int| 0 <= j < q.len() implies #[trigger] m[q[j].0] == q[j].1 by {
        let j2 = if j < i {
            j
        } else {
            j + 1
        };
        assert(p[j2] == q[j]);
        assert(j2 != i);
    }
    lemma_map_of_ext(q, m);
}

/// Appending a pair with a new key adds it to the map.
pub proof fn lemma_map_of_push<V>(p: Seq<(Seq<char>, V)>, k: Seq<char>, v: V)
    requires
        keys_unique(p),
        !map_of(p).dom().contains(k),
    ensures
        keys_unique(p.push((k, v))),
        map_of(p.push((k, v))) == map_of(p).insert(k, v),
{
    lemma_map_of(p);
    let q = p.push((k, v));
    assert(q.drop_last() =~= p);
    assert(keys_unique(q)) by {
        assert forall|a: int, b: int| 0 <= a < b < q.len() implies q[a].0 != q[b].0 by {
            if b == p.len() {
                assert(q[a] == p[a]);
            } else {
                assert(q[a] == p[a]);
                assert(q[b] == p[b]);
            }
        }
    }
}

struct Slot<V> {
    key: String,
    value: V,
}

impl<V> Slot<V> {
    spec fn pair(self) -> (Seq<char>, V) {
        (self.key@, self.value)
    }

    fn new(key: String, value: V) -> (r: Self)
        ensures
            r.pair() == (key@, value),
    {
        Slot { key, value }
    }
}

spec fn pairs_of<V>(s: Seq<Slot<V>>) -> Seq<(Seq<char>, V)> {
    s.map_values(|x: Slot<V>| x.pair())
}

/// A map from strings to values.
pub struct StrMap<V> {
    slots: Vec<Slot<V>>,
}

impl<V> View for StrMap<V> {
    type V = Map<Seq<char>, V>;

    closed spec fn view(&self) -> Map<Seq<char>, V> {
        map_of(self.pairs())
    }
}

impl<V> StrMap<V> {
    /// The stored pairs, in storage order.
    pub closed spec fn pairs(&self) -> Seq<(Seq<char>, V)> {
        pairs_of(self.slots@)
    }

    /// Well-formedness: no key is stored twice.
    pub open spec fn wf(&self) -> bool {
        keys_unique(self.pairs())
    }

    pub proof fn lemma_view(&self)
        ensures
            self@ == map_of(self.pairs()),
    {
    }

    pub fn new() -> (r: Self)
        ensures
            r.wf(),
            r@ == Map::<Seq<char>, V>::empty(),
            r.pairs().len() == 0,
    {
        let r = StrMap { slots: Vec::new() };
        assert(r.pairs() =~= Seq::<(Seq<char>, V)>::empty());
        r
    }

    /// The number of stored pairs.
    pub fn len(&self) -> (r: usize)
        requires
            self.wf(),
        ensures
            r == self.pairs().len(),
            r == self@.dom().len(),
    {
        proof {
            lemma_map_of(self.pairs());
        }
        self.slots.len()
    }

    fn find(&self, key: &str) -> (r: Option<usize>)
        requires
            self.wf(),
        ensures
            r matches Some(i) ==> i < self.pairs().len() && self.pairs()[i as int].0 == key@,
            r is None ==> !self@.dom().contains(key@),
            r is Some <==> self@.dom().contains(key@),
    {
        proof {
            lemma_map_of(self.pairs());
        }
        let mut i: usize = 0;
        while i < self.slots.len()
            invariant
                i <= self.slots@.len(),
                self.wf(),
                forall|j: int| 0 <= j < i ==> self.pairs()[j].0 != key@,
            decreases self.slots@.len() - i,
        {
            if str_eq(self.slots[i].key.as_str(), key) {
                assert(self.pairs()[i as int] == self.slots@[i as int].pair());
                proof {
                    lemma_map_of(self.pairs());
                }
                assert(map_of(self.pairs()).dom().contains(key@));
                return Some(i);
            }
            assert(self.pairs()[i as int] == self.slots@[i as int].pair());
            i = i + 1;
        }
        None
    }

    /// The value stored under `key`, if any.
    pub fn get(&self, key: &str) -> (r: Option<&V>)
        requires
            self.wf(),
        ensures
            r == if self@.dom().contains(key@) {
                Some(&self@[key@])
            } else {
                None
            },
    {
        proof {
            lemma_map_of(self.pairs());
        }
        match self.find(key) {
            Some(i) => {
                assert(self.pairs()[i as int] == self.slots@[i as int].pair());
                Some(&self.slots[i].value)
            },
            None => None,
        }
    }

    pub fn contains_key(&self, key: &str) -> (r: bool)
        requires
            self.wf(),
        ensures
            r == self@.dom().contains(key@),
    {
        self.find(key).is_some()
    }

    /// Stores `value` under `key`, replacing what was there.
    pub fn insert(&mut self, key: &str, value: V)
        requires
            old(self).wf(),
        ensures
            final(self).wf(),
            final(self)@ == old(self)@.insert(key@, value),
    {
        let ghost old_p = self.pairs();
        match self.find(key) {
            Some(i) => {
                let k = self.slots[i].key.clone();
                let s = Slot::new(k, value);
                self.slots.set(i, s);
                proof {
                    assert(self.pairs() =~= old_p.update(i as int, (old_p[i as int].0, value)));
                    lemma_map_of_update(old_p, i as int, value);
                }
            },
            None => {
                let s = Slot::new(key.to_string(), value);
                self.slots.push(s);
                proof {
                    assert(self.pairs() =~= old_p.push((key@, value)));
                    lemma_map_of_push(old_p, key@, value);
                }
            },
        }
    }

    /// Takes the value stored under `key` out of the map.
    pub fn remove(&mut self, key: &str) -> (r: Option<V>)
        requires
            old(self).wf(),
        ensures
            final(self).wf(),
            final(self)@ == old(self)@.remove(key@),
            r == if old(self)@.dom().contains(key@) {
                Some(old(self)@[key@])
            } else {
                None
            },
    {
        let ghost old_p = self.pairs();
        proof {
            lemma_map_of(old_p);
        }
        match self.find(key) {
            Some(i) => {
                let s = self.slots.remove(i);
                proof {
                    assert(s.pair() == old_p[i as int]);
                    assert(self.pairs() =~= old_p.remove(i as int));
                    lemma_map_of_remove(old_p, i as int);
                }
                Some(s.value)
            },
            None => {
                assert(old(self)@.remove(key@) =~= old(self)@);
                None
            },
        }
    }

    /// The value stored under `key`, if any, to be changed in place.
    pub fn get_mut(&mut self, key: &str) -> (r: Option<&mut V>)
        requires
            old(self).wf(),
        ensures
            final(self).wf(),
            r is Some <==> old(self)@.dom().contains(key@),
            r matches Some(v) ==> *v == old(self)@[key@] && final(self)@ == old(self)@.insert(key@, *final(v)),
            r is None ==> final(self)@ == old(self)@,
            final(self)@.dom() == old(self)@.dom(),
    {
        proof {
            lemma_map_of(self.pairs());
        }
        match self.find(key) {
            Some(i) => {
                let v = self.value_at_mut(i);
                proof {
                    assert(old(self)@.insert(old(self).pairs()[i as int].0, *final(v)).dom() =~= old(self)@.dom());
                }
                Some(v)
            },
            None => None,
        }
    }

    /// The value of the `i`-th stored pair.
    pub fn value_at(&self, i: usize) -> (r: &V)
        requires
            i < self.pairs().len(),
        ensures
            *r == self.pairs()[i as int].1,
    {
        assert(self.pairs()[i as int] == self.slots@[i as int].pair());
        &self.slots[i].value
    }

    /// The keys in `str` order.
    pub fn sorted_keys(&self) -> (r: Vec<&str>)
        requires
            self.wf(),
        ensures
            lex_sorted(names_of(r@)),
            names_of(r@).to_set() == self@.dom(),
            r@.len() == self@.dom().len(),
    {
        let ghost p = self.pairs();
        proof {
            lemma_map_of(p);
            self.lemma_view();
        }
        let n = self.len();
        let mut out: Vec<&str> = Vec::new();
        let mut i: usize = 0;
        while i < n
            invariant
                n == p.len(),
                p == self.pairs(),
                self.wf(),
                i <= n,
                out@.len() == i,
                lex_sorted(names_of(out@)),
                forall|x: Seq<char>|
                    names_of(out@).contains(x) <==> exists|j: int| 0 <= j < i && #[trigger] p[j].0 == x,
            decreases n - i,
        {
            let k = self.key_at(i);
            let ghost s = names_of(out@);
            assert(!s.contains(k@)) by {
                if s.contains(k@) {
                    let j = choose|j: int| 0 <= j < i && #[trigger] p[j].0 == k@;
                    assert(p[j].0 != p[i as int].0);
                }
            }
            let mut q: usize = 0;
            while q < out.len() && !str_lt(k, out[q])
                invariant
                    q <= out@.len(),
                    s == names_of(out@),
                    !s.contains(k@),
                    forall|t: int| 0 <= t < q ==> lex_lt(#[trigger] s[t], k@),
                decreases out@.len() - q,
            {
                proof {
                    assert(s[q as int] == out@[q as int]@);
                    assert(s.contains(s[q as int]));
                    lemma_lex_total(s[q as int], k@);
                }
                q = q + 1;
            }
            proof {
                if q < out@.len() {
                    assert(s[q as int] == out@[q as int]@);
                }
            }
            let ghost old_out = out@;
            out.insert(q, k);
            proof {
                let s2 = names_of(out@);
                assert(s2 =~= s.insert(q as int, k@));
                assert forall|a: int, b: int| 0 <= a < b < s2.len() implies lex_lt(s2[a], s2[b]) by {
                    if a == q && b > q + 1 {
                        lemma_lex_trans(k@, s[q as int], s[b - 1]);
                    }
                }
                assert forall|x: Seq<char>| s2.contains(x) <==> exists|j: int| 0 <= j < i + 1 && #[trigger] p[j].0 == x by {
                    if s2.contains(x) {
                        let t = choose|t: int| 0 <= t < s2.len() && s2[t] == x;
                        if t != q {
                            let t1 = if t < q { t } else { t - 1 };
                            assert(s[t1] == x);
                            assert(s.contains(x));
                        }
                    }
                    if exists|j: int| 0 <= j < i + 1 && #[trigger] p[j].0 == x {
                        let j = choose|j: int| 0 <= j < i + 1 && #[trigger] p[j].0 == x;
                        if j == i {
                            assert(s2[q as int] == x);
                        } else {
                            assert(s.contains(x));
                            let t = choose|t: int| 0 <= t < s.len() && s[t] == x;
                            let t2 = if t < q { t } else { t + 1 };
                            assert(s2[t2] == x);
                        }
                    }
                }
            }
            i = i + 1;
        }
        proof {
            let s = names_of(out@);
            assert(s.to_set() =~= self@.dom()) by {
                assert forall|x: Seq<char>| s.to_set().contains(x) <==> self@.dom().contains(x) by {
                    if self@.dom().contains(x) {
                        let j = choose|j: int| 0 <= j < p.len() && p[j].0 == x;
                        assert(p[j].0 == x);
                    }
                }
            }
        }
        out
    }

    /// The key of the `i`-th stored pair.
    pub fn key_at(&self, i: usize) -> (r: &str)
        requires
            i < self.pairs().len(),
        ensures
            r@ == self.pairs()[i as int].0,
    {
        assert(self.pairs()[i as int] == self.slots@[i as int].pair());
        self.slots[i].key.as_str()
    }

    /// The value of the `i`-th stored pair, to be changed in place.
    pub fn value_at_mut(&mut self, i: usize) -> (r: &mut V)
        requires
            old(self).wf(),
            i < old(self).pairs().len(),
        ensures
            *r == old(self).pairs()[i as int].1,
            final(self).wf(),
            final(self).pairs() == old(self).pairs().update(i as int, (old(self).pairs()[i as int].0, *final(r))),
            final(self)@ == old(self)@.insert(old(self).pairs()[i as int].0, *final(r)),
    {
        let ghost old_p = self.pairs();
        let ghost old_s = self.slots@;
        assert(old_p[i as int] == self.slots@[i as int].pair());
        let slot = &mut self.slots[i];
        proof {
            assert forall|v: V| keys_unique(#[trigger] old_p.update(i as int, (old_p[i as int].0, v))) by {
                let np = old_p.update(i as int, (old_p[i as int].0, v));
                assert forall|a: int, b: int| 0 <= a < b < np.len() implies np[a].0 != np[b].0 by {
                    assert(np[a].0 == old_p[a].0);
                    assert(np[b].0 == old_p[b].0);
                }
            }
            let nv = Slot { key: old_s[i as int].key, value: final(slot).value };
            assert(pairs_of(old_s.update(i as int, nv)) =~= old_p.update(i as int, (old_p[i as int].0, final(slot).value)));
            lemma_map_of_update(old_p, i as int, final(slot).value);
        }
        &mut slot.value
    }

    /// Replaces the value of the `i`-th stored pair.
    pub fn set_value_at(&mut self, i: usize, value: V)
        requires
            old(self).wf(),
            i < old(self).pairs().len(),
        ensures
            final(self).wf(),
            final(self).pairs() == old(self).pairs().update(i as int, (old(self).pairs()[i as int].0, value)),
            final(self)@ == old(self)@.insert(old(self).pairs()[i as int].0, value),
    {
        let ghost old_p = self.pairs();
        let k = self.slots[i].key.clone();
        assert(old_p[i as int] == self.slots@[i as int].pair());
        let s = Slot::new(k, value);
        self.slots.set(i, s);
        proof {
            assert(self.pairs() =~= old_p.update(i as int, (old_p[i as int].0, value)));
            lemma_map_of_update(old_p, i as int, value);
        }
    }
}

} // verus!

use vstd::prelude::*;

verus! {

/// Values that can be compared for equality in executable code.
pub trait SameAs: Sized {
    fn same_as(&self, other: &Self) -> (r: bool)
        ensures
            r == (*self == *other),
    ;
}

/// A set kept as a list without repetitions, in insertion order.
pub struct VecSet<T> {
    items: Vec<T>,
}

impl<T> View for VecSet<T> {
    type V = Set<T>;

    closed spec fn view(&self) -> Set<T> {
        self.items@.to_set()
    }
}

impl<T: SameAs + Copy> VecSet<T> {
    /// Well-formedness: nothing is stored twice.
    pub closed spec fn wf(&self) -> bool {
        self.items@.no_duplicates()
    }

    pub fn new() -> (r: Self)
        ensures
            r.wf(),
            r@ == Set::<T>::empty(),
    {
        let r = VecSet { items: Vec::new() };
        assert(r@ =~= Set::<T>::empty());
        r
    }

    fn find(&self, x: &T) -> (r: Option<usize>)
        ensures
            r matches Some(i) ==> i < self.items@.len() && self.items@[i as int] == *x,
            r is None ==> !self.items@.contains(*x),
    {
        let mut i: usize = 0;
        while i < self.items.len()
            invariant
                i <= self.items@.len(),
                forall|j: int| 0 <= j < i ==> self.items@[j] != *x,
            decreases self.items@.len() - i,
        {
            if self.items[i].same_as(x) {
                return Some(i);
            }
            i = i + 1;
        }
        None
    }

    pub fn contains(&self, x: &T) -> (r: bool)
        ensures
            r == self@.contains(*x),
    {
        self.find(x).is_some()
    }

    pub fn insert(&mut self, x: T)
        requires
            old(self).wf(),
        ensures
            final(self).wf(),
            final(self)@ == old(self)@.insert(x),
    {
        let ghost s = self.items@;
        if self.find(&x).is_none() {
            self.items.push(x);
            proof {
                s.lemma_push_to_set_commute(x);
                assert(self.items@.no_duplicates()) by {
                    assert forall|a: int, b: int| 0 <= a < b < self.items@.len() implies self.items@[a]
                        != self.items@[b] by {
                        if b == s.len() {
                            assert(s.contains(s[a]));
                        }
                    }
                }
            }
        } else {
            assert(s.to_set().insert(x) =~= s.to_set());
        }
    }

    pub fn remove(&mut self, x: &T)
        requires
            old(self).wf(),
        ensures
            final(self).wf(),
            final(self)@ == old(self)@.remove(*x),
    {
        let ghost s = self.items@;
        match self.find(x) {
            Some(i) => {
                self.items.remove(i);
                proof {
                    let t = self.items@;
                    assert(t =~= s.remove(i as int));
                    assert forall|y: T| t.to_set().contains(y) <==> s.to_set().remove(*x).contains(y) by {
                        if t.contains(y) {
                            let k = choose|k: int| 0 <= k < t.len() && t[k] == y;
                            if k < i {
                                assert(s[k] == y);
                            } else {
                                assert(s[k + 1] == y);
                            }
                        }
                        if s.to_set().remove(*x).contains(y) {
                            let k = choose|k: int| 0 <= k < s.len() && s[k] == y;
                            if k < i {
                                assert(t[k] == y);
                            } else {
                                assert(t[k - 1] == y);
                            }
                        }
                    }
                    assert(t.to_set() =~= s.to_set().remove(*x));
                }
            },
            None => {
                assert(s.to_set().remove(*x) =~= s.to_set());
            },
        }
    }

    pub fn clear(&mut self)
        ensures
            final(self).wf(),
            final(self)@ == Set::<T>::empty(),
    {
        self.items.clear();
        assert(self@ =~= Set::<T>::empty());
    }
}

} // verus!

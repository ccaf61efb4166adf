use vstd::prelude::*;
use vstd::std_specs::cmp::PartialEqSpec;

verus! {

// ---------------------------------------------------------------------------
// Pool<T> - object pool with free-list
// ---------------------------------------------------------------------------

/// A free list of objects that are handed out and taken back; when it runs
/// dry it is refilled with a batch of freshly constructed objects.
pub struct Pool<T> {
    free_pool: Vec<T>,
    elements_per_batch: usize,
}

impl<T> Pool<T> {
    /// The objects currently available, the last one handed out first.
    pub closed spec fn free_objects(&self) -> Seq<T> {
        self.free_pool@
    }

    /// How many objects a refill constructs.
    pub closed spec fn batch(&self) -> usize {
        self.elements_per_batch
    }

    /// A pool filled with one batch of `max(elements_per_batch, 1)` objects
    /// built by `ctor`.
    pub fn new<F: Fn() -> T>(ctor: F, elements_per_batch: usize) -> (r: Self)
        requires
            call_requires(ctor, ()),
        ensures
            r.batch() == if elements_per_batch > 0 {
                elements_per_batch
            } else {
                1
            },
            r.free_objects().len() == r.batch(),
            forall|i: int|
                0 <= i < r.free_objects().len() ==> call_ensures(
                    ctor,
                    (),
                    #[trigger] r.free_objects()[i],
                ),
    {
        let batch = if elements_per_batch > 0 {
            elements_per_batch
        } else {
            1
        };
        let free_pool = make_batch(&ctor, batch);
        Pool { free_pool, elements_per_batch: batch }
    }

    /// Hands out the most recently freed object; an empty pool is first
    /// refilled with a batch built by `ctor`.
    pub fn allocate<F: Fn() -> T>(&mut self, ctor: F) -> (r: T)
        requires
            call_requires(ctor, ()),
            old(self).batch() > 0,
        ensures
            final(self).batch() == old(self).batch(),
            old(self).free_objects().len() > 0 ==> {
                &&& r == old(self).free_objects().last()
                &&& final(self).free_objects() == old(self).free_objects().drop_last()
            },
            old(self).free_objects().len() == 0 ==> {
                &&& call_ensures(ctor, (), r)
                &&& final(self).free_objects().len() == old(self).batch() - 1
                &&& forall|i: int|
                    0 <= i < final(self).free_objects().len() ==> call_ensures(
                        ctor,
                        (),
                        #[trigger] final(self).free_objects()[i],
                    )
            },
    {
        if self.free_pool.len() == 0 {
            self.free_pool = make_batch(&ctor, self.elements_per_batch);
        }
        let r = self.free_pool.pop();
        match r {
            Some(obj) => obj,
            None => {
                proof {
                    assert(false);
                }
                ctor()
            },
        }
    }

    /// Gives an object back to the pool.
    pub fn free(&mut self, obj: T)
        ensures
            final(self).free_objects() == old(self).free_objects().push(obj),
            final(self).batch() == old(self).batch(),
    {
        self.free_pool.push(obj);
    }

    /// Gives several objects back, in order.
    pub fn free_array(&mut self, objs: Vec<T>)
        ensures
            final(self).free_objects() == old(self).free_objects() + objs@,
            final(self).batch() == old(self).batch(),
    {
        let mut objs = objs;
        self.free_pool.append(&mut objs);
    }

    /// Drops every available object.
    pub fn destroy(&mut self)
        ensures
            final(self).free_objects().len() == 0,
            final(self).batch() == old(self).batch(),
    {
        self.free_pool.clear();
    }

    pub fn available_count(&self) -> (r: usize)
        ensures
            r == self.free_objects().len(),
    {
        self.free_pool.len()
    }
}

/// Exchanges two elements of a vector (`<[T]>::swap`, which panics when an
/// index is out of bounds; the `requires` rules that out).
#[verifier::external_body]
fn vec_swap<T>(v: &mut Vec<T>, a: usize, b: usize)
    requires
        a < old(v)@.len(),
        b < old(v)@.len(),
    ensures
        final(v)@ == old(v)@.update(a as int, old(v)@[b as int]).update(b as int, old(v)@[a as int]),
{
    v.swap(a, b);
}

/// `n` objects built by `ctor`.
fn make_batch<T, F: Fn() -> T>(ctor: &F, n: usize) -> (r: Vec<T>)
    requires
        call_requires(*ctor, ()),
    ensures
        r@.len() == n,
        forall|i: int| 0 <= i < n ==> call_ensures(*ctor, (), #[trigger] r@[i]),
{
    let mut v: Vec<T> = Vec::new();
    let mut i: usize = 0;
    while i < n
        invariant
            i <= n,
            v@.len() == i,
            call_requires(*ctor, ()),
            forall|j: int| 0 <= j < i ==> call_ensures(*ctor, (), #[trigger] v@[j]),
        decreases n - i,
    {
        let x = ctor();
        v.push(x);
        i = i + 1;
    }
    v
}

// ---------------------------------------------------------------------------
// RecyclePool<T> - reuse-entire pool
// ---------------------------------------------------------------------------

/// A pool whose objects are all recycled together: `count` of the stored
/// objects are in use, the rest are kept for reuse.
pub struct RecyclePool<T> {
    data: Vec<T>,
    count: usize,
}

impl<T> RecyclePool<T> {
    /// Well-formedness: the objects in use are among the stored ones.
    pub closed spec fn wf(&self) -> bool {
        self.count <= self.data@.len()
    }

    /// Every stored object, in use or not.
    pub closed spec fn storage(&self) -> Seq<T> {
        self.data@
    }

    /// Number of objects in use.
    pub closed spec fn used(&self) -> nat {
        self.count as nat
    }

    /// The objects in use.
    pub open spec fn live(&self) -> Seq<T> {
        self.storage().take(self.used() as int)
    }

    /// A pool of `size` objects built by `ctor`, none in use.
    pub fn new<F: Fn() -> T>(ctor: F, size: usize) -> (r: Self)
        requires
            call_requires(ctor, ()),
        ensures
            r.wf(),
            r.used() == 0,
            r.storage().len() == size,
            forall|i: int| 0 <= i < size ==> call_ensures(ctor, (), #[trigger] r.storage()[i]),
    {
        let data = make_batch(&ctor, size);
        RecyclePool { data, count: 0 }
    }

    pub fn get_length(&self) -> (r: usize)
        requires
            self.wf(),
        ensures
            r == self.used(),
            r <= self.storage().len(),
    {
        self.count
    }

    /// The objects in use.
    pub fn get_data(&self) -> (r: &[T])
        requires
            self.wf(),
        ensures
            r@ == self.live(),
    {
        vstd::slice::slice_subrange(self.data.as_slice(), 0, self.count)
    }

    /// Marks every object unused.
    pub fn reset(&mut self)
        requires
            old(self).wf(),
        ensures
            final(self).wf(),
            final(self).used() == 0,
            final(self).storage() == old(self).storage(),
    {
        self.count = 0;
    }

    /// Marks one more object in use; when all are in use the storage first
    /// grows to twice its size (at least one) with objects built by `ctor`.
    pub fn add<F: Fn() -> T>(&mut self, ctor: F)
        requires
            old(self).wf(),
            call_requires(ctor, ()),
            old(self).storage().len() * 2 <= usize::MAX,
        ensures
            final(self).wf(),
            final(self).used() == old(self).used() + 1,
            old(self).used() < old(self).storage().len() ==> final(self).storage() == old(
                self,
            ).storage(),
            old(self).used() >= old(self).storage().len() ==> {
                let n = old(self).storage().len();
                let grown = if n * 2 > 1 {
                    n * 2
                } else {
                    1
                };
                &&& final(self).storage().len() == grown
                &&& final(self).storage().take(n as int) == old(self).storage()
                &&& forall|i: int|
                    n <= i < grown ==> call_ensures(ctor, (), #[trigger] final(self).storage()[i])
            },
    {
        if self.count >= self.data.len() {
            let n = self.data.len();
            let new_size = if n * 2 > 1 {
                n * 2
            } else {
                1
            };
            while self.data.len() < new_size
                invariant
                    n <= self.data@.len() <= new_size,
                    self.data@.take(n as int) == old(self).data@,
                    self.count == old(self).count,
                    self.count <= self.data@.len(),
                    call_requires(ctor, ()),
                    forall|i: int|
                        n <= i < self.data@.len() ==> call_ensures(ctor, (), #[trigger] self.data@[i]),
                decreases new_size - self.data@.len(),
            {
                let x = ctor();
                self.data.push(x);
            }
        }
        self.count = self.count + 1;
    }

    /// Makes sure `size` objects are stored, building missing ones with
    /// `ctor`, and caps the number in use at `size`.
    pub fn resize<F: Fn() -> T>(&mut self, size: usize, ctor: F)
        requires
            old(self).wf(),
            call_requires(ctor, ()),
        ensures
            final(self).wf(),
            final(self).used() == if old(self).used() < size {
                old(self).used()
            } else {
                size as nat
            },
            old(self).storage().len() >= size ==> final(self).storage() == old(self).storage(),
            old(self).storage().len() < size ==> {
                &&& final(self).storage().len() == size
                &&& final(self).storage().take(old(self).storage().len() as int) == old(
                    self,
                ).storage()
                &&& forall|i: int|
                    old(self).storage().len() <= i < size ==> call_ensures(
                        ctor,
                        (),
                        #[trigger] final(self).storage()[i],
                    )
            },
    {
        let n = self.data.len();
        while self.data.len() < size
            invariant
                n == old(self).data@.len(),
                n <= self.data@.len(),
                n < size ==> self.data@.len() <= size,
                n >= size ==> self.data@ == old(self).data@,
                self.data@.take(n as int) == old(self).data@,
                self.count == old(self).count,
                self.count <= self.data@.len(),
                call_requires(ctor, ()),
                forall|i: int|
                    n <= i < self.data@.len() ==> call_ensures(ctor, (), #[trigger] self.data@[i]),
            decreases size - self.data@.len(),
        {
            let x = ctor();
            self.data.push(x);
        }
        if size < self.count {
            self.count = size;
        }
    }

    /// Takes the object at `idx` out of use by swapping it with the last
    /// object in use; an index not in use is ignored.
    pub fn remove_at(&mut self, idx: usize)
        requires
            old(self).wf(),
        ensures
            final(self).wf(),
            idx < old(self).used() ==> {
                &&& final(self).used() == old(self).used() - 1
                &&& final(self).storage() == old(self).storage().update(
                    idx as int,
                    old(self).storage()[old(self).used() - 1],
                ).update(old(self).used() - 1, old(self).storage()[idx as int])
            },
            idx >= old(self).used() ==> final(self).used() == old(self).used()
                && final(self).storage() == old(self).storage(),
    {
        if idx < self.count {
            let last = self.count - 1;
            vec_swap(&mut self.data, idx, last);
            self.count = last;
        }
    }

    /// Mutable access to the object at `idx` when it is in use.
    pub fn get_mut(&mut self, idx: usize) -> (r: Option<&mut T>)
        requires
            old(self).wf(),
        ensures
            match r {
                Some(x) => {
                    &&& idx < old(self).used()
                    &&& *x == old(self).storage()[idx as int]
                    &&& final(self).storage() == old(self).storage().update(idx as int, *final(x))
                    &&& final(self).used() == old(self).used()
                },
                None => idx >= old(self).used() && *final(self) == *old(self),
            },
    {
        if idx < self.count {
            Some(&mut self.data[idx])
        } else {
            None
        }
    }

    /// The object at `idx` when it is in use.
    pub fn get(&self, idx: usize) -> (r: Option<&T>)
        requires
            self.wf(),
        ensures
            match r {
                Some(x) => idx < self.used() && *x == self.storage()[idx as int],
                None => idx >= self.used(),
            },
    {
        if idx < self.count {
            Some(&self.data[idx])
        } else {
            None
        }
    }
}


// ---------------------------------------------------------------------------
// CachedArray<T>
// ---------------------------------------------------------------------------

/// The capacity that doubling from `cap` reaches once it holds `need`
/// elements.
pub open spec fn grown_capacity(cap: nat, need: nat) -> nat
    decreases (if cap < need { need - cap } else { 0 }),
{
    if cap == 0 || cap >= need {
        cap
    } else {
        grown_capacity(cap * 2, need)
    }
}

proof fn lemma_grown_capacity(cap: nat, need: nat)
    ensures
        grown_capacity(cap, need) >= cap,
        0 < cap < need ==> grown_capacity(cap, need) == grown_capacity(cap * 2, need),
    decreases (if cap < need { need - cap } else { 0 }),
{
    if cap > 0 && cap < need {
        lemma_grown_capacity(cap * 2, need);
    }
}

/// A growable array that keeps its storage when elements are removed: the
/// first `size` stored elements are the array, the rest is spare capacity
/// filled with default values.
pub struct CachedArray<T: Clone + Default> {
    data: Vec<T>,
    size: usize,
}

impl<T: Clone + Default> CachedArray<T> {
    /// Well-formedness: the elements fit in a non-empty storage.
    pub closed spec fn wf(&self) -> bool {
        self.size <= self.data@.len() && self.data@.len() >= 1
    }

    /// The stored elements, spare capacity included.
    pub closed spec fn storage(&self) -> Seq<T> {
        self.data@
    }

    /// Number of elements.
    pub closed spec fn size(&self) -> nat {
        self.size as nat
    }

    /// The elements of the array.
    pub open spec fn live(&self) -> Seq<T> {
        self.storage().take(self.size() as int)
    }

    /// An empty array with room for `max(capacity, 1)` elements.
    pub fn new(capacity: usize) -> (r: Self)
        ensures
            r.wf(),
            r.live().len() == 0,
            r.storage().len() == if capacity > 0 {
                capacity
            } else {
                1
            },
    {
        let cap = if capacity > 0 {
            capacity
        } else {
            1
        };
        let mut data: Vec<T> = Vec::new();
        let mut i: usize = 0;
        while i < cap
            invariant
                i <= cap,
                data@.len() == i,
            decreases cap - i,
        {
            data.push(T::default());
            i = i + 1;
        }
        CachedArray { data, size: 0 }
    }

    /// Appends `item`, doubling the storage when it is full.
    pub fn push(&mut self, item: T)
        requires
            old(self).wf(),
            old(self).size() < old(self).storage().len() || old(self).storage().len() * 2 <= usize::MAX,
        ensures
            final(self).wf(),
            final(self).live() == old(self).live().push(item),
            final(self).storage().len() == if old(self).size() < old(self).storage().len() {
                old(self).storage().len()
            } else {
                old(self).storage().len() * 2
            },
    {
        if self.size >= self.data.len() {
            let n = self.data.len();
            let new_cap = n * 2;
            while self.data.len() < new_cap
                invariant
                    n <= self.data@.len() <= new_cap,
                    new_cap == n * 2,
                    self.data@.take(n as int) == old(self).data@,
                    self.size == old(self).size,
                    self.size <= n,
                decreases new_cap - self.data@.len(),
            {
                self.data.push(T::default());
            }
        }
        let ghost before = self.data@;
        let idx = self.size;
        self.data.set(idx, item);
        self.size = idx + 1;
        proof {
            assert(self.live() =~= old(self).live().push(item)) by {
                assert forall|j: int| 0 <= j < idx implies self.data@[j] == old(self).data@[j] by {
                    assert(before.take(old(self).data@.len() as int)[j] == old(self).data@[j]);
                }
            }
        }
    }

    /// Removes the last element and returns a clone of it.
    pub fn pop(&mut self) -> (r: Option<T>)
        requires
            old(self).wf(),
        ensures
            final(self).wf(),
            final(self).storage() == old(self).storage(),
            match r {
                Some(x) => old(self).live().len() > 0 && final(self).live() == old(
                    self,
                ).live().drop_last() && cloned(old(self).live().last(), x),
                None => old(self).live().len() == 0 && final(self).live() == old(self).live(),
            },
    {
        if self.size > 0 {
            self.size = self.size - 1;
            let x = self.data[self.size].clone();
            assert(self.live() =~= old(self).live().drop_last());
            Some(x)
        } else {
            None
        }
    }

    /// Empties the array, keeping the storage.
    pub fn clear(&mut self)
        requires
            old(self).wf(),
        ensures
            final(self).wf(),
            final(self).live().len() == 0,
            final(self).storage() == old(self).storage(),
    {
        self.size = 0;
    }

    pub fn len(&self) -> (r: usize)
        requires
            self.wf(),
        ensures
            r == self.live().len(),
    {
        self.size
    }

    pub fn is_empty(&self) -> (r: bool)
        requires
            self.wf(),
        ensures
            r == (self.live().len() == 0),
    {
        self.size == 0
    }

    /// Grows the storage to `cap` elements when it is smaller.
    pub fn reserve(&mut self, cap: usize)
        requires
            old(self).wf(),
        ensures
            final(self).wf(),
            final(self).live() == old(self).live(),
            final(self).storage().len() == if cap > old(self).storage().len() {
                cap as nat
            } else {
                old(self).storage().len()
            },
    {
        let n = self.data.len();
        while self.data.len() < cap
            invariant
                n == old(self).data@.len(),
                n <= self.data@.len(),
                n < cap ==> self.data@.len() <= cap,
                n >= cap ==> self.data@ == old(self).data@,
                self.data@.take(n as int) == old(self).data@,
                self.size == old(self).size,
                self.size <= n,
            decreases cap - self.data@.len(),
        {
            self.data.push(T::default());
        }
        proof {
            assert forall|j: int| 0 <= j < self.size implies self.data@[j] == old(self).data@[j] by {
                assert(self.data@.take(n as int)[j] == old(self).data@[j]);
            }
            assert(self.live() =~= old(self).live());
        }
    }

    /// Appends clones of the elements of `other`, in order; the storage
    /// doubles each time it is full.
    pub fn concat(&mut self, other: &CachedArray<T>)
        requires
            old(self).wf(),
            other.wf(),
            grown_capacity(old(self).storage().len(), old(self).live().len() + other.live().len()) <= usize::MAX,
        ensures
            final(self).wf(),
            final(self).live().len() == old(self).live().len() + other.live().len(),
            final(self).live().take(old(self).live().len() as int) == old(self).live(),
            forall|j: int|
                0 <= j < other.live().len() ==> cloned(
                    other.live()[j],
                    #[trigger] final(self).live()[old(self).live().len() + j],
                ),
    {
        let mut i: usize = 0;
        while i < other.size
            invariant
                i <= other.size(),
                other.wf(),
                self.wf(),
                self.live().len() == old(self).live().len() + i,
                self.live().take(old(self).live().len() as int) == old(self).live(),
                self.size() == old(self).size() + i,
                grown_capacity(self.storage().len(), old(self).live().len() + other.live().len())
                    == grown_capacity(old(self).storage().len(), old(self).live().len() + other.live().len()),
                grown_capacity(old(self).storage().len(), old(self).live().len() + other.live().len()) <= usize::MAX,
                forall|j: int|
                    0 <= j < i ==> cloned(
                        other.live()[j],
                        #[trigger] self.live()[old(self).live().len() + j],
                    ),
            decreases other.size() - i,
        {
            let x = other.data[i].clone();
            let ghost prev = self.live();
            let ghost need = old(self).live().len() + other.live().len();
            proof {
                lemma_grown_capacity(self.storage().len(), need);
                lemma_grown_capacity((self.storage().len() * 2) as nat, need);
            }
            self.push(x);
            proof {
                assert(self.live() == prev.push(x));
                assert forall|j: int| 0 <= j < i + 1 implies cloned(
                    other.live()[j],
                    #[trigger] self.live()[old(self).live().len() + j],
                ) by {
                    if j < i {
                        assert(self.live()[old(self).live().len() + j] == prev[old(self).live().len() + j]);
                    }
                }
                assert(self.live().take(old(self).live().len() as int) =~= prev.take(old(self).live().len() as int));
            }
            i = i + 1;
        }
    }

    /// Removes the element at `idx` by moving a clone of the last element
    /// into its place; an index past the end is ignored.
    pub fn fast_remove(&mut self, idx: usize)
        requires
            old(self).wf(),
        ensures
            final(self).wf(),
            idx >= old(self).live().len() ==> final(self).live() == old(self).live(),
            idx < old(self).live().len() ==> {
                &&& final(self).live().len() == old(self).live().len() - 1
                &&& forall|j: int|
                    0 <= j < final(self).live().len() && j != idx ==> #[trigger] final(self).live()[j]
                        == old(self).live()[j]
                &&& idx < final(self).live().len() ==> cloned(
                    old(self).live().last(),
                    final(self).live()[idx as int],
                )
            },
    {
        if idx < self.size {
            self.size = self.size - 1;
            let x = self.data[self.size].clone();
            self.data.set(idx, x);
        }
    }

    /// Index of the first element equal to `item`.
    pub fn index_of(&self, item: &T) -> (r: Option<usize>)
        where T: PartialEq,
        requires
            self.wf(),
        ensures
            T::obeys_eq_spec() ==> match r {
                Some(i) => i < self.live().len() && self.live()[i as int].eq_spec(item) && forall|
                    j: int,
                | 0 <= j < i ==> !(#[trigger] self.live()[j]).eq_spec(item),
                None => forall|j: int|
                    0 <= j < self.live().len() ==> !(#[trigger] self.live()[j]).eq_spec(item),
            },
    {
        let mut i: usize = 0;
        while i < self.size
            invariant
                self.wf(),
                i <= self.size(),
                T::obeys_eq_spec() ==> forall|j: int|
                    0 <= j < i ==> !(#[trigger] self.live()[j]).eq_spec(item),
            decreases self.size() - i,
        {
            if self.data[i] == *item {
                return Some(i);
            }
            i = i + 1;
        }
        None
    }

    /// The element at `idx` when it is in the array.
    pub fn get(&self, idx: usize) -> (r: Option<&T>)
        requires
            self.wf(),
        ensures
            match r {
                Some(x) => idx < self.live().len() && *x == self.live()[idx as int],
                None => idx >= self.live().len(),
            },
    {
        if idx < self.size {
            Some(&self.data[idx])
        } else {
            None
        }
    }

    /// Mutable access to the element at `idx` when it is in the array.
    pub fn get_mut(&mut self, idx: usize) -> (r: Option<&mut T>)
        requires
            old(self).wf(),
        ensures
            match r {
                Some(x) => {
                    &&& idx < old(self).live().len()
                    &&& *x == old(self).live()[idx as int]
                    &&& final(self).storage() == old(self).storage().update(idx as int, *final(x))
                    &&& final(self).size() == old(self).size()
                },
                None => idx >= old(self).live().len() && *final(self) == *old(self),
            },
    {
        if idx < self.size {
            Some(&mut self.data[idx])
        } else {
            None
        }
    }
}

impl<T: Clone + Default> std::ops::Index<usize> for CachedArray<T> {
    type Output = T;

    fn index(&self, idx: usize) -> &T {
        &self.data[idx]
    }
}

impl<T: Clone + Default> vstd::std_specs::core::IndexSpecImpl<usize> for CachedArray<T> {
    /// Indexing reaches the whole storage, spare capacity included.
    open spec fn index_req(&self, index: &usize) -> bool {
        *index < self.storage().len()
    }
}

} // verus!

use std::marker::PhantomData;
use vstd::prelude::*;

verus! {

/// Builds a fresh value.
pub(crate) trait Factory<O> {
    /// Whether `r` is a value the factory can build.
    spec fn may_make(&self, r: O) -> bool;

    fn make(&self) -> (r: O)
        ensures
            self.may_make(r),
    ;
}

#[verifier::reject_recursive_types(O)]
struct ClosureFactory<O, F: Fn() -> O> {
    f: F,
    marker: PhantomData<O>,
}

impl<O, F: Fn() -> O> ClosureFactory<O, F> {
    #[verifier::type_invariant]
    closed spec fn callable(self) -> bool {
        call_requires(self.f, ())
    }
}

impl<O, F: Fn() -> O> Factory<O> for ClosureFactory<O, F> {
    /// What the closure can return.
    closed spec fn may_make(&self, r: O) -> bool {
        call_ensures(self.f, (), r)
    }

    fn make(&self) -> (r: O) {
        proof {
            use_type_invariant(self);
        }
        (self.f)()
    }
}

/// A stored factory.
#[verifier::reject_recursive_types(O)]
pub(crate) struct FactorySlot<O> {
    pub(crate) factory: Box<dyn Factory<O>>,
}

/// Stores `factory` as a trait object: std `Box::new`, then the unsizing
/// coercion. A call through the trait object dispatches to `factory`'s own
/// `make`, so the slot can build exactly what `factory` can build.
#[verifier::external_body]
fn boxed_factory<O: 'static, T: Factory<O> + 'static>(factory: T) -> (r: FactorySlot<O>)
    ensures
        forall|o: O| #[trigger] r.factory.may_make(o) == factory.may_make(o),
{
    FactorySlot { factory: Box::new(factory) }
}

impl<O: 'static> FactorySlot<O> {
    /// The slot holding closure `f`.
    pub(crate) fn from_closure<F: Fn() -> O + 'static>(f: F) -> (r: Self)
        requires
            call_requires(f, ()),
        ensures
            forall|o: O| #[trigger] r.factory.may_make(o) == call_ensures(f, (), o),
    {
        let closure = ClosureFactory { f, marker: PhantomData };
        assert(forall|o: O| #[trigger] closure.may_make(o) == call_ensures(f, (), o));
        boxed_factory(closure)
    }
}

} // verus!

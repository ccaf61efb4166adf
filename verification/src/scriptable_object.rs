use vstd::prelude::*;

use crate::utils::factory::FactorySlot;
use crate::utils::str_map::StrMap;
use crate::utils::text::{lex_sorted, names_of};

verus! {

broadcast use vstd::string::group_string_axioms;

/// A data object defined by game scripts, created by name from a registry.
pub trait ScriptableObject {
    /// The name the object's type is registered under.
    fn type_label(&self) -> &'static str;

    /// Brings the object's fields back into their valid ranges.
    fn on_validate(&mut self) {
    }
}

/// Makes objects by the name of their type.
#[verifier::reject_recursive_types(O)]
pub struct ScriptableObjectRegistry<O> {
    factories: StrMap<FactorySlot<O>>,
}

impl<O> View for ScriptableObjectRegistry<O> {
    /// The registered type names.
    type V = Set<Seq<char>>;

    closed spec fn view(&self) -> Set<Seq<char>> {
        self.factories@.dom()
    }
}

impl<O: 'static> ScriptableObjectRegistry<O> {
    /// Well-formedness of the factory table.
    pub closed spec fn wf(&self) -> bool {
        self.factories.wf()
    }

    /// Whether `o` is an object the factory registered for `kind` can make.
    pub closed spec fn factory_may_make(&self, kind: Seq<char>, o: O) -> bool {
        self.factories@[kind].factory.may_make(o)
    }

    pub fn new() -> (r: Self)
        ensures
            r.wf(),
            r@ == Set::<Seq<char>>::empty(),
    {
        ScriptableObjectRegistry { factories: StrMap::new() }
    }

    /// Registers `factory` as the maker of objects of type `kind`,
    /// replacing the one it had.
    pub fn register<F: Fn() -> O + Send + Sync + 'static>(&mut self, kind: &str, factory: F)
        requires
            old(self).wf(),
            call_requires(factory, ()),
        ensures
            final(self).wf(),
            final(self)@ == old(self)@.insert(kind@),
            forall|k: Seq<char>, o: O| k != kind@ ==> final(self).factory_may_make(k, o) == old(self).factory_may_make(k, o),
            forall|o: O| #[trigger] final(self).factory_may_make(kind@, o) == call_ensures(factory, (), o),
    {
        let f = FactorySlot::from_closure(factory);
        let ghost old_m = self.factories@;
        self.factories.insert(kind, f);
        assert(self.factories@.dom() =~= old_m.dom().insert(kind@));
    }

    /// A fresh object of type `kind`, made by its factory; `None` when
    /// the type is not registered.
    pub fn create(&self, kind: &str) -> (r: Option<O>)
        requires
            self.wf(),
        ensures
            r is Some <==> self@.contains(kind@),
            r matches Some(o) ==> self.factory_may_make(kind@, o),
    {
        match self.factories.get(kind) {
            Some(f) => Some(f.factory.make()),
            None => None,
        }
    }

    pub fn is_registered(&self, kind: &str) -> (r: bool)
        requires
            self.wf(),
        ensures
            r == self@.contains(kind@),
    {
        self.factories.contains_key(kind)
    }

    /// The registered type names in `str` order.
    pub fn registered_types(&self) -> (r: Vec<&str>)
        requires
            self.wf(),
        ensures
            lex_sorted(names_of(r@)),
            names_of(r@).to_set() == self@,
            r@.len() == self@.len(),
    {
        self.factories.sorted_keys()
    }
}

impl<O: 'static> Default for ScriptableObjectRegistry<O> {
    fn default() -> (r: Self)
        ensures
            r.wf(),
            r@ == Set::<Seq<char>>::empty(),
    {
        Self::new()
    }
}

/// The abstract state of an [`SoDatabase`].
pub struct SoDatabaseView<O> {
    /// The stored objects by id.
    pub objects: Map<Seq<char>, O>,
    /// The type names its registry can make.
    pub types: Set<Seq<char>>,
}

/// The database after `obj` was stored under `id`.
pub open spec fn spec_store<O>(v: SoDatabaseView<O>, id: Seq<char>, obj: O) -> SoDatabaseView<O> {
    SoDatabaseView { objects: v.objects.insert(id, obj), ..v }
}

/// The database after the object under `id` was removed.
pub open spec fn spec_remove<O>(v: SoDatabaseView<O>, id: Seq<char>) -> SoDatabaseView<O> {
    SoDatabaseView { objects: v.objects.remove(id), ..v }
}

/// Objects stored by id, with a registry that makes them by type name.
#[verifier::reject_recursive_types(O)]
pub struct SoDatabase<O> {
    objects: StrMap<O>,
    registry: ScriptableObjectRegistry<O>,
}

impl<O> View for SoDatabase<O> {
    type V = SoDatabaseView<O>;

    closed spec fn view(&self) -> SoDatabaseView<O> {
        SoDatabaseView { objects: self.objects@, types: self.registry@ }
    }
}

impl<O: 'static> SoDatabase<O> {
    /// Well-formedness of the tables.
    pub closed spec fn wf(&self) -> bool {
        self.objects.wf() && self.registry.wf()
    }

    pub fn new() -> (r: Self)
        ensures
            r.wf(),
            r@.objects == Map::<Seq<char>, O>::empty(),
            r@.types == Set::<Seq<char>>::empty(),
    {
        SoDatabase { objects: StrMap::new(), registry: ScriptableObjectRegistry::new() }
    }

    /// Registers `factory` as the maker of objects of type `kind`.
    pub fn register_type<F: Fn() -> O + Send + Sync + 'static>(&mut self, kind: &str, factory: F)
        requires
            old(self).wf(),
            call_requires(factory, ()),
        ensures
            final(self).wf(),
            final(self)@ == (SoDatabaseView { types: old(self)@.types.insert(kind@), ..old(self)@ }),
            forall|k: Seq<char>, o: O| k != kind@ ==> final(self).may_create(k, o) == old(self).may_create(k, o),
            forall|o: O| #[trigger] final(self).may_create(kind@, o) == call_ensures(factory, (), o),
    {
        self.registry.register(kind, factory);
    }

    /// Whether `o` is an object the factory registered for `kind` can make.
    pub closed spec fn may_create(&self, kind: Seq<char>, o: O) -> bool {
        self.registry.factory_may_make(kind, o)
    }

    /// Makes an object of type `kind` and stores it under `id`; `false`, and
    /// nothing changed, when the type is not registered.
    pub fn create_and_store(&mut self, id: &str, kind: &str) -> (r: bool)
        requires
            old(self).wf(),
        ensures
            forall|k: Seq<char>, o: O| #[trigger] final(self).may_create(k, o) == old(self).may_create(k, o),
            final(self).wf(),
            r == old(self)@.types.contains(kind@),
            r ==> final(self)@ == spec_store(old(self)@, id@, final(self)@.objects[id@]),
            r ==> old(self).may_create(kind@, final(self)@.objects[id@]),
            !r ==> final(self)@ == old(self)@,
    {
        match self.registry.create(kind) {
            Some(obj) => {
                self.objects.insert(id, obj);
                true
            },
            None => false,
        }
    }

    /// Stores `obj` under `id`, replacing what was there.
    pub fn store(&mut self, id: &str, obj: O)
        requires
            old(self).wf(),
        ensures
            forall|k: Seq<char>, o: O| #[trigger] final(self).may_create(k, o) == old(self).may_create(k, o),
            final(self).wf(),
            final(self)@ == spec_store(old(self)@, id@, obj),
    {
        self.objects.insert(id, obj);
    }

    /// The object stored under `id`, if any.
    pub fn get(&self, id: &str) -> (r: Option<&O>)
        requires
            self.wf(),
        ensures
            r == if self@.objects.dom().contains(id@) {
                Some(&self@.objects[id@])
            } else {
                None
            },
    {
        self.objects.get(id)
    }

    /// The object stored under `id`, if any, to be changed in place.
    pub fn get_mut(&mut self, id: &str) -> (r: Option<&mut O>)
        requires
            old(self).wf(),
        ensures
            forall|k: Seq<char>, o: O| #[trigger] final(self).may_create(k, o) == old(self).may_create(k, o),
            final(self).wf(),
            r is Some <==> old(self)@.objects.dom().contains(id@),
            r matches Some(x) ==> *x == old(self)@.objects[id@] && final(self)@ == spec_store(
                old(self)@,
                id@,
                *final(x),
            ),
            r is None ==> final(self)@ == old(self)@,
    {
        self.objects.get_mut(id)
    }

    /// Removes the object stored under `id`; whether there was one.
    pub fn remove(&mut self, id: &str) -> (r: bool)
        requires
            old(self).wf(),
        ensures
            forall|k: Seq<char>, o: O| #[trigger] final(self).may_create(k, o) == old(self).may_create(k, o),
            final(self).wf(),
            r == old(self)@.objects.dom().contains(id@),
            final(self)@ == spec_remove(old(self)@, id@),
    {
        self.objects.remove(id).is_some()
    }

    pub fn contains(&self, id: &str) -> (r: bool)
        requires
            self.wf(),
        ensures
            r == self@.objects.dom().contains(id@),
    {
        self.objects.contains_key(id)
    }

    /// The number of stored objects.
    pub fn len(&self) -> (r: usize)
        requires
            self.wf(),
        ensures
            r == self@.objects.dom().len(),
    {
        self.objects.len()
    }

    pub fn is_empty(&self) -> (r: bool)
        requires
            self.wf(),
        ensures
            r == (self@.objects.dom().len() == 0),
    {
        self.objects.len() == 0
    }
}

impl<O: 'static> Default for SoDatabase<O> {
    fn default() -> (r: Self)
        ensures
            r.wf(),
            r@.objects == Map::<Seq<char>, O>::empty(),
            r@.types == Set::<Seq<char>>::empty(),
    {
        Self::new()
    }
}

/// What is stored under an id is what a read of that id gives back, and
/// storing leaves the other ids as they were.
pub proof fn lemma_get_after_store<O>(v: SoDatabaseView<O>, id: Seq<char>, obj: O)
    ensures
        spec_store(v, id, obj).objects.dom().contains(id),
        spec_store(v, id, obj).objects[id] == obj,
        spec_store(v, id, obj).objects.remove(id) == v.objects.remove(id),
        spec_store(v, id, obj).types == v.types,
{
    assert(spec_store(v, id, obj).objects.remove(id) =~= v.objects.remove(id));
}

/// Removing an id that was just stored leaves no object under it, and the
/// other ids as they were before the store.
pub proof fn lemma_remove_after_store<O>(v: SoDatabaseView<O>, id: Seq<char>, obj: O)
    ensures
        !spec_remove(spec_store(v, id, obj), id).objects.dom().contains(id),
        spec_remove(spec_store(v, id, obj), id) == spec_remove(v, id),
{
    assert(spec_remove(spec_store(v, id, obj), id).objects =~= spec_remove(v, id).objects);
}

/// A second removal of the same id finds nothing and changes nothing.
pub proof fn lemma_remove_twice<O>(v: SoDatabaseView<O>, id: Seq<char>)
    ensures
        !spec_remove(v, id).objects.dom().contains(id),
        spec_remove(spec_remove(v, id), id) == spec_remove(v, id),
{
    assert(spec_remove(spec_remove(v, id), id).objects =~= spec_remove(v, id).objects);
}

} // verus!

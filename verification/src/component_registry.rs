use std::any::TypeId;
use vstd::prelude::*;

use crate::utils::factory::FactorySlot;
use crate::utils::str_map::StrMap;
use crate::utils::text::{lex_sorted, names_of};
use crate::utils::type_ids::{same_type, type_id_of};

verus! {

broadcast use vstd::string::group_string_axioms;

/// What the registry records of a component type registered under a name.
pub struct ComponentMetaView {
    pub type_id: TypeId,
    pub execution_order: i32,
}

#[verifier::reject_recursive_types(B)]
struct ComponentMeta<B> {
    type_id: TypeId,
    factory: FactorySlot<B>,
    execution_order: i32,
}

impl<B> ComponentMeta<B> {
    spec fn view(self) -> ComponentMetaView {
        ComponentMetaView { type_id: self.type_id, execution_order: self.execution_order }
    }
}

struct TypeName {
    type_id: TypeId,
    name: String,
}

/// The name registered last for each type identifier.
pub open spec fn type_map(s: Seq<(TypeId, Seq<char>)>) -> Map<TypeId, Seq<char>>
    decreases s.len(),
{
    if s.len() == 0 {
        Map::empty()
    } else {
        type_map(s.drop_last()).insert(s.last().0, s.last().1)
    }
}

/// The last pair naming `t` gives the name `t` maps to; without one, `t` is
/// unmapped.
proof fn lemma_type_map_last(s: Seq<(TypeId, Seq<char>)>, t: TypeId, i: int)
    requires
        -1 <= i < s.len(),
        forall|j: int| i < j < s.len() ==> s[j].0 != t,
        i >= 0 ==> s[i].0 == t,
    ensures
        i >= 0 ==> type_map(s).dom().contains(t) && type_map(s)[t] == s[i].1,
        i < 0 ==> !type_map(s).dom().contains(t),
    decreases s.len(),
{
    if s.len() > 0 && i < s.len() - 1 {
        lemma_type_map_last(s.drop_last(), t, i);
    }
}

spec fn pairs_of(s: Seq<TypeName>) -> Seq<(TypeId, Seq<char>)> {
    s.map_values(|x: TypeName| (x.type_id, x.name@))
}

spec fn meta_views<B>(m: Map<Seq<char>, ComponentMeta<B>>) -> Map<Seq<char>, ComponentMetaView> {
    m.map_values(|e: ComponentMeta<B>| e.view())
}

/// The abstract state of a [`ComponentRegistry`].
pub struct ComponentRegistryView {
    /// The registered names.
    pub entries: Map<Seq<char>, ComponentMetaView>,
    /// The name each registered component type was last registered under.
    pub type_names: Map<TypeId, Seq<char>>,
}

/// The registry after type `t` was registered under `name` with execution
/// order `order`.
pub open spec fn spec_register(v: ComponentRegistryView, name: Seq<char>, t: TypeId, order: i32) -> ComponentRegistryView {
    ComponentRegistryView {
        entries: v.entries.insert(name, ComponentMetaView { type_id: t, execution_order: order }),
        type_names: v.type_names.insert(t, name),
    }
}

/// Component types by name: how to make them, their execution order, and
/// the name of each type.
#[verifier::reject_recursive_types(B)]
pub struct ComponentRegistry<B> {
    entries: StrMap<ComponentMeta<B>>,
    type_to_name: Vec<TypeName>,
}

impl<B> View for ComponentRegistry<B> {
    type V = ComponentRegistryView;

    closed spec fn view(&self) -> ComponentRegistryView {
        ComponentRegistryView {
            entries: meta_views(self.entries@),
            type_names: type_map(pairs_of(self.type_to_name@)),
        }
    }
}

impl<B: 'static> ComponentRegistry<B> {
    /// Well-formedness of the name table.
    pub closed spec fn wf(&self) -> bool {
        self.entries.wf()
    }

    /// Whether `c` is a component the factory registered under `name` can
    /// make.
    pub closed spec fn factory_may_make(&self, name: Seq<char>, c: B) -> bool {
        self.entries@[name].factory.factory.may_make(c)
    }

    pub fn new() -> (r: Self)
        ensures
            r.wf(),
            r@.entries == Map::<Seq<char>, ComponentMetaView>::empty(),
            r@.type_names == Map::<TypeId, Seq<char>>::empty(),
    {
        let r = ComponentRegistry { entries: StrMap::new(), type_to_name: Vec::new() };
        assert(r@.entries =~= Map::<Seq<char>, ComponentMetaView>::empty());
        assert(pairs_of(r.type_to_name@) =~= Seq::<(TypeId, Seq<char>)>::empty());
        r
    }

    /// Registers the type with identifier `type_id` under `name`, made by
    /// `factory`, with execution order `order`.
    pub fn register_type_with_order<F: Fn() -> B + Send + Sync + 'static>(
        &mut self,
        name: &str,
        type_id: TypeId,
        factory: F,
        order: i32,
    )
        requires
            old(self).wf(),
            call_requires(factory, ()),
        ensures
            forall|n: Seq<char>, c: B| n != name@ ==> #[trigger] final(self).factory_may_make(n, c) == old(self).factory_may_make(n, c),
            final(self).wf(),
            final(self)@ == spec_register(old(self)@, name@, type_id, order),
            forall|c: B| #[trigger] final(self).factory_may_make(name@, c) == call_ensures(factory, (), c),
    {
        let ghost old_e = self.entries@;
        let ghost old_t = pairs_of(self.type_to_name@);
        let meta = ComponentMeta { type_id, factory: FactorySlot::from_closure(factory), execution_order: order };
        let ghost mv = meta.view();
        self.entries.insert(name, meta);
        self.type_to_name.push(TypeName { type_id, name: name.to_string() });
        assert(meta_views(self.entries@) =~= meta_views(old_e).insert(name@, mv));
        assert(pairs_of(self.type_to_name@) =~= old_t.push((type_id, name@)));
        assert(pairs_of(self.type_to_name@).drop_last() =~= old_t);
    }

    /// Registers type `T` under `name`, made by `factory`, with execution
    /// order `order`.
    pub fn register_with_order<T: ?Sized + 'static, F: Fn() -> B + Send + Sync + 'static>(
        &mut self,
        name: &str,
        factory: F,
        order: i32,
    )
        requires
            old(self).wf(),
            call_requires(factory, ()),
        ensures
            forall|c: B| #[trigger] final(self).factory_may_make(name@, c) == call_ensures(factory, (), c),
            forall|n: Seq<char>, c: B| n != name@ ==> #[trigger] final(self).factory_may_make(n, c) == old(self).factory_may_make(n, c),
            final(self).wf(),
            exists|t: TypeId| final(self)@ == #[trigger] spec_register(old(self)@, name@, t, order),
    {
        let t = type_id_of::<T>();
        self.register_type_with_order(name, t, factory, order);
    }

    /// Registers type `T` under `name`, made by `factory`, with execution
    /// order 0.
    pub fn register<T: ?Sized + 'static, F: Fn() -> B + Send + Sync + 'static>(&mut self, name: &str, factory: F)
        requires
            old(self).wf(),
            call_requires(factory, ()),
        ensures
            forall|c: B| #[trigger] final(self).factory_may_make(name@, c) == call_ensures(factory, (), c),
            forall|n: Seq<char>, c: B| n != name@ ==> #[trigger] final(self).factory_may_make(n, c) == old(self).factory_may_make(n, c),
            final(self).wf(),
            exists|t: TypeId| final(self)@ == #[trigger] spec_register(old(self)@, name@, t, 0),
    {
        self.register_with_order::<T, F>(name, factory, 0);
    }

    /// A fresh component registered under `name`, made by its factory.
    pub fn create(&self, name: &str) -> (r: Option<B>)
        requires
            self.wf(),
        ensures
            r is Some <==> self@.entries.dom().contains(name@),
            r matches Some(c) ==> self.factory_may_make(name@, c),
    {
        match self.entries.get(name) {
            Some(m) => Some(m.factory.factory.make()),
            None => None,
        }
    }

    /// The name the type with identifier `t` was last registered under.
    pub fn get_name_by_type_id(&self, t: &TypeId) -> (r: Option<&str>)
        ensures
            match r {
                Some(s) => self@.type_names.dom().contains(*t) && self@.type_names[*t] == s@,
                None => !self@.type_names.dom().contains(*t),
            },
    {
        let ghost p = pairs_of(self.type_to_name@);
        let mut i: usize = self.type_to_name.len();
        while i > 0
            invariant
                i <= self.type_to_name@.len(),
                p == pairs_of(self.type_to_name@),
                forall|j: int| i <= j < p.len() ==> p[j].0 != *t,
            decreases i,
        {
            i = i - 1;
            assert(p[i as int] == (self.type_to_name@[i as int].type_id, self.type_to_name@[i as int].name@));
            if same_type(&self.type_to_name[i].type_id, t) {
                proof {
                    lemma_type_map_last(p, *t, i as int);
                }
                return Some(self.type_to_name[i].name.as_str());
            }
        }
        proof {
            lemma_type_map_last(p, *t, -1);
        }
        None
    }

    /// The name type `T` was last registered under.
    pub fn get_name_by_type<T: ?Sized + 'static>(&self) -> (r: Option<&str>)
        ensures
            exists|t: TypeId|
                #![trigger self@.type_names.dom().contains(t)]
                match r {
                    Some(s) => self@.type_names.dom().contains(t) && self@.type_names[t] == s@,
                    None => !self@.type_names.dom().contains(t),
                },
    {
        let t = type_id_of::<T>();
        let r = self.get_name_by_type_id(&t);
        assert(self@.type_names.dom().contains(t) || !self@.type_names.dom().contains(t));
        r
    }

    pub fn is_registered(&self, name: &str) -> (r: bool)
        requires
            self.wf(),
        ensures
            r == self@.entries.dom().contains(name@),
    {
        self.entries.contains_key(name)
    }

    /// Whether the type with identifier `t` was registered.
    pub fn is_type_id_registered(&self, t: &TypeId) -> (r: bool)
        ensures
            r == self@.type_names.dom().contains(*t),
    {
        self.get_name_by_type_id(t).is_some()
    }

    /// Whether type `T` was registered.
    pub fn is_type_registered<T: ?Sized + 'static>(&self) -> (r: bool)
        ensures
            exists|t: TypeId| r == #[trigger] self@.type_names.dom().contains(t),
    {
        let t = type_id_of::<T>();
        self.is_type_id_registered(&t)
    }

    /// The execution order of the component registered under `name`.
    pub fn get_execution_order(&self, name: &str) -> (r: Option<i32>)
        requires
            self.wf(),
        ensures
            r == if self@.entries.dom().contains(name@) {
                Some(self@.entries[name@].execution_order)
            } else {
                None
            },
    {
        match self.entries.get(name) {
            Some(m) => Some(m.execution_order),
            None => None,
        }
    }

    /// The registered names in `str` order.
    pub fn get_registered_names(&self) -> (r: Vec<&str>)
        requires
            self.wf(),
        ensures
            lex_sorted(names_of(r@)),
            names_of(r@).to_set() == self@.entries.dom(),
    {
        self.entries.sorted_keys()
    }

    pub fn registered_count(&self) -> (r: usize)
        requires
            self.wf(),
        ensures
            r == self@.entries.dom().len(),
    {
        assert(self@.entries.dom() =~= self.entries@.dom());
        self.entries.len()
    }
}

impl<B: 'static> Default for ComponentRegistry<B> {
    fn default() -> (r: Self)
        ensures
            r.wf(),
            r@.entries == Map::<Seq<char>, ComponentMetaView>::empty(),
            r@.type_names == Map::<TypeId, Seq<char>>::empty(),
    {
        Self::new()
    }
}

/// After a registration, the type is known under its new name and the name
/// under its type; the other names keep their entries.
pub proof fn lemma_register_then_lookup(v: ComponentRegistryView, name: Seq<char>, t: TypeId, order: i32)
    ensures
        spec_register(v, name, t, order).type_names[t] == name,
        spec_register(v, name, t, order).entries[name] == (ComponentMetaView { type_id: t, execution_order: order }),
        spec_register(v, name, t, order).entries.remove(name) == v.entries.remove(name),
{
    assert(spec_register(v, name, t, order).entries.remove(name) =~= v.entries.remove(name));
}

} // verus!

use std::any::TypeId;
use std::marker::PhantomData;
use vstd::prelude::*;

use crate::utils::str_map::{keys_where, lemma_count_values, lemma_map_of, map_of, StrMap};
use crate::utils::type_ids::{same_type, type_id_of};

verus! {

broadcast use vstd::string::group_string_axioms;

/// Where an asset is in its life.
#[derive(Debug, Clone, Copy, PartialEq, Eq, Structural)]
pub enum LoadState {
    Unloaded,
    Loading,
    Loaded,
    Failed,
}

/// What the manager records of one asset.
pub struct AssetEntryView<A> {
    pub name: Seq<char>,
    pub state: LoadState,
    pub ref_count: u32,
    pub asset: Option<A>,
    pub type_id: TypeId,
}

#[verifier::reject_recursive_types(A)]
struct AssetEntry<A> {
    name: String,
    load_state: LoadState,
    ref_count: u32,
    asset: Option<A>,
    type_id: TypeId,
}

impl<A> AssetEntry<A> {
    spec fn view(self) -> AssetEntryView<A> {
        AssetEntryView {
            name: self.name@,
            state: self.load_state,
            ref_count: self.ref_count,
            asset: self.asset,
            type_id: self.type_id,
        }
    }

    fn new(name: &str, type_id: TypeId) -> (r: Self)
        ensures
            r.view() == new_entry::<A>(name@, type_id),
    {
        AssetEntry {
            name: name.to_string(),
            load_state: LoadState::Unloaded,
            ref_count: 0,
            asset: None,
            type_id,
        }
    }
}

/// Every loaded entry holds its asset.
pub open spec fn loaded_hold_assets<A>(v: AssetManagerView<A>) -> bool {
    forall|u: Seq<char>|
        #[trigger] v.entries.dom().contains(u) && v.entries[u].state == LoadState::Loaded ==> v.entries[u].asset is Some
}

/// A registered asset that was never loaded.
pub open spec fn new_entry<A>(name: Seq<char>, type_id: TypeId) -> AssetEntryView<A> {
    AssetEntryView { name, state: LoadState::Unloaded, ref_count: 0, asset: None, type_id }
}

/// An entry after its last reference went: unloaded, its asset dropped.
pub open spec fn unloaded_entry<A>(e: AssetEntryView<A>) -> AssetEntryView<A> {
    AssetEntryView { state: LoadState::Unloaded, ref_count: 0, asset: None, ..e }
}

/// Builds assets of one type from their uuid.
trait AssetLoader<A> {
    /// Whether `r` is a result the loader can give for `uuid`.
    spec fn may_load(&self, uuid: &str, r: Option<A>) -> bool;

    fn load(&self, uuid: &str) -> (r: Option<A>)
        ensures
            self.may_load(uuid, r),
    ;
}

#[verifier::reject_recursive_types(A)]
struct ClosureLoader<A, F: Fn(&str) -> Option<A>> {
    f: F,
    marker: PhantomData<A>,
}

impl<A, F: Fn(&str) -> Option<A>> ClosureLoader<A, F> {
    #[verifier::type_invariant]
    closed spec fn callable(self) -> bool {
        forall|uuid: &str| call_requires(self.f, (uuid,))
    }
}

impl<A, F: Fn(&str) -> Option<A>> AssetLoader<A> for ClosureLoader<A, F> {
    /// What the closure can return for `uuid`.
    closed spec fn may_load(&self, uuid: &str, r: Option<A>) -> bool {
        call_ensures(self.f, (uuid,), r)
    }

    fn load(&self, uuid: &str) -> (r: Option<A>) {
        proof {
            use_type_invariant(self);
        }
        (self.f)(uuid)
    }
}

#[verifier::reject_recursive_types(A)]
struct LoaderSlot<A> {
    type_id: TypeId,
    loader: Box<dyn AssetLoader<A>>,
}

/// The slot of type `type_id` holding `loader` as a trait object: std
/// `Box::new`, then the unsizing coercion. A call through the trait object
/// dispatches to `loader`'s own `load`, so the slot can give exactly what
/// `loader` can give.
#[verifier::external_body]
fn boxed_loader<A: 'static, L: AssetLoader<A> + 'static>(type_id: TypeId, loader: L) -> (r: LoaderSlot<A>)
    ensures
        r.type_id == type_id,
        forall|u: &str, x: Option<A>| #[trigger] r.loader.may_load(u, x) == loader.may_load(u, x),
{
    LoaderSlot { type_id, loader: Box::new(loader) }
}

/// The abstract state of an [`AssetManager`].
pub struct AssetManagerView<A> {
    /// The registered assets by uuid.
    pub entries: Map<Seq<char>, AssetEntryView<A>>,
    /// The uuid registered under each name.
    pub names: Map<Seq<char>, Seq<char>>,
    /// The asset types that have a loader.
    pub loader_types: Set<TypeId>,
    pub total_loaded: u64,
    pub total_failed: u64,
}

/// The entry `load` works on: the registered one, or a new one named after
/// its uuid.
pub open spec fn entry_to_load<A>(v: AssetManagerView<A>, uuid: Seq<char>, t: TypeId) -> AssetEntryView<A> {
    if v.entries.dom().contains(uuid) {
        v.entries[uuid]
    } else {
        new_entry(uuid, t)
    }
}

/// The state after a loader for `uuid` produced `result`: the asset is
/// stored and counted as loaded, or the entry is marked failed.
pub open spec fn spec_finish_load<A>(
    v: AssetManagerView<A>,
    uuid: Seq<char>,
    result: Option<A>,
) -> AssetManagerView<A> {
    let e = v.entries[uuid];
    match result {
        Some(a) => AssetManagerView {
            entries: v.entries.insert(
                uuid,
                AssetEntryView {
                    state: LoadState::Loaded,
                    ref_count: (e.ref_count + 1) as u32,
                    asset: Some(a),
                    ..e
                },
            ),
            total_loaded: (v.total_loaded + 1) as u64,
            ..v
        },
        None => AssetManagerView {
            entries: v.entries.insert(uuid, AssetEntryView { state: LoadState::Failed, ..e }),
            total_failed: (v.total_failed + 1) as u64,
            ..v
        },
    }
}

/// What `load` leaves behind for asset type `t`, when the loader (if any)
/// produced `result`.
pub open spec fn spec_load<A>(
    v: AssetManagerView<A>,
    uuid: Seq<char>,
    t: TypeId,
    result: Option<A>,
) -> AssetManagerView<A> {
    let e = entry_to_load(v, uuid, t);
    let v1 = AssetManagerView { entries: v.entries.insert(uuid, e), ..v };
    if e.state == LoadState::Loaded {
        AssetManagerView {
            entries: v.entries.insert(uuid, AssetEntryView { ref_count: (e.ref_count + 1) as u32, ..e }),
            ..v
        }
    } else if !v.loader_types.contains(t) {
        spec_finish_load(v1, uuid, None)
    } else {
        spec_finish_load(v1, uuid, result)
    }
}

/// What `load` returns.
pub open spec fn spec_load_result<A>(
    v: AssetManagerView<A>,
    uuid: Seq<char>,
    t: TypeId,
    result: Option<A>,
) -> bool {
    let e = entry_to_load(v, uuid, t);
    if e.state == LoadState::Loaded {
        true
    } else if !v.loader_types.contains(t) {
        false
    } else {
        result is Some
    }
}

/// Whether `load` can count what it does without overflowing.
pub open spec fn load_fits<A>(v: AssetManagerView<A>, uuid: Seq<char>) -> bool {
    &&& v.total_loaded < u64::MAX
    &&& v.total_failed < u64::MAX
    &&& v.entries.dom().contains(uuid) ==> v.entries[uuid].ref_count < u32::MAX
}

/// One more reference to asset `uuid` (saturating at `u32::MAX`).
pub open spec fn spec_retain<A>(v: AssetManagerView<A>, uuid: Seq<char>) -> AssetManagerView<A> {
    if v.entries.dom().contains(uuid) {
        let e = v.entries[uuid];
        AssetManagerView {
            entries: v.entries.insert(uuid, AssetEntryView { ref_count: e.ref_count.saturating_add(1), ..e }),
            ..v
        }
    } else {
        v
    }
}

/// One reference less to asset `uuid` (saturating at 0); at 0 the asset is
/// dropped and the entry unloaded.
pub open spec fn spec_release<A>(v: AssetManagerView<A>, uuid: Seq<char>) -> AssetManagerView<A> {
    if v.entries.dom().contains(uuid) {
        let e = v.entries[uuid];
        let n = e.ref_count.saturating_sub(1);
        AssetManagerView {
            entries: v.entries.insert(
                uuid,
                if n == 0 {
                    unloaded_entry(e)
                } else {
                    AssetEntryView { ref_count: n, ..e }
                },
            ),
            ..v
        }
    } else {
        v
    }
}

/// The uuids of the loaded assets.
pub open spec fn loaded_uuids<A>(v: AssetManagerView<A>) -> Set<Seq<char>> {
    v.entries.dom().filter(|k: Seq<char>| v.entries[k].state == LoadState::Loaded)
}

/// Tracks assets by uuid: their load state, reference counts and the
/// loaders that build them, by asset type.
#[verifier::reject_recursive_types(A)]
pub struct AssetManager<A> {
    entries: StrMap<AssetEntry<A>>,
    loaders: Vec<LoaderSlot<A>>,
    uuid_by_name: StrMap<String>,
    total_loaded: u64,
    total_failed: u64,
}

spec fn entry_views<A>(m: Map<Seq<char>, AssetEntry<A>>) -> Map<Seq<char>, AssetEntryView<A>> {
    m.map_values(|e: AssetEntry<A>| e.view())
}

spec fn loader_types_of<A>(s: Seq<LoaderSlot<A>>) -> Seq<TypeId> {
    s.map_values(|l: LoaderSlot<A>| l.type_id)
}

impl<A> View for AssetManager<A> {
    type V = AssetManagerView<A>;

    closed spec fn view(&self) -> AssetManagerView<A> {
        AssetManagerView {
            entries: entry_views(self.entries@),
            names: self.uuid_by_name@.map_values(|s: String| s@),
            loader_types: loader_types_of(self.loaders@).to_set(),
            total_loaded: self.total_loaded,
            total_failed: self.total_failed,
        }
    }
}

impl<A: 'static> AssetManager<A> {
    /// Well-formedness of the internal tables.
    pub closed spec fn wf(&self) -> bool {
        &&& self.entries.wf()
        &&& self.uuid_by_name.wf()
        &&& loader_types_of(self.loaders@).no_duplicates()
        &&& loaded_hold_assets(self@)
    }

    /// Whether `r` is a result the loader installed for type `t` can give
    /// for `uuid`.
    pub closed spec fn loader_may_give(&self, t: TypeId, uuid: &str, r: Option<A>) -> bool {
        exists|i: int|
            0 <= i < self.loaders@.len() && self.loaders@[i].type_id == t && #[trigger] self.loaders@[i].loader.may_load(
                uuid,
                r,
            )
    }

    /// Managers with the same loaders load alike.
    proof fn lemma_same_loaders(a: &Self, b: &Self)
        requires
            a.loaders@ == b.loaders@,
        ensures
            forall|t: TypeId, u: &str, x: Option<A>| #[trigger] a.loader_may_give(t, u, x) == b.loader_may_give(t, u, x),
    {
        assert forall|t: TypeId, u: &str, x: Option<A>| #[trigger] a.loader_may_give(t, u, x) == b.loader_may_give(t, u, x) by {
            if a.loader_may_give(t, u, x) {
                let i = choose|i: int| 0 <= i < a.loaders@.len() && a.loaders@[i].type_id == t && #[trigger] a.loaders@[i].loader.may_load(u, x);
                assert(b.loaders@[i] == a.loaders@[i]);
            }
            if b.loader_may_give(t, u, x) {
                let i = choose|i: int| 0 <= i < b.loaders@.len() && b.loaders@[i].type_id == t && #[trigger] b.loaders@[i].loader.may_load(u, x);
                assert(b.loaders@[i] == a.loaders@[i]);
            }
        }
    }

    /// A well-formed manager registers finitely many assets.
    pub proof fn lemma_entries_finite(&self)
        requires
            self.wf(),
        ensures
            self@.entries.dom().finite(),
    {
        lemma_map_of(self.entries.pairs());
        self.entries.lemma_view();
        assert(self@.entries.dom() =~= self.entries@.dom());
    }

    pub fn new() -> (r: Self)
        ensures
            r.wf(),
            r@.entries == Map::<Seq<char>, AssetEntryView<A>>::empty(),
            r@.names == Map::<Seq<char>, Seq<char>>::empty(),
            r@.loader_types == Set::<TypeId>::empty(),
            r@.total_loaded == 0,
            r@.total_failed == 0,
    {
        let r = AssetManager {
            entries: StrMap::new(),
            loaders: Vec::new(),
            uuid_by_name: StrMap::new(),
            total_loaded: 0,
            total_failed: 0,
        };
        assert(r@.entries =~= Map::<Seq<char>, AssetEntryView<A>>::empty());
        assert(r@.names =~= Map::<Seq<char>, Seq<char>>::empty());
        assert(r@.loader_types =~= Set::<TypeId>::empty());
        r
    }

    fn find_loader(&self, type_id: &TypeId) -> (r: Option<usize>)
        requires
            self.wf(),
        ensures
            r matches Some(i) ==> i < self.loaders@.len() && self.loaders@[i as int].type_id == *type_id,
            r is Some <==> self@.loader_types.contains(*type_id),
    {
        let mut i: usize = 0;
        while i < self.loaders.len()
            invariant
                i <= self.loaders@.len(),
                forall|j: int| 0 <= j < i ==> self.loaders@[j].type_id != *type_id,
            decreases self.loaders@.len() - i,
        {
            if same_type(&self.loaders[i].type_id, type_id) {
                assert(loader_types_of(self.loaders@)[i as int] == *type_id);
                return Some(i);
            }
            i = i + 1;
        }
        assert(!loader_types_of(self.loaders@).to_set().contains(*type_id)) by {
            if loader_types_of(self.loaders@).contains(*type_id) {
                let j = choose|j: int| 0 <= j < self.loaders@.len() && loader_types_of(self.loaders@)[j] == *type_id;
                assert(self.loaders@[j].type_id == *type_id);
            }
        }
        None
    }

    /// Installs the loader for assets of the type with identifier `type_id`,
    /// replacing the one it had.
    pub fn register_loader_for_type<F: Fn(&str) -> Option<A> + Send + Sync + 'static>(
        &mut self,
        type_id: TypeId,
        loader: F,
    )
        requires
            old(self).wf(),
            forall|uuid: &str| call_requires(loader, (uuid,)),
        ensures
            final(self).wf(),
            final(self)@ == (AssetManagerView { loader_types: old(self)@.loader_types.insert(type_id), ..old(self)@ }),
            forall|t: TypeId, u: &str, res: Option<A>|
                t != type_id ==> final(self).loader_may_give(t, u, res) == old(self).loader_may_give(t, u, res),
            forall|u: &str, res: Option<A>| #[trigger]
                final(self).loader_may_give(type_id, u, res) == call_ensures(loader, (u,), res),
    {
        let closure = ClosureLoader { f: loader, marker: PhantomData };
        assert(forall|u: &str, x: Option<A>| #[trigger] closure.may_load(u, x) == call_ensures(loader, (u,), x));
        let slot = boxed_loader(type_id, closure);
        let ghost old_t = loader_types_of(self.loaders@);
        let ghost mut idx: int = 0;
        match self.find_loader(&type_id) {
            Some(i) => {
                self.loaders.set(i, slot);
                proof {
                    idx = i as int;
                }
                assert(loader_types_of(self.loaders@) =~= old_t);
                assert(old_t.to_set().insert(type_id) =~= old_t.to_set());
                assert forall|t: TypeId, u: &str, res: Option<A>|
                    t != type_id implies self.loader_may_give(t, u, res) == old(self).loader_may_give(t, u, res) by {
                    if self.loader_may_give(t, u, res) {
                        let j = choose|j: int| 0 <= j < self.loaders@.len() && self.loaders@[j].type_id == t
                            && #[trigger] self.loaders@[j].loader.may_load(u, res);
                        assert(j != i);
                        assert(old(self).loaders@[j] == self.loaders@[j]);
                    }
                    if old(self).loader_may_give(t, u, res) {
                        let j = choose|j: int| 0 <= j < old(self).loaders@.len() && old(self).loaders@[j].type_id == t
                            && #[trigger] old(self).loaders@[j].loader.may_load(u, res);
                        assert(old_t[i as int] == type_id);
                        assert(old_t[j] == t);
                        assert(j != i);
                        assert(old(self).loaders@[j] == self.loaders@[j]);
                    }
                }
            },
            None => {
                self.loaders.push(slot);
                proof {
                    idx = old_t.len() as int;
                }
                assert(loader_types_of(self.loaders@) =~= old_t.push(type_id));
                proof {
                    old_t.lemma_push_to_set_commute(type_id);
                    assert forall|t: TypeId, u: &str, res: Option<A>|
                        t != type_id implies self.loader_may_give(t, u, res) == old(self).loader_may_give(t, u, res) by {
                        if self.loader_may_give(t, u, res) {
                            let j = choose|j: int| 0 <= j < self.loaders@.len() && self.loaders@[j].type_id == t
                                && #[trigger] self.loaders@[j].loader.may_load(u, res);
                            assert(j < old(self).loaders@.len());
                            assert(old(self).loaders@[j] == self.loaders@[j]);
                        }
                        if old(self).loader_may_give(t, u, res) {
                            let j = choose|j: int| 0 <= j < old(self).loaders@.len() && old(self).loaders@[j].type_id == t
                                && #[trigger] old(self).loaders@[j].loader.may_load(u, res);
                            assert(old(self).loaders@[j] == self.loaders@[j]);
                        }
                    }
                }
                assert(old_t.push(type_id).no_duplicates()) by {
                    assert forall|a: int, b: int| 0 <= a < b < old_t.len() + 1 implies old_t.push(type_id)[a]
                        != old_t.push(type_id)[b] by {
                        if b == old_t.len() {
                            assert(old_t.contains(old_t[a]));
                        }
                    }
                }
            },
        }
        assert forall|u: &str, res: Option<A>|
            #[trigger] self.loader_may_give(type_id, u, res) == call_ensures(loader, (u,), res) by {
            assert(self.loaders@[idx].type_id == type_id);
            if self.loader_may_give(type_id, u, res) {
                let j = choose|j: int| 0 <= j < self.loaders@.len() && self.loaders@[j].type_id == type_id
                    && #[trigger] self.loaders@[j].loader.may_load(u, res);
                assert(loader_types_of(self.loaders@)[j] == loader_types_of(self.loaders@)[idx]);
            }
            if call_ensures(loader, (u,), res) {
                assert(self.loaders@[idx].loader.may_load(u, res));
            }
        }
    }

    /// Installs the loader for assets of type `T`, replacing the one it had.
    pub fn register_loader<T: ?Sized + 'static, F: Fn(&str) -> Option<A> + Send + Sync + 'static>(
        &mut self,
        loader: F,
    )
        requires
            old(self).wf(),
            forall|uuid: &str| call_requires(loader, (uuid,)),
        ensures
            final(self).wf(),
            exists|t: TypeId|
                final(self)@ == (AssetManagerView {
                    loader_types: #[trigger] old(self)@.loader_types.insert(t),
                    ..old(self)@
                }) && forall|u: &str, res: Option<A>| #[trigger]
                    final(self).loader_may_give(t, u, res) == call_ensures(loader, (u,), res),
    {
        let t = type_id_of::<T>();
        self.register_loader_for_type(t, loader);
    }

    /// Registers, under `uuid` and `name`, an unloaded asset of the type with
    /// identifier `type_id`, replacing what was registered under `uuid`.
    pub fn add_asset_of_type(&mut self, uuid: &str, name: &str, type_id: TypeId)
        requires
            old(self).wf(),
        ensures
            forall|t: TypeId, u: &str, x: Option<A>| #[trigger] final(self).loader_may_give(t, u, x)
                == old(self).loader_may_give(t, u, x),
            final(self).wf(),
            final(self)@.entries.dom().finite(),
            final(self)@ == (AssetManagerView {
                entries: old(self)@.entries.insert(uuid@, new_entry(name@, type_id)),
                names: old(self)@.names.insert(name@, uuid@),
                ..old(self)@
            }),
    {
        let ghost old_e = self.entries@;
        let ghost old_n = self.uuid_by_name@;
        let e = AssetEntry::new(name, type_id);
        self.entries.insert(uuid, e);
        self.uuid_by_name.insert(name, uuid.to_string());
        assert(entry_views(self.entries@) =~= entry_views(old_e).insert(uuid@, new_entry(name@, type_id)));
        assert(self.uuid_by_name@.map_values(|s: String| s@) =~= old_n.map_values(|s: String| s@).insert(
            name@,
            uuid@,
        ));
        proof {
            self.lemma_entries_finite();
        }
    }

    /// Registers, under `uuid` and `name`, an unloaded asset of type `T`,
    /// replacing what was registered under `uuid`.
    pub fn add_asset<T: ?Sized + 'static>(&mut self, uuid: &str, name: &str)
        requires
            old(self).wf(),
        ensures
            forall|t: TypeId, u: &str, x: Option<A>| #[trigger] final(self).loader_may_give(t, u, x)
                == old(self).loader_may_give(t, u, x),
            final(self).wf(),
            final(self)@.entries.dom().finite(),
            exists|t: TypeId|
                final(self)@ == (AssetManagerView {
                    entries: old(self)@.entries.insert(uuid@, #[trigger] new_entry(name@, t)),
                    names: old(self)@.names.insert(name@, uuid@),
                    ..old(self)@
                }),
    {
        let t = type_id_of::<T>();
        self.add_asset_of_type(uuid, name, t);
    }

    /// Stores what a loader produced for the registered asset `uuid`: the
    /// asset, counted as loaded with one more reference, or a failure.
    pub fn finish_load(&mut self, uuid: &str, result: Option<A>) -> (r: bool)
        requires
            old(self).wf(),
            old(self)@.entries.dom().contains(uuid@),
            load_fits(old(self)@, uuid@),
        ensures
            forall|t: TypeId, u: &str, x: Option<A>| #[trigger] final(self).loader_may_give(t, u, x)
                == old(self).loader_may_give(t, u, x),
            final(self).wf(),
            r == result is Some,
            final(self)@ == spec_finish_load(old(self)@, uuid@, result),
    {
        let ghost old_e = self.entries@;
        let e = self.entries.remove(uuid);
        match e {
            Some(e) => {
                let mut e = e;
                let ok = match result {
                    Some(a) => {
                        e.asset = Some(a);
                        e.load_state = LoadState::Loaded;
                        e.ref_count = e.ref_count + 1;
                        self.total_loaded = self.total_loaded + 1;
                        true
                    },
                    None => {
                        e.load_state = LoadState::Failed;
                        self.total_failed = self.total_failed + 1;
                        false
                    },
                };
                let ghost ev = e.view();
                self.entries.insert(uuid, e);
                assert(entry_views(self.entries@) =~= entry_views(old_e).insert(uuid@, ev));
                proof {
                    Self::lemma_same_loaders(&*self, old(self));
                }
                ok
            },
            None => false,
        }
    }

    /// Loads asset `uuid` as the type with identifier `type_id`: an asset
    /// already loaded only gains a reference; otherwise the type's loader
    /// builds it (an unknown uuid is registered first, named after itself).
    /// `false` when there is no loader for the type or it produced nothing.
    pub fn load_as_type(&mut self, uuid: &str, type_id: TypeId) -> (r: bool)
        requires
            old(self).wf(),
            load_fits(old(self)@, uuid@),
        ensures
            forall|t: TypeId, u: &str, x: Option<A>| #[trigger] final(self).loader_may_give(t, u, x)
                == old(self).loader_may_give(t, u, x),
            final(self).wf(),
            exists|result: Option<A>|
                {
                    &&& final(self)@ == #[trigger] spec_load(old(self)@, uuid@, type_id, result)
                    &&& r == spec_load_result(old(self)@, uuid@, type_id, result)
                    &&& old(self)@.loader_types.contains(type_id) && entry_to_load(old(self)@, uuid@, type_id).state
                        != LoadState::Loaded ==> old(self).loader_may_give(type_id, uuid, result)
                },
    {
        let ghost v0 = self@;
        if !self.entries.contains_key(uuid) {
            let e = AssetEntry::new(uuid, type_id);
            let ghost old_e = self.entries@;
            self.entries.insert(uuid, e);
            assert(entry_views(self.entries@) =~= entry_views(old_e).insert(uuid@, new_entry(uuid@, type_id)));
        }
        let ghost e0 = entry_to_load(v0, uuid@, type_id);
        let ghost v1 = AssetManagerView { entries: v0.entries.insert(uuid@, e0), ..v0 };
        assert(self@ == v1) by {
            assert(self@.entries =~= v1.entries);
        }
        let ghost mid_e = self.entries@;
        let e = self.entries.remove(uuid);
        let mut e = match e {
            Some(e) => e,
            None => {
                proof {
                    assert(false);
                }
                return false;
            },
        };
        assert(e.view() == e0);
        assert(loaded_hold_assets(self@)) by {
            assert(self@.entries =~= v1.entries.remove(uuid@));
            assert forall|u: Seq<char>|
                #[trigger] self@.entries.dom().contains(u) && self@.entries[u].state == LoadState::Loaded implies self@.entries[u].asset is Some by {
                assert(v0.entries.dom().contains(u) && v0.entries[u] == self@.entries[u]);
            }
        }
        if e.load_state == LoadState::Loaded {
            e.ref_count = e.ref_count + 1;
            let ghost ev = e.view();
            self.entries.insert(uuid, e);
            assert(entry_views(self.entries@) =~= v0.entries.insert(uuid@, ev));
            assert(self@ == spec_load(v0, uuid@, type_id, None));
            return true;
        }
        e.load_state = LoadState::Loading;
        match self.find_loader(&type_id) {
            Some(i) => {
                let result = self.loaders[i].loader.load(uuid);
                assert(old(self).loaders@[i as int].loader.may_load(uuid, result));
                assert(old(self).loader_may_give(type_id, uuid, result));
                let ghost ev = e.view();
                self.entries.insert(uuid, e);
                assert(entry_views(self.entries@) =~= entry_views(mid_e).insert(uuid@, ev));
                let ok = self.finish_load(uuid, result);
                assert(self@ == spec_load(v0, uuid@, type_id, result)) by {
                    assert(self@.entries =~= spec_load(v0, uuid@, type_id, result).entries);
                }
                ok
            },
            None => {
                e.load_state = LoadState::Failed;
                self.total_failed = self.total_failed + 1;
                let ghost ev = e.view();
                self.entries.insert(uuid, e);
                assert(entry_views(self.entries@) =~= entry_views(mid_e).insert(uuid@, ev));
                assert(self@ == spec_load(v0, uuid@, type_id, None)) by {
                    assert(self@.entries =~= spec_load(v0, uuid@, type_id, None).entries);
                }
                false
            },
        }
    }

    /// Loads asset `uuid` as type `T`: an asset already loaded only gains a
    /// reference; otherwise the type's loader builds it (an unknown uuid is
    /// registered first, named after itself). `false` when there is no loader
    /// for the type or it produced nothing.
    pub fn load<T: ?Sized + 'static>(&mut self, uuid: &str) -> (r: bool)
        requires
            old(self).wf(),
            load_fits(old(self)@, uuid@),
        ensures
            forall|t: TypeId, u: &str, x: Option<A>| #[trigger] final(self).loader_may_give(t, u, x)
                == old(self).loader_may_give(t, u, x),
            final(self).wf(),
            exists|t: TypeId, result: Option<A>|
                {
                    &&& final(self)@ == #[trigger] spec_load(old(self)@, uuid@, t, result)
                    &&& r == spec_load_result(old(self)@, uuid@, t, result)
                    &&& old(self)@.loader_types.contains(t) && entry_to_load(old(self)@, uuid@, t).state
                        != LoadState::Loaded ==> old(self).loader_may_give(t, uuid, result)
                },
    {
        let t = type_id_of::<T>();
        self.load_as_type(uuid, t)
    }

    /// The asset loaded under `uuid`, if it is loaded.
    pub fn get(&self, uuid: &str) -> (r: Option<&A>)
        requires
            self.wf(),
        ensures
            r is Some <==> self@.entries.dom().contains(uuid@) && self@.entries[uuid@].state == LoadState::Loaded,
            r == if self@.entries.dom().contains(uuid@) && self@.entries[uuid@].state == LoadState::Loaded {
                match self@.entries[uuid@].asset {
                    Some(a) => Some(&a),
                    None => None,
                }
            } else {
                None
            },
    {
        match self.entries.get(uuid) {
            Some(e) => {
                if e.load_state != LoadState::Loaded {
                    return None;
                }
                match &e.asset {
                    Some(a) => Some(a),
                    None => None,
                }
            },
            None => None,
        }
    }

    /// The asset loaded under the uuid registered for `name`, if any.
    pub fn get_by_name(&self, name: &str) -> (r: Option<&A>)
        requires
            self.wf(),
        ensures
            r == if self@.names.dom().contains(name@) {
                let uuid = self@.names[name@];
                if self@.entries.dom().contains(uuid) && self@.entries[uuid].state == LoadState::Loaded {
                    match self@.entries[uuid].asset {
                        Some(a) => Some(&a),
                        None => None,
                    }
                } else {
                    None
                }
            } else {
                None
            },
    {
        match self.uuid_by_name.get(name) {
            Some(uuid) => self.get(uuid.as_str()),
            None => None,
        }
    }

    /// One more reference to asset `uuid` (saturating); nothing when unknown.
    pub fn retain(&mut self, uuid: &str)
        requires
            old(self).wf(),
        ensures
            forall|t: TypeId, u: &str, x: Option<A>| #[trigger] final(self).loader_may_give(t, u, x)
                == old(self).loader_may_give(t, u, x),
            final(self).wf(),
            final(self)@ == spec_retain(old(self)@, uuid@),
    {
        let ghost old_e = self.entries@;
        match self.entries.remove(uuid) {
            Some(e) => {
                let mut e = e;
                e.ref_count = e.ref_count.saturating_add(1);
                let ghost ev = e.view();
                self.entries.insert(uuid, e);
                assert(entry_views(self.entries@) =~= entry_views(old_e).insert(uuid@, ev));
                proof {
                    Self::lemma_same_loaders(&*self, old(self));
                }
            },
            None => {
                assert(self.entries@ =~= old_e);
                proof {
                    Self::lemma_same_loaders(&*self, old(self));
                }
            },
        }
    }

    /// One reference less to asset `uuid` (saturating); when none is left the
    /// asset is dropped and the entry unloaded. Nothing when unknown.
    pub fn release(&mut self, uuid: &str)
        requires
            old(self).wf(),
        ensures
            forall|t: TypeId, u: &str, x: Option<A>| #[trigger] final(self).loader_may_give(t, u, x)
                == old(self).loader_may_give(t, u, x),
            final(self).wf(),
            final(self)@ == spec_release(old(self)@, uuid@),
    {
        let ghost old_e = self.entries@;
        match self.entries.remove(uuid) {
            Some(e) => {
                let mut e = e;
                e.ref_count = e.ref_count.saturating_sub(1);
                if e.ref_count == 0 {
                    e.asset = None;
                    e.load_state = LoadState::Unloaded;
                }
                let ghost ev = e.view();
                self.entries.insert(uuid, e);
                assert(entry_views(self.entries@) =~= entry_views(old_e).insert(uuid@, ev));
                proof {
                    Self::lemma_same_loaders(&*self, old(self));
                }
            },
            None => {
                assert(self.entries@ =~= old_e);
                proof {
                    Self::lemma_same_loaders(&*self, old(self));
                }
            },
        }
    }

    /// Drops every asset and unloads every entry.
    pub fn release_all(&mut self)
        requires
            old(self).wf(),
        ensures
            forall|t: TypeId, u: &str, x: Option<A>| #[trigger] final(self).loader_may_give(t, u, x)
                == old(self).loader_may_give(t, u, x),
            final(self).wf(),
            final(self)@ == (AssetManagerView {
                entries: old(self)@.entries.map_values(|e: AssetEntryView<A>| unloaded_entry(e)),
                ..old(self)@
            }),
    {
        let ghost p0 = self.entries.pairs();
        let n = self.entries.len();
        let mut i: usize = 0;
        while i < n
            invariant
                self.entries.wf(),
                self.uuid_by_name == old(self).uuid_by_name,
                self.loaders == old(self).loaders,
                self.total_loaded == old(self).total_loaded,
                self.total_failed == old(self).total_failed,
                old(self).wf(),
                p0 == old(self).entries.pairs(),
                n == p0.len(),
                i <= n,
                self.entries.pairs().len() == n,
                forall|j: int| 0 <= j < n ==> (#[trigger] self.entries.pairs()[j]).0 == p0[j].0,
                forall|j: int| 0 <= j < i ==> (#[trigger] self.entries.pairs()[j]).1.view() == unloaded_entry(p0[j].1.view()),
                forall|j: int| i <= j < n ==> #[trigger] self.entries.pairs()[j] == p0[j],
            decreases n - i,
        {
            let e = self.entries.value_at(i);
            let ne = AssetEntry {
                name: e.name.clone(),
                load_state: LoadState::Unloaded,
                ref_count: 0,
                asset: None,
                type_id: e.type_id,
            };
            self.entries.set_value_at(i, ne);
            i = i + 1;
        }
        proof {
            let p1 = self.entries.pairs();
            lemma_map_of(p0);
            lemma_map_of(p1);
            self.entries.lemma_view();
            old(self).entries.lemma_view();
            let target = old(self)@.entries.map_values(|e: AssetEntryView<A>| unloaded_entry(e));
            assert forall|k: Seq<char>| #[trigger] entry_views(self.entries@).dom().contains(k) <==> target.dom().contains(k) by {
                if map_of(p1).dom().contains(k) {
                    let j = choose|j: int| 0 <= j < p1.len() && p1[j].0 == k;
                    assert(p0[j].0 == k);
                }
                if map_of(p0).dom().contains(k) {
                    let j = choose|j: int| 0 <= j < p0.len() && p0[j].0 == k;
                    assert(p1[j].0 == k);
                }
            }
            assert forall|k: Seq<char>| #[trigger] entry_views(self.entries@).dom().contains(k) implies entry_views(self.entries@)[k] == target[k] by {
                let j = choose|j: int| 0 <= j < p1.len() && p1[j].0 == k;
                assert(p0[j].0 == k);
                assert(map_of(p1)[p1[j].0] == p1[j].1);
                assert(map_of(p0)[p0[j].0] == p0[j].1);
            }
            assert(entry_views(self.entries@) =~= target);
        }
    }

    /// The load state of asset `uuid`, if registered.
    pub fn get_load_state(&self, uuid: &str) -> (r: Option<LoadState>)
        requires
            self.wf(),
        ensures
            r == if self@.entries.dom().contains(uuid@) {
                Some(self@.entries[uuid@].state)
            } else {
                None
            },
    {
        match self.entries.get(uuid) {
            Some(e) => Some(e.load_state),
            None => None,
        }
    }

    /// The reference count of asset `uuid`; 0 when unknown.
    pub fn get_ref_count(&self, uuid: &str) -> (r: u32)
        requires
            self.wf(),
        ensures
            r == if self@.entries.dom().contains(uuid@) {
                self@.entries[uuid@].ref_count
            } else {
                0
            },
    {
        match self.entries.get(uuid) {
            Some(e) => e.ref_count,
            None => 0,
        }
    }

    pub fn is_loaded(&self, uuid: &str) -> (r: bool)
        requires
            self.wf(),
        ensures
            r == (self@.entries.dom().contains(uuid@) && self@.entries[uuid@].state == LoadState::Loaded),
    {
        match self.entries.get(uuid) {
            Some(e) => e.load_state == LoadState::Loaded,
            None => false,
        }
    }

    pub fn get_total_loaded(&self) -> (r: u64)
        ensures
            r == self@.total_loaded,
    {
        self.total_loaded
    }

    pub fn get_total_failed(&self) -> (r: u64)
        ensures
            r == self@.total_failed,
    {
        self.total_failed
    }

    /// How many registered assets are loaded.
    pub fn get_loaded_count(&self) -> (r: usize)
        requires
            self.wf(),
        ensures
            r == loaded_uuids(self@).len(),
    {
        let ghost p = self.entries.pairs();
        let ghost pred = |e: AssetEntry<A>| e.load_state == LoadState::Loaded;
        let n = self.entries.len();
        let mut count: usize = 0;
        let mut i: usize = 0;
        while i < n
            invariant
                n == p.len(),
                p == self.entries.pairs(),
                i <= n,
                count <= i,
                count == crate::utils::str_map::count_values(p.take(i as int), pred),
                pred == (|e: AssetEntry<A>| e.load_state == LoadState::Loaded),
            decreases n - i,
        {
            assert(p.take(i + 1).drop_last() =~= p.take(i as int));
            if self.entries.value_at(i).load_state == LoadState::Loaded {
                count = count + 1;
            }
            i = i + 1;
        }
        proof {
            assert(p.take(i as int) =~= p);
            lemma_count_values(p, pred);
            self.entries.lemma_view();
            assert(keys_where(map_of(p), pred) =~= loaded_uuids(self@));
        }
        count
    }

    /// How many assets are registered.
    pub fn get_registered_count(&self) -> (r: usize)
        requires
            self.wf(),
        ensures
            self@.entries.dom().finite(),
            r == self@.entries.dom().len(),
    {
        proof {
            self.lemma_entries_finite();
        }
        assert(self@.entries.dom() =~= self.entries@.dom());
        self.entries.len()
    }
}

impl<A: 'static> Default for AssetManager<A> {
    fn default() -> (r: Self)
        ensures
            r.wf(),
            r@.entries == Map::<Seq<char>, AssetEntryView<A>>::empty(),
            r@.names == Map::<Seq<char>, Seq<char>>::empty(),
            r@.loader_types == Set::<TypeId>::empty(),
            r@.total_loaded == 0,
            r@.total_failed == 0,
    {
        Self::new()
    }
}

/// Retaining an asset and releasing it again leaves the manager as it was,
/// unless the count was saturated or the asset had no reference left.
pub proof fn lemma_release_undoes_retain<A>(v: AssetManagerView<A>, uuid: Seq<char>)
    requires
        v.entries.dom().contains(uuid) ==> 1 <= v.entries[uuid].ref_count < u32::MAX,
    ensures
        spec_release(spec_retain(v, uuid), uuid) == v,
{
    if v.entries.dom().contains(uuid) {
        assert(spec_release(spec_retain(v, uuid), uuid).entries =~= v.entries);
    }
}

/// Releasing the last reference drops the asset: it is no longer loaded and
/// `get` finds nothing.
pub proof fn lemma_last_release_unloads<A>(v: AssetManagerView<A>, uuid: Seq<char>)
    requires
        v.entries.dom().contains(uuid),
        v.entries[uuid].ref_count <= 1,
    ensures
        spec_release(v, uuid).entries[uuid].state == LoadState::Unloaded,
        spec_release(v, uuid).entries[uuid].asset is None,
        spec_release(v, uuid).entries[uuid].ref_count == 0,
{
}

/// Loading an asset that is already loaded only adds a reference and
/// succeeds; loading any other asset counts exactly one load or one failure.
pub proof fn lemma_load_counts<A>(v: AssetManagerView<A>, uuid: Seq<char>, t: TypeId, result: Option<A>)
    requires
        load_fits(v, uuid),
    ensures
        entry_to_load(v, uuid, t).state == LoadState::Loaded ==> {
            &&& spec_load_result(v, uuid, t, result)
            &&& spec_load(v, uuid, t, result).entries[uuid].ref_count == v.entries[uuid].ref_count + 1
            &&& spec_load(v, uuid, t, result).total_loaded == v.total_loaded
            &&& spec_load(v, uuid, t, result).total_failed == v.total_failed
        },
        entry_to_load(v, uuid, t).state != LoadState::Loaded ==> {
            &&& spec_load(v, uuid, t, result).total_loaded + spec_load(v, uuid, t, result).total_failed
                == v.total_loaded + v.total_failed + 1
            &&& spec_load_result(v, uuid, t, result) == (spec_load(v, uuid, t, result).entries[uuid].state
                == LoadState::Loaded)
            &&& spec_load(v, uuid, t, result).entries[uuid].state == LoadState::Loaded
                || spec_load(v, uuid, t, result).entries[uuid].state == LoadState::Failed
        },
{
}

} // verus!

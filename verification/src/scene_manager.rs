use vstd::prelude::*;

use crate::utils::factory::FactorySlot;
use crate::utils::str_map::{lemma_map_of, StrMap};
use crate::utils::text::{names_of, str_eq};

verus! {

broadcast use vstd::string::group_string_axioms;

/// The lifecycle of a managed scene.
#[derive(Debug, Clone, Copy, PartialEq, Eq, Structural)]
pub enum SceneState {
    Unloaded,
    Loading,
    Loaded,
    Active,
}

/// A registered scene: its state, and the built scene while it is loaded
/// and not yet handed out.
#[verifier::reject_recursive_types(Sc)]
pub struct SceneEntry<Sc> {
    pub name: String,
    pub state: SceneState,
    scene: Option<Sc>,
}

/// What the manager records of a registered scene.
pub struct SceneEntryView<Sc> {
    pub state: SceneState,
    pub scene: Option<Sc>,
}

impl<Sc> SceneEntry<Sc> {
    pub closed spec fn view(self) -> SceneEntryView<Sc> {
        SceneEntryView { state: self.state, scene: self.scene }
    }

    fn new(name: &str) -> (r: Self)
        ensures
            r.name@ == name@,
            r.view() == (SceneEntryView::<Sc> { state: SceneState::Unloaded, scene: None }),
    {
        SceneEntry { name: name.to_string(), state: SceneState::Unloaded, scene: None }
    }
}

/// The abstract state of a [`SceneManager`].
pub struct SceneManagerView<Sc> {
    /// The registered scenes by name.
    pub entries: Map<Seq<char>, SceneEntryView<Sc>>,
    pub active: Option<Seq<char>>,
    pub previous: Option<Seq<char>>,
    pub loading: Option<Seq<char>>,
    /// The scenes that were left by running another, oldest first.
    pub history: Seq<Seq<char>>,
}

/// An entry that was never loaded.
pub open spec fn unloaded_entry<Sc>() -> SceneEntryView<Sc> {
    SceneEntryView { state: SceneState::Unloaded, scene: None }
}

/// Whether asking for scene `name` builds it: it is registered and
/// unloaded.
pub open spec fn builds<Sc>(v: SceneManagerView<Sc>, name: Seq<char>) -> bool {
    v.entries.dom().contains(name) && v.entries[name].state == SceneState::Unloaded
}

/// The answer to `preload` and the manager after it, where `made` is what
/// the scene's factory builds.
pub open spec fn spec_preload<Sc>(v: SceneManagerView<Sc>, name: Seq<char>, made: Sc) -> (bool, SceneManagerView<Sc>) {
    if !v.entries.dom().contains(name) {
        (false, v)
    } else if v.entries[name].state == SceneState::Unloaded {
        (
            true,
            SceneManagerView {
                entries: v.entries.insert(name, SceneEntryView { state: SceneState::Loaded, scene: Some(made) }),
                ..v
            },
        )
    } else {
        (true, v)
    }
}

/// The answer to `load` and the manager after it: a preload that also marks
/// the scene as the one being loaded.
pub open spec fn spec_load<Sc>(v: SceneManagerView<Sc>, name: Seq<char>, made: Sc) -> (bool, SceneManagerView<Sc>) {
    let (ok, w) = spec_preload(v, name, made);
    if ok {
        (true, SceneManagerView { loading: Some(name), ..w })
    } else {
        (false, w)
    }
}

/// The manager after the active scene `prev` was left: it is unloaded if
/// still active, becomes the previous scene and goes on the history.
pub open spec fn spec_leave<Sc>(v: SceneManagerView<Sc>, prev: Seq<char>) -> SceneManagerView<Sc> {
    let v3 = if v.entries.dom().contains(prev) && v.entries[prev].state == SceneState::Active {
        SceneManagerView {
            entries: v.entries.insert(prev, SceneEntryView { state: SceneState::Unloaded, ..v.entries[prev] }),
            ..v
        }
    } else {
        v
    };
    SceneManagerView { previous: Some(prev), history: v.history.push(prev), ..v3 }
}

/// What `run` hands out and the manager after it, where `made` is what the
/// scene's factory builds: an unloaded scene is built first; a loaded (or
/// loading) one becomes active, is handed out, and the scene that was active
/// is left.
pub open spec fn spec_run<Sc>(v: SceneManagerView<Sc>, name: Seq<char>, made: Sc) -> (Option<Sc>, SceneManagerView<Sc>) {
    if !v.entries.dom().contains(name) {
        (None, v)
    } else {
        let e0 = v.entries[name];
        let e1 = if e0.state == SceneState::Unloaded {
            SceneEntryView { state: SceneState::Loaded, scene: Some(made) }
        } else {
            e0
        };
        if e1.state == SceneState::Loaded || e1.state == SceneState::Loading {
            let v2 = SceneManagerView {
                entries: v.entries.insert(name, SceneEntryView { state: SceneState::Active, scene: None }),
                ..v
            };
            let v4 = match v.active {
                Some(prev) => spec_leave(v2, prev),
                None => v2,
            };
            (e1.scene, SceneManagerView { active: Some(name), loading: None, ..v4 })
        } else {
            (None, v)
        }
    }
}

/// What `run_additive` hands out and the manager after it: an unloaded
/// scene is built, marked active (without becoming the active scene) and
/// handed out.
pub open spec fn spec_run_additive<Sc>(v: SceneManagerView<Sc>, name: Seq<char>, made: Sc) -> (Option<Sc>, SceneManagerView<Sc>) {
    if v.entries.dom().contains(name) && v.entries[name].state == SceneState::Unloaded {
        (
            Some(made),
            SceneManagerView {
                entries: v.entries.insert(name, SceneEntryView { state: SceneState::Active, scene: None }),
                ..v
            },
        )
    } else {
        (None, v)
    }
}

/// The manager after `unload(name)`.
pub open spec fn spec_unload<Sc>(v: SceneManagerView<Sc>, name: Seq<char>) -> SceneManagerView<Sc> {
    let v1 = if v.entries.dom().contains(name) {
        SceneManagerView { entries: v.entries.insert(name, unloaded_entry()), ..v }
    } else {
        v
    };
    if v.active == Some(name) {
        SceneManagerView { active: None, ..v1 }
    } else {
        v1
    }
}

/// What `go_back` returns and the manager after it: the last history entry
/// is taken off and loaded.
pub open spec fn spec_go_back<Sc>(v: SceneManagerView<Sc>, made: Sc) -> (Option<Seq<char>>, SceneManagerView<Sc>) {
    if v.history.len() == 0 {
        (None, v)
    } else {
        let prev = v.history.last();
        let v1 = SceneManagerView { history: v.history.drop_last(), ..v };
        (Some(prev), spec_load(v1, prev, made).1)
    }
}

spec fn opt_view(o: Option<String>) -> Option<Seq<char>> {
    match o {
        Some(s) => Some(s@),
        None => None,
    }
}

spec fn entry_views<Sc>(m: Map<Seq<char>, SceneEntry<Sc>>) -> Map<Seq<char>, SceneEntryView<Sc>> {
    m.map_values(|e: SceneEntry<Sc>| e.view())
}

/// Registers scenes with the factories that build them, and runs one of
/// them at a time.
#[verifier::reject_recursive_types(Sc)]
pub struct SceneManager<Sc> {
    entries: StrMap<SceneEntry<Sc>>,
    factories: StrMap<FactorySlot<Sc>>,
    active_scene: Option<String>,
    previous_scene: Option<String>,
    loading_scene: Option<String>,
    history: Vec<String>,
}

impl<Sc> View for SceneManager<Sc> {
    type V = SceneManagerView<Sc>;

    closed spec fn view(&self) -> SceneManagerView<Sc> {
        SceneManagerView {
            entries: entry_views(self.entries@),
            active: opt_view(self.active_scene),
            previous: opt_view(self.previous_scene),
            loading: opt_view(self.loading_scene),
            history: self.history@.map_values(|s: String| s@),
        }
    }
}

impl<Sc: 'static> SceneManager<Sc> {
    /// Whether `s` is a scene the factory registered for `name` can build.
    pub closed spec fn factory_may_make(&self, name: Seq<char>, s: Sc) -> bool {
        self.factories@[name].factory.may_make(s)
    }

    /// Well-formedness: every registered scene has a factory.
    pub closed spec fn wf(&self) -> bool {
        &&& self.entries.wf()
        &&& self.factories.wf()
        &&& self.factories@.dom() == self.entries@.dom()
    }

    pub fn new() -> (r: Self)
        ensures
            r.wf(),
            r@ == (SceneManagerView::<Sc> {
                entries: Map::empty(),
                active: None,
                previous: None,
                loading: None,
                history: Seq::empty(),
            }),
    {
        let r = SceneManager {
            entries: StrMap::new(),
            factories: StrMap::new(),
            active_scene: None,
            previous_scene: None,
            loading_scene: None,
            history: Vec::new(),
        };
        assert(r@.entries =~= Map::<Seq<char>, SceneEntryView<Sc>>::empty());
        assert(r@.history =~= Seq::<Seq<char>>::empty());
        r
    }

    /// Registers scene `name` with the factory that builds it; the scene is
    /// (again) unloaded.
    pub fn register<F: Fn() -> Sc + Send + Sync + 'static>(&mut self, name: &str, factory: F)
        requires
            old(self).wf(),
            call_requires(factory, ()),
        ensures
            final(self).wf(),
            final(self)@ == (SceneManagerView { entries: old(self)@.entries.insert(name@, unloaded_entry()), ..old(self)@ }),
            forall|n: Seq<char>, x: Sc|
                n != name@ ==> final(self).factory_may_make(n, x) == old(self).factory_may_make(n, x),
            forall|x: Sc| #[trigger] final(self).factory_may_make(name@, x) == call_ensures(factory, (), x),
    {
        let ghost old_e = self.entries@;
        let ghost old_f = self.factories@;
        self.factories.insert(name, FactorySlot::from_closure(factory));
        self.entries.insert(name, SceneEntry::new(name));
        assert(self.factories@.dom() =~= self.entries@.dom()) by {
            assert(self.factories@.dom() =~= old_f.dom().insert(name@));
            assert(self.entries@.dom() =~= old_e.dom().insert(name@));
        }
        assert(entry_views(self.entries@) =~= entry_views(old_e).insert(name@, unloaded_entry()));
    }

    /// Builds scene `name` if it is unloaded; `false` when it is not
    /// registered.
    pub fn preload(&mut self, name: &str) -> (r: bool)
        requires
            old(self).wf(),
        ensures
            forall|n: Seq<char>, x: Sc| #[trigger] final(self).factory_may_make(n, x) == old(self).factory_may_make(n, x),
            final(self).wf(),
            r == old(self)@.entries.dom().contains(name@),
            exists|made: Sc|
                #[trigger] spec_preload(old(self)@, name@, made) == (r, final(self)@) && (builds(old(self)@, name@)
                    ==> old(self).factory_may_make(name@, made)),
    {
        if !self.factories.contains_key(name) {
            proof {
                let made: Sc = vstd::pervasive::arbitrary();
                assert(spec_preload(old(self)@, name@, made) == (false, self@));
            }
            return false;
        }
        let ghost old_e = self.entries@;
        proof {
            lemma_map_of(self.entries.pairs());
            self.entries.lemma_view();
        }
        let made_opt: Option<Sc> = match self.entries.get(name) {
            Some(e) => if e.state == SceneState::Unloaded {
                match self.factories.get(name) {
                    Some(f) => {
                        let m = f.factory.make();
                        assert(old(self).factory_may_make(name@, m));
                        Some(m)
                    },
                    None => None,
                }
            } else {
                None
            },
            None => None,
        };
        match made_opt {
            Some(made) => {
                let ghost m = made;
                match self.entries.get_mut(name) {
                    Some(e) => {
                        e.scene = Some(made);
                        e.state = SceneState::Loaded;
                    },
                    None => {},
                }
                proof {
                    assert(entry_views(self.entries@) =~= entry_views(old_e).insert(
                        name@,
                        SceneEntryView { state: SceneState::Loaded, scene: Some(m) },
                    ));
                    assert(spec_preload(old(self)@, name@, m) == (true, self@));
                }
            },
            None => {
                proof {
                    let made: Sc = vstd::pervasive::arbitrary();
                    assert(spec_preload(old(self)@, name@, made) == (true, self@));
                }
            },
        }
        true
    }

    /// Builds scene `name` if it is unloaded and marks it as the one being
    /// loaded; `false` when it is not registered.
    pub fn load(&mut self, name: &str) -> (r: bool)
        requires
            old(self).wf(),
        ensures
            forall|n: Seq<char>, x: Sc| #[trigger] final(self).factory_may_make(n, x) == old(self).factory_may_make(n, x),
            final(self).wf(),
            r == old(self)@.entries.dom().contains(name@),
            exists|made: Sc|
                #[trigger] spec_load(old(self)@, name@, made) == (r, final(self)@) && (builds(old(self)@, name@)
                    ==> old(self).factory_may_make(name@, made)),
    {
        let ok = self.preload(name);
        let ghost mid = self@;
        let ghost m = *self;
        if !ok {
            proof {
                let made = choose|made: Sc|
                    #[trigger] spec_preload(old(self)@, name@, made) == (ok, mid) && (builds(old(self)@, name@)
                        ==> old(self).factory_may_make(name@, made));
                assert(spec_load(old(self)@, name@, made) == (false, self@));
            }
            return false;
        }
        self.loading_scene = Some(name.to_string());
        proof {
            let made = choose|made: Sc|
                #[trigger] spec_preload(old(self)@, name@, made) == (ok, mid) && (builds(old(self)@, name@)
                    ==> old(self).factory_may_make(name@, made));
            assert(spec_load(old(self)@, name@, made) == (true, self@));
            assert forall|n: Seq<char>, x: Sc| #[trigger] self.factory_may_make(n, x) == old(self).factory_may_make(n, x) by {
                assert(self.factory_may_make(n, x) == m.factory_may_make(n, x));
            }
        }
        true
    }

    /// Makes scene `name` the active one and hands out its built scene: an
    /// unloaded scene is built first; the scene that was active is unloaded
    /// and goes on the history. `None`, and nothing changed, when the scene
    /// is not registered or is already active.
    pub fn run(&mut self, name: &str) -> (r: Option<Sc>)
        requires
            old(self).wf(),
        ensures
            forall|n: Seq<char>, x: Sc| #[trigger] final(self).factory_may_make(n, x) == old(self).factory_may_make(n, x),
            final(self).wf(),
            exists|made: Sc|
                #[trigger] spec_run(old(self)@, name@, made) == (r, final(self)@) && (builds(old(self)@, name@)
                    ==> old(self).factory_may_make(name@, made)),
    {
        if !self.entries.contains_key(name) {
            proof {
                let made: Sc = vstd::pervasive::arbitrary();
                assert(spec_run(old(self)@, name@, made) == (None::<Sc>, self@));
            }
            return None;
        }
        proof {
            lemma_map_of(self.entries.pairs());
            self.entries.lemma_view();
        }
        let ghost old_e = self.entries@;
        let ghost mut made: Sc = vstd::pervasive::arbitrary();
        let unloaded = match self.entries.get(name) {
            Some(e) => e.state == SceneState::Unloaded,
            None => false,
        };
        if unloaded {
            match self.factories.get(name) {
                Some(f) => {
                    let built = f.factory.make();
                    proof {
                        made = built;
                    }
                    assert(old(self).factory_may_make(name@, made));
                    match self.entries.get_mut(name) {
                        Some(e) => {
                            e.scene = Some(built);
                            e.state = SceneState::Loaded;
                        },
                        None => {},
                    }
                    assert(entry_views(self.entries@) =~= entry_views(old_e).insert(
                        name@,
                        SceneEntryView { state: SceneState::Loaded, scene: Some(made) },
                    ));
                },
                None => {},
            }
        }
        let ghost e1 = self@.entries[name@];
        let ghost e1_entries = self.entries@;
        let activate = match self.entries.get(name) {
            Some(e) => e.state == SceneState::Loaded || e.state == SceneState::Loading,
            None => false,
        };
        if !activate {
            assert(self@ == old(self)@) by {
                assert(self@.entries =~= old(self)@.entries);
            }
            assert(spec_run(old(self)@, name@, made) == (None::<Sc>, self@));
            return None;
        }
        let scene = match self.entries.get_mut(name) {
            Some(e) => {
                e.state = SceneState::Active;
                e.scene.take()
            },
            None => None,
        };
        assert(entry_views(self.entries@) =~= old(self)@.entries.insert(
            name@,
            SceneEntryView { state: SceneState::Active, scene: None },
        ));
        assert(scene == e1.scene);
        let ghost v2 = self@;
        let prev_opt = self.active_scene.take();
        match prev_opt {
            Some(prev) => {
                proof {
                    lemma_map_of(self.entries.pairs());
                    self.entries.lemma_view();
                }
                let ghost pe_entries = self.entries@;
                match self.entries.get_mut(prev.as_str()) {
                    Some(pe) => {
                        if pe.state == SceneState::Active {
                            pe.state = SceneState::Unloaded;
                        }
                    },
                    None => {},
                }
                proof {
                    if v2.entries.dom().contains(prev@) && v2.entries[prev@].state == SceneState::Active {
                        assert(entry_views(self.entries@) =~= v2.entries.insert(
                            prev@,
                            SceneEntryView { state: SceneState::Unloaded, ..v2.entries[prev@] },
                        ));
                    } else {
                        assert(entry_views(self.entries@) =~= v2.entries);
                    }
                }
                self.previous_scene = Some(prev.clone());
                let ghost old_h = self.history@;
                self.history.push(prev);
                assert(self.history@ =~= old_h.push(self.history@[old_h.len() as int]));
            },
            None => {},
        }
        self.active_scene = Some(name.to_string());
        self.loading_scene = None;
        proof {
            assert(self@.history =~= (match old(self)@.active {
                Some(p) => v2.history.push(p),
                None => v2.history,
            }));
            assert(spec_run(old(self)@, name@, made) == (scene, self@));
        }
        scene
    }

    /// Builds an unloaded scene `name`, marks it active without making it
    /// the active scene, and hands it out; `None`, and nothing changed,
    /// otherwise.
    pub fn run_additive(&mut self, name: &str) -> (r: Option<Sc>)
        requires
            old(self).wf(),
        ensures
            forall|n: Seq<char>, x: Sc| #[trigger] final(self).factory_may_make(n, x) == old(self).factory_may_make(n, x),
            final(self).wf(),
            exists|made: Sc|
                #[trigger] spec_run_additive(old(self)@, name@, made) == (r, final(self)@) && (builds(old(self)@, name@)
                    ==> old(self).factory_may_make(name@, made)),
    {
        proof {
            lemma_map_of(self.entries.pairs());
            self.entries.lemma_view();
        }
        let unloaded = match self.entries.get(name) {
            Some(e) => e.state == SceneState::Unloaded,
            None => false,
        };
        if !unloaded {
            proof {
                let made: Sc = vstd::pervasive::arbitrary();
                assert(spec_run_additive(old(self)@, name@, made) == (None::<Sc>, self@));
            }
            return None;
        }
        let ghost old_e = self.entries@;
        let built = match self.factories.get(name) {
            Some(f) => {
                let m = f.factory.make();
                assert(old(self).factory_may_make(name@, m));
                m
            },
            None => {
                proof {
                    assert(false);
                }
                return None;
            },
        };
        let ghost made = built;
        match self.entries.get_mut(name) {
            Some(e) => {
                e.scene = None;
                e.state = SceneState::Active;
            },
            None => {},
        }
        assert(entry_views(self.entries@) =~= old(self)@.entries.insert(
            name@,
            SceneEntryView { state: SceneState::Active, scene: None },
        ));
        assert(spec_run_additive(old(self)@, name@, made) == (Some(built), self@));
        Some(built)
    }

    /// Drops the built scene `name` and marks it unloaded; it stops being the
    /// active scene.
    pub fn unload(&mut self, name: &str)
        requires
            old(self).wf(),
        ensures
            forall|n: Seq<char>, x: Sc| #[trigger] final(self).factory_may_make(n, x) == old(self).factory_may_make(n, x),
            final(self).wf(),
            final(self)@ == spec_unload(old(self)@, name@),
    {
        let ghost old_e = self.entries@;
        match self.entries.get_mut(name) {
            Some(e) => {
                e.scene = None;
                e.state = SceneState::Unloaded;
            },
            None => {},
        }
        proof {
            if old_e.dom().contains(name@) {
                assert(entry_views(self.entries@) =~= old(self)@.entries.insert(name@, unloaded_entry()));
            }
        }
        let is_active = match &self.active_scene {
            Some(a) => str_eq(a.as_str(), name),
            None => false,
        };
        if is_active {
            self.active_scene = None;
        }
    }

    pub fn get_active_scene_name(&self) -> (r: Option<&str>)
        ensures
            match r {
                Some(s) => self@.active == Some(s@),
                None => self@.active is None,
            },
    {
        match &self.active_scene {
            Some(c) => Some(c.as_str()),
            None => None,
        }
    }

    pub fn get_previous_scene_name(&self) -> (r: Option<&str>)
        ensures
            match r {
                Some(s) => self@.previous == Some(s@),
                None => self@.previous is None,
            },
    {
        match &self.previous_scene {
            Some(c) => Some(c.as_str()),
            None => None,
        }
    }

    pub fn get_loading_scene_name(&self) -> (r: Option<&str>)
        ensures
            match r {
                Some(s) => self@.loading == Some(s@),
                None => self@.loading is None,
            },
    {
        match &self.loading_scene {
            Some(c) => Some(c.as_str()),
            None => None,
        }
    }

    /// The state of scene `name`, if it is registered.
    pub fn get_scene_state(&self, name: &str) -> (r: Option<SceneState>)
        requires
            self.wf(),
        ensures
            r == if self@.entries.dom().contains(name@) {
                Some(self@.entries[name@].state)
            } else {
                None
            },
    {
        match self.entries.get(name) {
            Some(e) => Some(e.state),
            None => None,
        }
    }

    /// Whether scene `name` is loaded or active.
    pub fn is_scene_loaded(&self, name: &str) -> (r: bool)
        requires
            self.wf(),
        ensures
            r == (self@.entries.dom().contains(name@) && (self@.entries[name@].state == SceneState::Loaded
                || self@.entries[name@].state == SceneState::Active)),
    {
        match self.entries.get(name) {
            Some(e) => e.state == SceneState::Loaded || e.state == SceneState::Active,
            None => false,
        }
    }

    /// The registered scene names, each once.
    pub fn get_registered_scenes(&self) -> (r: Vec<&str>)
        requires
            self.wf(),
        ensures
            names_of(r@).no_duplicates(),
            names_of(r@).to_set() == self@.entries.dom(),
    {
        let ghost p = self.entries.pairs();
        proof {
            lemma_map_of(p);
            self.entries.lemma_view();
        }
        let n = self.entries.len();
        let mut out: Vec<&str> = Vec::new();
        let mut i: usize = 0;
        while i < n
            invariant
                n == p.len(),
                p == self.entries.pairs(),
                self.entries.wf(),
                i <= n,
                out@.len() == i,
                forall|t: int| 0 <= t < i ==> #[trigger] out@[t]@ == p[t].0,
            decreases n - i,
        {
            let k = self.entries.key_at(i);
            out.push(k);
            i = i + 1;
        }
        proof {
            let s = names_of(out@);
            assert forall|a: int, b: int| 0 <= a < s.len() && 0 <= b < s.len() && a != b implies s[a] != s[b] by {
                assert(s[a] == p[a].0);
                assert(s[b] == p[b].0);
            }
            assert(s.to_set() =~= self@.entries.dom()) by {
                assert forall|x: Seq<char>| s.to_set().contains(x) <==> self@.entries.dom().contains(x) by {
                    if s.to_set().contains(x) {
                        let t = choose|t: int| 0 <= t < s.len() && s[t] == x;
                        assert(p[t].0 == x);
                    }
                    if self@.entries.dom().contains(x) {
                        let j = choose|j: int| 0 <= j < p.len() && p[j].0 == x;
                        assert(s[j] == x);
                    }
                }
            }
        }
        out
    }

    /// Takes the last scene off the history and loads it; `None` with an
    /// empty history.
    pub fn go_back(&mut self) -> (r: Option<String>)
        requires
            old(self).wf(),
        ensures
            forall|n: Seq<char>, x: Sc| #[trigger] final(self).factory_may_make(n, x) == old(self).factory_may_make(n, x),
            final(self).wf(),
            exists|made: Sc|
                #[trigger] spec_go_back(old(self)@, made) == (
                    match r {
                        Some(s) => Some(s@),
                        None => None,
                    },
                    final(self)@,
                ) && (old(self)@.history.len() > 0 && builds(old(self)@, old(self)@.history.last())
                    ==> old(self).factory_may_make(old(self)@.history.last(), made)),
    {
        if self.history.len() == 0 {
            proof {
                let made: Sc = vstd::pervasive::arbitrary();
                assert(spec_go_back(old(self)@, made).0 == None::<Seq<char>>);
            }
            return None;
        }
        let ghost h = self.history@;
        let prev = match self.history.pop() {
            Some(p) => p,
            None => {
                return None;
            },
        };
        let ghost v1 = self@;
        assert(v1.history =~= old(self)@.history.drop_last());
        assert(prev@ == old(self)@.history.last());
        let ghost mid = *self;
        assert(mid.factories == old(self).factories);
        let ok = self.load(prev.as_str());
        proof {
            let made = choose|made: Sc|
                #[trigger] spec_load(v1, prev@, made) == (ok, self@) && (builds(v1, prev@)
                    ==> mid.factory_may_make(prev@, made));
            assert(builds(v1, prev@) == builds(old(self)@, old(self)@.history.last()));
            assert(spec_go_back(old(self)@, made) == (Some(prev@), self@));
        }
        Some(prev)
    }

    /// The scenes that were left by running another, oldest first.
    pub fn get_history(&self) -> (r: &[String])
        ensures
            r@.map_values(|s: String| s@) == self@.history,
    {
        self.history.as_slice()
    }

    pub fn clear_history(&mut self)
        requires
            old(self).wf(),
        ensures
            forall|n: Seq<char>, x: Sc| #[trigger] final(self).factory_may_make(n, x) == old(self).factory_may_make(n, x),
            final(self).wf(),
            final(self)@ == (SceneManagerView { history: Seq::empty(), ..old(self)@ }),
    {
        self.history.clear();
        assert(self@.history =~= Seq::<Seq<char>>::empty());
    }
}

impl<Sc: 'static> Default for SceneManager<Sc> {
    fn default() -> (r: Self)
        ensures
            r.wf(),
            r@ == (SceneManagerView::<Sc> {
                entries: Map::empty(),
                active: None,
                previous: None,
                loading: None,
                history: Seq::empty(),
            }),
    {
        Self::new()
    }
}

/// Running a registered scene that is not active makes it the active scene;
/// the scene that was active becomes the previous one and goes on the
/// history; an unloaded scene is handed out freshly built.
pub proof fn lemma_run_switches<Sc>(v: SceneManagerView<Sc>, name: Seq<char>, made: Sc)
    requires
        v.entries.dom().contains(name),
        v.entries[name].state != SceneState::Active,
        v.active != Some(name),
    ensures
        ({
            let (r, w) = spec_run(v, name, made);
            &&& w.active == Some(name)
            &&& w.loading is None
            &&& w.entries[name].state == SceneState::Active
            &&& v.entries[name].state == SceneState::Unloaded ==> r == Some(made)
            &&& v.active matches Some(p) ==> w.previous == Some(p) && w.history == v.history.push(p)
            &&& v.active is None ==> w.previous == v.previous && w.history == v.history
        }),
{
}

/// A second preload of the same scene changes nothing.
pub proof fn lemma_preload_twice<Sc>(v: SceneManagerView<Sc>, name: Seq<char>, first: Sc, second: Sc)
    ensures
        spec_preload(spec_preload(v, name, first).1, name, second) == (
            v.entries.dom().contains(name),
            spec_preload(v, name, first).1,
        ),
{
}

/// Going back right after switching from scene `a` to another returns `a`,
/// loads it, and leaves the history as it was before the switch.
pub proof fn lemma_go_back_after_run<Sc>(v: SceneManagerView<Sc>, a: Seq<char>, name: Seq<char>, made: Sc, again: Sc)
    requires
        v.active == Some(a),
        a != name,
        v.entries.dom().contains(a),
        v.entries.dom().contains(name),
        v.entries[name].state != SceneState::Active,
    ensures
        ({
            let (r, w) = spec_go_back(spec_run(v, name, made).1, again);
            &&& r == Some(a)
            &&& w.history == v.history
            &&& w.loading == Some(a)
            &&& w.active == Some(name)
        }),
{
    let w = spec_run(v, name, made).1;
    assert(w.history == v.history.push(a));
    assert(w.history.drop_last() =~= v.history);
}

} // verus!

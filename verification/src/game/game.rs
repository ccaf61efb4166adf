use std::marker::PhantomData;
use vstd::prelude::*;

use super::bootstrap::{
    bootstrap_outcome, check_bootstrap, BootstrapErrorView, GameBootstrapContract, GameBootstrapError,
    GameConfig, GameEvent,
};

verus! {

/// What the game drives each frame; `Dt` is the type of the time step.
pub trait GameDirector<Dt>: Sized {
    /// Whether a frame can be run now.
    spec fn can_run_frame(&self) -> bool;

    /// Whether `after` is what running a frame of `dt` makes of this
    /// director.
    spec fn ran_frame(&self, dt: Dt, after: Self) -> bool;

    fn pause(&mut self);

    fn resume(&mut self);

    /// Runs one frame of `dt`.
    fn main_loop(&mut self, dt: Dt)
        requires
            old(self).can_run_frame(),
        ensures
            old(self).ran_frame(dt, *final(self)),
    ;
}

/// Told of the game events it listens to.
trait GameListener {
    fn call(&self, event: &GameEvent);
}

struct ClosureGameListener<F: Fn(&GameEvent)> {
    f: F,
}

impl<F: Fn(&GameEvent)> ClosureGameListener<F> {
    #[verifier::type_invariant]
    closed spec fn callable(self) -> bool {
        forall|e: &GameEvent| call_requires(self.f, (e,))
    }
}

impl<F: Fn(&GameEvent)> GameListener for ClosureGameListener<F> {
    fn call(&self, event: &GameEvent) {
        proof {
            use_type_invariant(self);
        }
        (self.f)(event);
    }
}

struct GameListenerSlot {
    event: GameEvent,
    listener: Box<dyn GameListener>,
}

impl GameListenerSlot {
    fn new<F: Fn(&GameEvent) + Send + Sync + 'static>(event: GameEvent, cb: F) -> (r: Self)
        requires
            forall|e: &GameEvent| call_requires(cb, (e,)),
        ensures
            r.event == event,
    {
        let l: Box<dyn GameListener> = Box::new(ClosureGameListener { f: cb });
        GameListenerSlot { event, listener: l }
    }
}

/// The abstract state of a [`Game`].
pub struct GameView {
    pub config: GameConfig,
    pub inited: bool,
    pub paused: bool,
    /// The event each listener waits for, in the order they were added.
    pub listeners: Seq<GameEvent>,
    /// Every event the game has emitted, in order.
    pub emitted: Seq<GameEvent>,
}

/// Whether a listener waits for another event than `e`.
pub open spec fn other_event(e: GameEvent) -> spec_fn(GameEvent) -> bool {
    |x: GameEvent| x != e
}

/// The game after `init`: a first call marks it initialised and emits the
/// engine's and then the game's initialisation; later calls do nothing.
pub open spec fn spec_init(v: GameView) -> GameView {
    if v.inited {
        v
    } else {
        GameView {
            inited: true,
            emitted: v.emitted.push(GameEvent::EngineInited).push(GameEvent::GameInited),
            ..v
        }
    }
}

spec fn events_of(s: Seq<GameListenerSlot>) -> Seq<GameEvent> {
    s.map_values(|x: GameListenerSlot| x.event)
}

proof fn lemma_filter_push(s: Seq<GameEvent>, x: GameEvent, pred: spec_fn(GameEvent) -> bool)
    ensures
        s.push(x).filter(pred) == if pred(x) {
            s.filter(pred).push(x)
        } else {
            s.filter(pred)
        },
{
    reveal(Seq::filter);
    assert(s.push(x).drop_last() =~= s);
}

/// The game's lifecycle: initialisation, pause and resume, frame steps,
/// restarts, and the listeners of its events.
#[verifier::reject_recursive_types(Dt)]
pub struct Game<D, Dt> {
    config: GameConfig,
    director: D,
    inited: bool,
    paused: bool,
    listeners: Vec<GameListenerSlot>,
    emitted: Ghost<Seq<GameEvent>>,
    marker: PhantomData<Dt>,
}

impl<D, Dt> View for Game<D, Dt> {
    type V = GameView;

    closed spec fn view(&self) -> GameView {
        GameView {
            config: self.config,
            inited: self.inited,
            paused: self.paused,
            listeners: events_of(self.listeners@),
            emitted: self.emitted@,
        }
    }
}

impl<D: GameDirector<Dt>, Dt> Game<D, Dt> {
    /// A game with the default configuration, driving `director`.
    pub fn new(director: D) -> (r: Self)
        ensures
            r@.config.frame_rate == 60,
            !r@.config.show_fps,
            r@.config.debug_mode == 0,
            r@.config.render_mode == 0,
            !r@.inited,
            !r@.paused,
            r@.listeners == Seq::<GameEvent>::empty(),
            r@.emitted == Seq::<GameEvent>::empty(),
            *r.get_director_spec() == director,
    {
        Self::with_config(GameConfig::default(), director)
    }

    /// A game with configuration `config`, driving `director`.
    pub fn with_config(config: GameConfig, director: D) -> (r: Self)
        ensures
            r@ == (GameView {
                config,
                inited: false,
                paused: false,
                listeners: Seq::empty(),
                emitted: Seq::empty(),
            }),
            *r.get_director_spec() == director,
    {
        let r = Game {
            config,
            director,
            inited: false,
            paused: false,
            listeners: Vec::new(),
            emitted: Ghost(Seq::empty()),
            marker: PhantomData,
        };
        assert(r@.listeners =~= Seq::<GameEvent>::empty());
        r
    }

    /// The director the game drives.
    pub closed spec fn get_director_spec(&self) -> &D {
        &self.director
    }

    /// Emits `event` to the listeners waiting for it, in the order they
    /// were added.
    fn emit_event(&mut self, event: &GameEvent)
        ensures
            final(self)@ == (GameView { emitted: old(self)@.emitted.push(*event), ..old(self)@ }),
            final(self).get_director_spec() == old(self).get_director_spec(),
    {
        let mut i: usize = 0;
        while i < self.listeners.len()
            invariant
                i <= self.listeners@.len(),
            decreases self.listeners@.len() - i,
        {
            if self.listeners[i].event == *event {
                self.listeners[i].listener.call(event);
            }
            i = i + 1;
        }
        proof {
            self.emitted@ = self.emitted@.push(*event);
        }
    }

    /// Initialises the game once: emits the engine's and then the game's
    /// initialisation.
    pub fn init(&mut self)
        ensures
            final(self)@ == spec_init(old(self)@),
            final(self).get_director_spec() == old(self).get_director_spec(),
    {
        if self.inited {
            return ;
        }
        self.inited = true;
        self.emit_event(&GameEvent::EngineInited);
        self.emit_event(&GameEvent::GameInited);
    }

    /// Initialises the game if needed, then decides whether it can start
    /// from contract `bootstrap`.
    pub fn start_with_bootstrap(&mut self, bootstrap: &GameBootstrapContract) -> (r: Result<(), GameBootstrapError>)
        ensures
            final(self)@ == spec_init(old(self)@),
            match r {
                Ok(()) => bootstrap_outcome(*bootstrap) is Ok,
                Err(e) => bootstrap_outcome(*bootstrap) == Err::<(), BootstrapErrorView>(e@),
            },
    {
        if !self.inited {
            self.init();
        }
        check_bootstrap(bootstrap)
    }

    pub fn is_inited(&self) -> (r: bool)
        ensures
            r == self@.inited,
    {
        self.inited
    }

    /// The director the game drives.
    pub fn get_director(&self) -> (r: &D)
        ensures
            r == self.get_director_spec(),
    {
        &self.director
    }

    /// The director the game drives, to be changed in place.
    pub fn get_director_mut(&mut self) -> (r: &mut D)
        ensures
            *r == *old(self).get_director_spec(),
            final(self)@ == old(self)@,
            *final(self).get_director_spec() == *final(r),
    {
        &mut self.director
    }

    pub fn get_config(&self) -> (r: &GameConfig)
        ensures
            *r == self@.config,
    {
        &self.config
    }

    pub fn set_frame_rate(&mut self, rate: u32)
        ensures
            final(self)@ == (GameView { config: GameConfig { frame_rate: rate, ..old(self)@.config }, ..old(self)@ }),
            final(self).get_director_spec() == old(self).get_director_spec(),
    {
        self.config.frame_rate = rate;
    }

    pub fn get_frame_rate(&self) -> (r: u32)
        ensures
            r == self@.config.frame_rate,
    {
        self.config.frame_rate
    }

    /// Pauses a running game: the director is paused and `Pause` emitted;
    /// a paused game stays as it is.
    pub fn pause(&mut self)
        ensures
            final(self)@ == if old(self)@.paused {
                old(self)@
            } else {
                GameView { paused: true, emitted: old(self)@.emitted.push(GameEvent::Pause), ..old(self)@ }
            },
    {
        if !self.paused {
            self.paused = true;
            self.director.pause();
            self.emit_event(&GameEvent::Pause);
        }
    }

    /// Resumes a paused game: the director is resumed and `Resume` emitted;
    /// a running game stays as it is.
    pub fn resume(&mut self)
        ensures
            final(self)@ == if old(self)@.paused {
                GameView { paused: false, emitted: old(self)@.emitted.push(GameEvent::Resume), ..old(self)@ }
            } else {
                old(self)@
            },
    {
        if self.paused {
            self.paused = false;
            self.director.resume();
            self.emit_event(&GameEvent::Resume);
        }
    }

    pub fn is_paused(&self) -> (r: bool)
        ensures
            r == self@.paused,
    {
        self.paused
    }

    /// Runs one frame of `dt` on the director once the game is initialised.
    pub fn step(&mut self, dt: Dt)
        requires
            old(self)@.inited ==> old(self).get_director_spec().can_run_frame(),
        ensures
            final(self)@ == old(self)@,
            old(self)@.inited ==> old(self).get_director_spec().ran_frame(dt, *final(self).get_director_spec()),
            !old(self)@.inited ==> final(self).get_director_spec() == old(self).get_director_spec(),
    {
        if !self.inited {
            return ;
        }
        self.director.main_loop(dt);
    }

    /// Emits `Restart` and initialises the game again.
    pub fn restart(&mut self)
        ensures
            final(self)@ == (GameView {
                inited: true,
                emitted: old(self)@.emitted.push(GameEvent::Restart).push(GameEvent::EngineInited).push(
                    GameEvent::GameInited,
                ),
                ..old(self)@
            }),
            final(self).get_director_spec() == old(self).get_director_spec(),
    {
        self.inited = false;
        self.emit_event(&GameEvent::Restart);
        self.init();
    }

    /// Adds a listener for `event`.
    pub fn on<F: Fn(&GameEvent) + Send + Sync + 'static>(&mut self, event: GameEvent, cb: F)
        requires
            forall|e: &GameEvent| call_requires(cb, (e,)),
        ensures
            final(self)@ == (GameView { listeners: old(self)@.listeners.push(event), ..old(self)@ }),
            final(self).get_director_spec() == old(self).get_director_spec(),
    {
        let slot = GameListenerSlot::new(event, cb);
        self.listeners.push(slot);
        assert(events_of(self.listeners@) =~= events_of(old(self).listeners@).push(event));
    }

    /// Removes every listener for `event`.
    pub fn off(&mut self, event: &GameEvent)
        ensures
            final(self)@ == (GameView { listeners: old(self)@.listeners.filter(other_event(*event)), ..old(self)@ }),
            final(self).get_director_spec() == old(self).get_director_spec(),
    {
        let ghost orig = self@.listeners;
        let ghost pred = other_event(*event);
        let ghost v0 = self@;
        let mut all: Vec<GameListenerSlot> = Vec::new();
        std::mem::swap(&mut all, &mut self.listeners);
        let total = all.len();
        let mut i: usize = 0;
        proof {
            reveal(Seq::filter);
        }
        assert(orig.take(0) =~= Seq::<GameEvent>::empty());
        assert(events_of(self.listeners@) =~= Seq::<GameEvent>::empty());
        assert(events_of(all@) =~= orig.skip(0));
        while all.len() > 0
            invariant
                i + all@.len() == orig.len(),
                orig.len() == total,
                events_of(all@) == orig.skip(i as int),
                events_of(self.listeners@) == orig.take(i as int).filter(pred),
                pred == other_event(*event),
                self@ == (GameView { listeners: self@.listeners, ..v0 }),
                v0 == old(self)@,
                self.get_director_spec() == old(self).get_director_spec(),
            decreases all@.len(),
        {
            let ghost before = all@;
            let ghost kept = self.listeners@;
            let slot = all.remove(0);
            assert(slot.event == orig[i as int]) by {
                assert(events_of(before)[0] == orig.skip(i as int)[0]);
            }
            assert(events_of(all@) =~= orig.skip(i + 1)) by {
                assert forall|j: int| 0 <= j < all@.len() implies events_of(all@)[j] == orig.skip(i + 1)[j] by {
                    assert(all@[j] == before[j + 1]);
                    assert(events_of(before)[j + 1] == orig.skip(i as int)[j + 1]);
                }
            }
            proof {
                lemma_filter_push(orig.take(i as int), slot.event, pred);
                assert(orig.take(i + 1) =~= orig.take(i as int).push(slot.event));
            }
            if slot.event != *event {
                let ghost t = slot.event;
                self.listeners.push(slot);
                assert(events_of(self.listeners@) =~= events_of(kept).push(t));
            }
            i = i + 1;
        }
        assert(orig.take(i as int) =~= orig);
    }
}

/// Initialisation happens once: a second `init` emits nothing more.
pub proof fn lemma_init_once(v: GameView)
    ensures
        spec_init(spec_init(v)) == spec_init(v),
        spec_init(v).inited,
{
}

} // verus!

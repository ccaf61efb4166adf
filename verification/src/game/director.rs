use vstd::prelude::*;

use super::game::GameDirector;

verus! {

/// Points in the director's frame and scene lifecycle that listeners can
/// observe.
#[derive(Debug, Clone, Copy, PartialEq, Eq, Hash, Structural)]
pub enum DirectorEvent {
    Init,
    Reset,
    BeforeSceneLoading,
    BeforeSceneLaunch,
    AfterSceneLaunch,
    BeforeUpdate,
    AfterUpdate,
    BeforeDraw,
    AfterDraw,
    BeforeCommit,
    BeforeRender,
    AfterRender,
    BeforePhysics,
    AfterPhysics,
    BeginFrame,
    EndFrame,
}

/// The work a director runs inside each frame, between its update events:
/// the scheduler, the running scene's components and the tweens.
pub trait FrameWork<Sc, Dt> {
    /// Whether this work has been advanced by `dt` with `scene` as the
    /// running scene.
    open spec fn updated_with(&self, scene: Option<Sc>, dt: Dt) -> bool {
        true
    }

    /// Advances everything by `dt`, with the running scene if there is one.
    fn update(&mut self, scene: &Option<Sc>, dt: Dt)
        ensures
            final(self).updated_with(*scene, dt),
    ;

    /// Drops every scheduled callback.
    fn unschedule_all(&mut self);
}

/// Called on the director events it listens to.
trait DirectorListener {
    fn call(&self);
}

struct ClosureDirectorListener<F: Fn()> {
    f: F,
}

impl<F: Fn()> ClosureDirectorListener<F> {
    #[verifier::type_invariant]
    closed spec fn callable(self) -> bool {
        call_requires(self.f, ())
    }
}

impl<F: Fn()> DirectorListener for ClosureDirectorListener<F> {
    fn call(&self) {
        proof {
            use_type_invariant(self);
        }
        (self.f)();
    }
}

struct DirectorListenerSlot {
    event: DirectorEvent,
    listener: Box<dyn DirectorListener>,
}

impl DirectorListenerSlot {
    fn new<F: Fn() + Send + Sync + 'static>(event: DirectorEvent, cb: F) -> (r: Self)
        requires
            call_requires(cb, ()),
        ensures
            r.event == event,
    {
        let l: Box<dyn DirectorListener> = Box::new(ClosureDirectorListener { f: cb });
        DirectorListenerSlot { event, listener: l }
    }
}

/// The abstract state of a [`Director`].
pub struct DirectorView<Sc, Dt> {
    pub running_scene: Option<Sc>,
    pub paused: bool,
    pub delta_time: Dt,
    pub total_frames: u64,
    /// The event each listener waits for, in the order they were added.
    pub listeners: Seq<DirectorEvent>,
    /// The events the director has emitted while launching scenes and
    /// running frames, in order.
    pub emitted: Seq<DirectorEvent>,
}

/// The events of one frame, in the order they are emitted.
pub open spec fn frame_events() -> Seq<DirectorEvent> {
    seq![
        DirectorEvent::BeginFrame,
        DirectorEvent::BeforeUpdate,
        DirectorEvent::AfterUpdate,
        DirectorEvent::BeforeRender,
        DirectorEvent::AfterRender,
        DirectorEvent::EndFrame,
    ]
}

/// Whether a listener waits for another event than `e`.
pub open spec fn other_director_event(e: DirectorEvent) -> spec_fn(DirectorEvent) -> bool {
    |x: DirectorEvent| x != e
}

spec fn events_of(s: Seq<DirectorListenerSlot>) -> Seq<DirectorEvent> {
    s.map_values(|x: DirectorListenerSlot| x.event)
}

proof fn lemma_filter_push(s: Seq<DirectorEvent>, x: DirectorEvent, pred: spec_fn(DirectorEvent) -> bool)
    ensures
        s.push(x).filter(pred) == if pred(x) {
            s.filter(pred).push(x)
        } else {
            s.filter(pred)
        },
{
    reveal(Seq::filter);
    assert(s.push(x).drop_last() =~= s);
}

/// Runs the scene and drives the frames: pausing, counting frames, and
/// telling listeners where each frame is.
#[verifier::reject_recursive_types(Sc)]
pub struct Director<Sc, Dt, W> {
    work: W,
    running_scene: Option<Sc>,
    paused: bool,
    delta_time: Dt,
    total_frames: u64,
    listeners: Vec<DirectorListenerSlot>,
    emitted: Ghost<Seq<DirectorEvent>>,
    work_log: Ghost<Seq<(Option<Sc>, Dt, nat)>>,
}

impl<Sc, Dt, W> View for Director<Sc, Dt, W> {
    type V = DirectorView<Sc, Dt>;

    closed spec fn view(&self) -> DirectorView<Sc, Dt> {
        DirectorView {
            running_scene: self.running_scene,
            paused: self.paused,
            delta_time: self.delta_time,
            total_frames: self.total_frames,
            listeners: events_of(self.listeners@),
            emitted: self.emitted@,
        }
    }
}

impl<Sc, Dt: Copy, W: FrameWork<Sc, Dt>> Director<Sc, Dt, W> {
    /// A director with no running scene that runs `work` in each frame and
    /// reports `delta_time` as the time step until the first frame.
    pub fn new(work: W, delta_time: Dt) -> (r: Self)
        ensures
            r@ == (DirectorView::<Sc, Dt> {
                running_scene: None,
                paused: false,
                delta_time,
                total_frames: 0,
                listeners: Seq::empty(),
                emitted: Seq::empty(),
            }),
            r.work_spec() == work,
            r.work_runs() == Seq::<(Option<Sc>, Dt, nat)>::empty(),
    {
        let r = Director {
            work,
            running_scene: None,
            paused: false,
            delta_time,
            total_frames: 0,
            listeners: Vec::new(),
            emitted: Ghost(Seq::empty()),
            work_log: Ghost(Seq::empty()),
        };
        assert(r@.listeners =~= Seq::<DirectorEvent>::empty());
        r
    }

    /// The per-frame work.
    pub closed spec fn work_spec(&self) -> W {
        self.work
    }

    /// Each run of the per-frame work, in order: the running scene and the
    /// time step it was given, and how many events had been emitted then.
    pub closed spec fn work_runs(&self) -> Seq<(Option<Sc>, Dt, nat)> {
        self.work_log@
    }

    /// Runs the per-frame work with the running scene and `dt`.
    fn run_work(&mut self, dt: Dt)
        ensures
            final(self)@ == old(self)@,
            final(self).work_spec().updated_with(old(self)@.running_scene, dt),
            final(self).work_runs() == old(self).work_runs().push((old(self)@.running_scene, dt, old(self)@.emitted.len())),
    {
        self.work.update(&self.running_scene, dt);
        proof {
            self.work_log@ = self.work_log@.push((self.running_scene, dt, self.emitted@.len()));
        }
    }

    /// The per-frame work.
    pub fn get_work(&self) -> (r: &W)
        ensures
            *r == self.work_spec(),
    {
        &self.work
    }

    pub fn get_running_scene(&self) -> (r: Option<&Sc>)
        ensures
            r == match self@.running_scene {
                Some(s) => Some(&s),
                None => None::<&Sc>,
            },
    {
        self.running_scene.as_ref()
    }

    pub fn get_scene(&self) -> (r: Option<&Sc>)
        ensures
            r == match self@.running_scene {
                Some(s) => Some(&s),
                None => None::<&Sc>,
            },
    {
        self.running_scene.as_ref()
    }

    /// Calls the listeners of `event`, in the order they were added.
    pub fn emit(&self, event: &DirectorEvent) {
        let mut i: usize = 0;
        while i < self.listeners.len()
            invariant
                i <= self.listeners@.len(),
            decreases self.listeners@.len() - i,
        {
            if self.listeners[i].event == *event {
                self.listeners[i].listener.call();
            }
            i = i + 1;
        }
    }

    fn emit_logged(&mut self, event: DirectorEvent)
        ensures
            final(self)@ == (DirectorView { emitted: old(self)@.emitted.push(event), ..old(self)@ }),
            final(self).work_spec() == old(self).work_spec(),
            final(self).work_runs() == old(self).work_runs(),
    {
        self.emit(&event);
        proof {
            self.emitted@ = self.emitted@.push(event);
        }
    }

    /// Makes `scene` the running scene; when one was running, listeners are
    /// told before the launch; they are told after it in any case.
    pub fn run_scene(&mut self, scene: Sc)
        ensures
            final(self)@ == (DirectorView {
                running_scene: Some(scene),
                emitted: if old(self)@.running_scene is Some {
                    old(self)@.emitted.push(DirectorEvent::BeforeSceneLaunch).push(DirectorEvent::AfterSceneLaunch)
                } else {
                    old(self)@.emitted.push(DirectorEvent::AfterSceneLaunch)
                },
                ..old(self)@
            }),
            final(self).work_spec() == old(self).work_spec(),
    {
        if self.running_scene.is_some() {
            self.emit_logged(DirectorEvent::BeforeSceneLaunch);
        }
        self.running_scene = Some(scene);
        self.emit_logged(DirectorEvent::AfterSceneLaunch);
    }

    pub fn is_paused(&self) -> (r: bool)
        ensures
            r == self@.paused,
    {
        self.paused
    }

    pub fn pause(&mut self)
        ensures
            final(self)@ == (DirectorView { paused: true, ..old(self)@ }),
            final(self).work_spec() == old(self).work_spec(),
    {
        self.paused = true;
    }

    pub fn resume(&mut self)
        ensures
            final(self)@ == (DirectorView { paused: false, ..old(self)@ }),
            final(self).work_spec() == old(self).work_spec(),
    {
        self.paused = false;
    }

    /// The time step of the last frame.
    pub fn get_delta_time(&self) -> (r: Dt)
        ensures
            r == self@.delta_time,
    {
        self.delta_time
    }

    pub fn get_total_frames(&self) -> (r: u64)
        ensures
            r == self@.total_frames,
    {
        self.total_frames
    }

    /// Runs one frame of `dt` unless paused: the frame is counted, and the
    /// per-frame work runs once, with the running scene and `dt`, between
    /// the update events of the frame (after `BeginFrame` and
    /// `BeforeUpdate`, before `AfterUpdate`).
    pub fn main_loop(&mut self, dt: Dt)
        requires
            old(self)@.total_frames < u64::MAX,
        ensures
            old(self)@.paused ==> final(self)@ == old(self)@ && final(self).work_spec() == old(self).work_spec(),
            old(self)@.paused ==> final(self).work_runs() == old(self).work_runs(),
            !old(self)@.paused ==> final(self).work_spec().updated_with(old(self)@.running_scene, dt),
            !old(self)@.paused ==> final(self).work_runs() == old(self).work_runs().push(
                (old(self)@.running_scene, dt, old(self)@.emitted.len() + 2),
            ),
            !old(self)@.paused ==> final(self)@ == (DirectorView {
                delta_time: dt,
                total_frames: (old(self)@.total_frames + 1) as u64,
                emitted: old(self)@.emitted + frame_events(),
                ..old(self)@
            }),
    {
        if self.paused {
            return ;
        }
        self.delta_time = dt;
        self.total_frames = self.total_frames + 1;
        let ghost e0 = self@.emitted;
        self.emit_logged(DirectorEvent::BeginFrame);
        self.emit_logged(DirectorEvent::BeforeUpdate);
        self.run_work(dt);
        self.emit_logged(DirectorEvent::AfterUpdate);
        self.emit_logged(DirectorEvent::BeforeRender);
        self.emit_logged(DirectorEvent::AfterRender);
        self.emit_logged(DirectorEvent::EndFrame);
        assert(self@.emitted =~= e0 + frame_events());
    }

    /// Adds a listener for `event`.
    pub fn on<F: Fn() + Send + Sync + 'static>(&mut self, event: DirectorEvent, cb: F)
        requires
            call_requires(cb, ()),
        ensures
            final(self)@ == (DirectorView { listeners: old(self)@.listeners.push(event), ..old(self)@ }),
            final(self).work_spec() == old(self).work_spec(),
    {
        let slot = DirectorListenerSlot::new(event, cb);
        self.listeners.push(slot);
        assert(events_of(self.listeners@) =~= events_of(old(self).listeners@).push(event));
    }

    /// Removes every listener for `event`.
    pub fn off(&mut self, event: &DirectorEvent)
        ensures
            final(self)@ == (DirectorView {
                listeners: old(self)@.listeners.filter(other_director_event(*event)),
                ..old(self)@
            }),
            final(self).work_spec() == old(self).work_spec(),
    {
        let ghost orig = self@.listeners;
        let ghost pred = other_director_event(*event);
        let ghost v0 = self@;
        let mut all: Vec<DirectorListenerSlot> = Vec::new();
        std::mem::swap(&mut all, &mut self.listeners);
        let total = all.len();
        let mut i: usize = 0;
        proof {
            reveal(Seq::filter);
        }
        assert(orig.take(0) =~= Seq::<DirectorEvent>::empty());
        assert(events_of(self.listeners@) =~= Seq::<DirectorEvent>::empty());
        assert(events_of(all@) =~= orig.skip(0));
        while all.len() > 0
            invariant
                i + all@.len() == orig.len(),
                orig.len() == total,
                events_of(all@) == orig.skip(i as int),
                events_of(self.listeners@) == orig.take(i as int).filter(pred),
                pred == other_director_event(*event),
                self@ == (DirectorView { listeners: self@.listeners, ..v0 }),
                v0 == old(self)@,
                self.work_spec() == old(self).work_spec(),
            decreases all@.len(),
        {
            let ghost before = all@;
            let ghost kept = self.listeners@;
            let slot = all.remove(0);
            assert(slot.event == orig[i as int]) by {
                assert(events_of(before)[0] == orig.skip(i as int)[0]);
            }
            assert(events_of(all@) =~= orig.skip(i + 1)) by {
                assert forall|j: int| 0 <= j < all@.len() implies events_of(all@)[j] == orig.skip(i + 1)[j] by {
                    assert(all@[j] == before[j + 1]);
                    assert(events_of(before)[j + 1] == orig.skip(i as int)[j + 1]);
                }
            }
            proof {
                lemma_filter_push(orig.take(i as int), slot.event, pred);
                assert(orig.take(i + 1) =~= orig.take(i as int).push(slot.event));
            }
            if slot.event != *event {
                let ghost t = slot.event;
                self.listeners.push(slot);
                assert(events_of(self.listeners@) =~= events_of(kept).push(t));
            }
            i = i + 1;
        }
        assert(orig.take(i as int) =~= orig);
    }

    /// Drops the running scene and every scheduled callback.
    pub fn end(&mut self)
        ensures
            final(self)@ == (DirectorView { running_scene: None, ..old(self)@ }),
    {
        self.running_scene = None;
        self.work.unschedule_all();
    }
}

/// A director is what a game drives: each step of the game runs one of its
/// frames.
impl<Sc, Dt: Copy, W: FrameWork<Sc, Dt>> GameDirector<Dt> for Director<Sc, Dt, W> {
    /// The frame count can still grow.
    open spec fn can_run_frame(&self) -> bool {
        self@.total_frames < u64::MAX
    }

    /// A paused director stays as it is; otherwise the frame is counted,
    /// `dt` becomes the time step, the frame's events are emitted, and the
    /// per-frame work runs once with the running scene and `dt`, right
    /// after `BeginFrame` and `BeforeUpdate`.
    open spec fn ran_frame(&self, dt: Dt, after: Self) -> bool {
        &&& self@.paused ==> after@ == self@ && after.work_spec() == self.work_spec() && after.work_runs()
            == self.work_runs()
        &&& !self@.paused ==> after.work_spec().updated_with(self@.running_scene, dt)
        &&& !self@.paused ==> after.work_runs() == self.work_runs().push(
            (self@.running_scene, dt, self@.emitted.len() + 2),
        )
        &&& !self@.paused ==> after@ == (DirectorView {
            delta_time: dt,
            total_frames: (self@.total_frames + 1) as u64,
            emitted: self@.emitted + frame_events(),
            ..self@
        })
    }

    fn pause(&mut self) {
        Director::pause(self);
    }

    fn resume(&mut self) {
        Director::resume(self);
    }

    fn main_loop(&mut self, dt: Dt) {
        Director::main_loop(self, dt);
    }
}

} // verus!

use std::any::Any;
use std::sync::atomic::{AtomicBool, Ordering};
use std::sync::{Arc, Mutex};

use cocos_engine::state_machine::{State, StateMachine, Transition, TransitionCondition, TransitionResult};

trait AnyState: State<f32> + Any {
    fn as_any(&self) -> &dyn Any;
}

impl<T: State<f32> + Any> AnyState for T {
    fn as_any(&self) -> &dyn Any {
        self
    }
}

type Boxed = Box<dyn AnyState>;

impl State<f32> for Boxed {
    fn name(&self) -> &str {
        (**self).name()
    }
    fn on_enter(&mut self, prev: Option<&str>) {
        (**self).on_enter(prev)
    }
    fn on_exit(&mut self, next: Option<&str>) {
        (**self).on_exit(next)
    }
    fn on_update(&mut self, dt: f32) {
        (**self).on_update(dt)
    }
}

type Machine = StateMachine<Boxed, f32>;

struct IdleState {
    pub enter_count: u32,
    pub exit_count: u32,
    pub update_count: u32,
}

impl IdleState {
    fn new() -> Self {
        IdleState { enter_count: 0, exit_count: 0, update_count: 0 }
    }
}

impl State<f32> for IdleState {
    fn name(&self) -> &str {
        "Idle"
    }
    fn on_enter(&mut self, _: Option<&str>) {
        self.enter_count += 1;
    }
    fn on_exit(&mut self, _: Option<&str>) {
        self.exit_count += 1;
    }
    fn on_update(&mut self, _dt: f32) {
        self.update_count += 1;
    }
}

struct RunState {
    pub speed: f32,
    pub enter_count: u32,
}

impl RunState {
    fn new(speed: f32) -> Self {
        RunState { speed, enter_count: 0 }
    }
}

impl State<f32> for RunState {
    fn name(&self) -> &str {
        "Run"
    }
    fn on_enter(&mut self, _: Option<&str>) {
        self.enter_count += 1;
    }
    fn on_exit(&mut self, _: Option<&str>) {}
    fn on_update(&mut self, _dt: f32) {}
}

struct AttackState;

impl State<f32> for AttackState {
    fn name(&self) -> &str {
        "Attack"
    }
    fn on_enter(&mut self, _: Option<&str>) {}
    fn on_exit(&mut self, _: Option<&str>) {}
    fn on_update(&mut self, _dt: f32) {}
}

fn make_sm() -> Machine {
    let mut sm = Machine::new();
    sm.add_state(Box::new(IdleState::new()));
    sm.add_state(Box::new(RunState::new(5.0)));
    sm.add_state(Box::new(AttackState));
    sm
}

fn get_state<'a, S: 'static>(sm: &'a Machine, name: &str) -> Option<&'a S> {
    sm.get_state(name).and_then(|s| (**s).as_any().downcast_ref::<S>())
}

#[test]
fn test_transition_new_and_priority() {
    let flag = Arc::new(AtomicBool::new(false));
    let f = Arc::clone(&flag);
    let t = Transition::new("idle", "run", move || f.load(Ordering::SeqCst)).with_priority(5);
    assert_eq!(t.from, "idle");
    assert_eq!(t.to, "run");
    assert_eq!(t.priority, 5);
    assert!(!t.condition.holds());
    flag.store(true, Ordering::SeqCst);
    assert!(t.condition.holds());
    assert_ne!(TransitionResult::Accepted, TransitionResult::NotFound);
}

#[test]
fn test_state_machine_new() {
    let sm = Machine::new();
    assert!(sm.get_current().is_none());
    assert_eq!(sm.get_transition_count(), 0);
}

#[test]
fn test_start() {
    let mut sm = make_sm();
    assert!(sm.start("Idle"));
    assert!(sm.is_in("Idle"));
}

#[test]
fn test_start_unknown_fails() {
    let mut sm = make_sm();
    assert!(!sm.start("Unknown"));
}

#[test]
fn test_transition_to() {
    let mut sm = make_sm();
    sm.start("Idle");
    let r = sm.transition_to("Run");
    assert_eq!(r, TransitionResult::Accepted);
    assert!(sm.is_in("Run"));
    assert_eq!(sm.get_previous(), Some("Idle"));
}

#[test]
fn test_transition_to_same_state() {
    let mut sm = make_sm();
    sm.start("Idle");
    let r = sm.transition_to("Idle");
    assert_eq!(r, TransitionResult::Rejected);
}

#[test]
fn test_transition_to_unknown() {
    let mut sm = make_sm();
    sm.start("Idle");
    let r = sm.transition_to("Ghost");
    assert_eq!(r, TransitionResult::NotFound);
}

#[test]
fn test_on_enter_exit_called() {
    let mut sm = make_sm();
    sm.start("Idle");
    sm.transition_to("Run");
    assert_eq!(get_state::<IdleState>(&sm, "Idle").unwrap().exit_count, 1);
    assert_eq!(get_state::<RunState>(&sm, "Run").unwrap().enter_count, 1);
}

#[test]
fn test_on_state_change_callback() {
    let mut sm = make_sm();
    let log = Arc::new(Mutex::new(Vec::<String>::new()));
    let l = Arc::clone(&log);
    sm.on_state_change(move |from, to| {
        l.lock().unwrap().push(format!("{}->{}", from, to));
    });
    sm.start("Idle");
    sm.transition_to("Run");
    sm.transition_to("Attack");
    let v = log.lock().unwrap();
    assert_eq!(v.len(), 2);
    assert_eq!(v[0], "Idle->Run");
    assert_eq!(v[1], "Run->Attack");
}

#[test]
fn test_update_calls_current_state() {
    let mut sm = make_sm();
    sm.start("Idle");
    sm.update(0.016);
    sm.update(0.016);
    assert_eq!(get_state::<IdleState>(&sm, "Idle").unwrap().update_count, 2);
}

#[test]
fn test_auto_transition_condition() {
    let flag = Arc::new(Mutex::new(false));
    let f = Arc::clone(&flag);
    let mut sm = make_sm();
    sm.add_transition(Transition::new("Idle", "Run", move || *f.lock().unwrap()));
    sm.start("Idle");
    sm.update(0.0);
    assert!(sm.is_in("Idle"));
    *flag.lock().unwrap() = true;
    sm.update(0.0);
    assert!(sm.is_in("Run"));
}

#[test]
fn test_global_guard_blocks_transition() {
    let mut sm = make_sm();
    sm.set_global_guard(|_from, to| to != "Attack");
    sm.start("Idle");
    let r = sm.transition_to("Attack");
    assert_eq!(r, TransitionResult::Rejected);
    assert!(sm.is_in("Idle"));
}

#[test]
fn test_transition_count() {
    let mut sm = make_sm();
    sm.start("Idle");
    sm.transition_to("Run");
    sm.transition_to("Attack");
    assert_eq!(sm.get_transition_count(), 2);
}

#[test]
fn test_history() {
    let mut sm = make_sm();
    sm.start("Idle");
    sm.transition_to("Run");
    sm.transition_to("Attack");
    assert_eq!(sm.get_history(), &["Idle", "Run", "Attack"]);
}

#[test]
fn test_has_state() {
    let sm = make_sm();
    assert!(sm.has_state("Idle"));
    assert!(!sm.has_state("Ghost"));
}

#[test]
fn test_any_transition() {
    let fired = Arc::new(Mutex::new(false));
    let f = Arc::clone(&fired);
    let mut sm = make_sm();
    sm.add_any_transition("Attack", move || *f.lock().unwrap(), 100);
    sm.start("Run");
    sm.update(0.0);
    assert!(sm.is_in("Run"));
    *fired.lock().unwrap() = true;
    sm.update(0.0);
    assert!(sm.is_in("Attack"));
}

#[test]
fn test_get_state_downcast() {
    let mut sm = make_sm();
    sm.start("Run");
    let run = get_state::<RunState>(&sm, "Run");
    assert!(run.is_some());
    assert!((run.unwrap().speed - 5.0).abs() < 1e-6);
}

#[test]
fn test_go_back_returns_to_previous_state() {
    let mut sm = make_sm();
    assert!(!sm.go_back());
    sm.start("Idle");
    sm.transition_to("Run");
    assert!(sm.go_back());
    assert!(sm.is_in("Idle"));
    assert_eq!(sm.get_previous(), Some("Run"));
    assert_eq!(sm.get_history(), &["Idle"]);
    assert_eq!(sm.get_transition_count(), 2);
}

#[test]
fn test_priority_order_picks_highest_first() {
    let mut sm = make_sm();
    sm.add_transition(Transition::new("Idle", "Run", || true).with_priority(1));
    sm.add_transition(Transition::new("Idle", "Attack", || true).with_priority(2));
    sm.start("Idle");
    sm.update(0.0);
    assert!(sm.is_in("Attack"));
}

#[test]
fn test_equal_priority_keeps_insertion_order() {
    let mut sm = make_sm();
    sm.add_transition(Transition::new("Idle", "Run", || true));
    sm.add_transition(Transition::new("Idle", "Attack", || true));
    sm.start("Idle");
    sm.update(0.0);
    assert!(sm.is_in("Run"));
}

#[test]
fn test_clear_history_and_rejected_keeps_state() {
    let mut sm = make_sm();
    sm.start("Idle");
    assert_eq!(sm.transition_to("Idle"), TransitionResult::Rejected);
    assert_eq!(sm.get_transition_count(), 0);
    sm.clear_history();
    assert!(sm.get_history().is_empty());
    assert!(!sm.go_back());
}

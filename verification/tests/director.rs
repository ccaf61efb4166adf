use std::sync::{Arc, Mutex};

use cocos_engine::game::director::{Director, DirectorEvent, FrameWork};

struct Scene {
    name: String,
}

impl Scene {
    fn new(name: &str) -> Self {
        Scene { name: name.to_string() }
    }
}

#[derive(Default)]
struct Work {
    updates: u32,
    unscheduled: bool,
}

impl FrameWork<Scene, f32> for Work {
    fn update(&mut self, _scene: &Option<Scene>, _dt: f32) {
        self.updates += 1;
    }
    fn unschedule_all(&mut self) {
        self.unscheduled = true;
    }
}

type TestDirector = Director<Scene, f32, Work>;

fn new_director() -> TestDirector {
    Director::new(Work::default(), 0.0)
}

#[test]
fn test_director_new() {
    let d = new_director();
    assert!(!d.is_paused());
    assert_eq!(d.get_total_frames(), 0);
    assert!(d.get_running_scene().is_none());
}

#[test]
fn test_director_pause_resume() {
    let mut d = new_director();
    d.pause();
    assert!(d.is_paused());
    d.resume();
    assert!(!d.is_paused());
}

#[test]
fn test_director_main_loop() {
    let mut d = new_director();
    d.main_loop(0.016);
    assert_eq!(d.get_total_frames(), 1);
    assert!((d.get_delta_time() - 0.016).abs() < 1e-6);
}

#[test]
fn test_director_main_loop_paused() {
    let mut d = new_director();
    d.pause();
    d.main_loop(0.016);
    assert_eq!(d.get_total_frames(), 0);
}

#[test]
fn test_director_run_scene() {
    let mut d = new_director();
    let scene = Scene::new("TestScene");
    d.run_scene(scene);
    assert!(d.get_running_scene().is_some());
    assert_eq!(d.get_running_scene().unwrap().name, "TestScene");
}

#[test]
fn test_director_event_callback() {
    let mut d = new_director();
    let count = Arc::new(Mutex::new(0u32));
    let c = Arc::clone(&count);
    d.on(DirectorEvent::BeginFrame, move || {
        *c.lock().unwrap() += 1;
    });
    d.main_loop(0.016);
    assert_eq!(*count.lock().unwrap(), 1);
}

#[test]
fn test_director_off_event() {
    let mut d = new_director();
    let count = Arc::new(Mutex::new(0u32));
    let c = Arc::clone(&count);
    d.on(DirectorEvent::BeginFrame, move || {
        *c.lock().unwrap() += 1;
    });
    d.off(&DirectorEvent::BeginFrame);
    d.main_loop(0.016);
    assert_eq!(*count.lock().unwrap(), 0);
}

#[test]
fn test_director_end() {
    let mut d = new_director();
    let scene = Scene::new("S");
    d.run_scene(scene);
    d.end();
    assert!(d.get_running_scene().is_none());
    assert!(d.get_work().unscheduled);
}

#[test]
fn test_director_multi_frames() {
    let mut d = new_director();
    for _ in 0..10 {
        d.main_loop(0.016);
    }
    assert_eq!(d.get_total_frames(), 10);
    assert_eq!(d.get_work().updates, 10);
}

#[test]
fn test_director_frame_event_order() {
    let mut d = new_director();
    let log = Arc::new(Mutex::new(Vec::<DirectorEvent>::new()));
    for e in [
        DirectorEvent::EndFrame,
        DirectorEvent::BeginFrame,
        DirectorEvent::AfterRender,
        DirectorEvent::BeforeUpdate,
        DirectorEvent::AfterUpdate,
        DirectorEvent::BeforeRender,
        DirectorEvent::BeforeSceneLaunch,
        DirectorEvent::AfterSceneLaunch,
    ] {
        let l = Arc::clone(&log);
        d.on(e, move || l.lock().unwrap().push(e));
    }
    d.run_scene(Scene::new("A"));
    d.run_scene(Scene::new("B"));
    d.main_loop(0.5);
    assert_eq!(
        *log.lock().unwrap(),
        vec![
            DirectorEvent::AfterSceneLaunch,
            DirectorEvent::BeforeSceneLaunch,
            DirectorEvent::AfterSceneLaunch,
            DirectorEvent::BeginFrame,
            DirectorEvent::BeforeUpdate,
            DirectorEvent::AfterUpdate,
            DirectorEvent::BeforeRender,
            DirectorEvent::AfterRender,
            DirectorEvent::EndFrame,
        ]
    );
}

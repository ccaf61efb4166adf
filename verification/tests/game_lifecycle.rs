use std::sync::{Arc, Mutex};

use cocos_engine::game::bootstrap::{GameBootstrapContract, GameConfig, GameEvent};
use cocos_engine::game::director::{Director, FrameWork};
use cocos_engine::game::game::Game;

struct Scene;

struct NoWork;

impl FrameWork<Scene, f32> for NoWork {
    fn update(&mut self, _scene: &Option<Scene>, _dt: f32) {}
    fn unschedule_all(&mut self) {}
}

type TestDirector = Director<Scene, f32, NoWork>;
type TestGame = Game<TestDirector, f32>;

fn new_director() -> TestDirector {
    Director::new(NoWork, 0.0)
}

fn new_game() -> TestGame {
    Game::new(new_director())
}

fn contract(style: &str, entry: Option<&str>, source: Option<&str>) -> GameBootstrapContract {
    GameBootstrapContract {
        runtime_style: style.to_string(),
        main_entry: entry.map(|s| s.to_string()),
        main_entry_source: source.map(|s| s.to_string()),
        game_path: "test/path".to_string(),
        settings_path: None,
        settings_source: None,
        entry_candidates: entry.map(|s| vec![s.to_string()]).unwrap_or_default(),
    }
}

#[test]
fn test_game_new() {
    let g = new_game();
    assert!(!g.is_inited());
    assert!(!g.is_paused());
    assert_eq!(g.get_frame_rate(), 60);
}

#[test]
fn test_game_init() {
    let mut g = new_game();
    g.init();
    assert!(g.is_inited());
}

#[test]
fn test_game_init_twice() {
    let mut g = new_game();
    g.init();
    g.init();
    assert!(g.is_inited());
}

#[test]
fn test_game_pause_resume() {
    let mut g = new_game();
    g.init();
    g.pause();
    assert!(g.is_paused());
    g.resume();
    assert!(!g.is_paused());
}

#[test]
fn test_game_step() {
    let mut g = new_game();
    g.init();
    g.step(0.016);
    assert_eq!(g.get_director().get_total_frames(), 1);
}

#[test]
fn test_game_step_before_init() {
    let mut g = new_game();
    g.step(0.016);
    assert_eq!(g.get_director().get_total_frames(), 0);
}

#[test]
fn test_start_with_bootstrap_accepts_bootstrap_only_mode() {
    let mut g = new_game();
    g.init();
    let bootstrap = contract("bootstrap-only", Some("index.js"), Some(""));
    let result = g.start_with_bootstrap(&bootstrap);
    assert!(result.is_ok());
}

#[test]
fn test_start_with_bootstrap_rejects_unsupported_runtime_style() {
    let mut g = new_game();
    g.init();
    let bootstrap = contract("mystery-runtime", Some("main.js"), Some(""));
    let result = g.start_with_bootstrap(&bootstrap);
    let err = result.expect_err("unsupported runtime should fail");
    assert_eq!(err.code(), "UNSUPPORTED_RUNTIME");
}

#[test]
fn test_start_with_bootstrap_rejects_missing_entry() {
    let mut g = new_game();
    g.init();
    let bootstrap = GameBootstrapContract {
        runtime_style: "legacy-cocos2d-js".to_string(),
        main_entry: None,
        main_entry_source: None,
        game_path: "test/path".to_string(),
        settings_path: None,
        settings_source: None,
        entry_candidates: vec![],
    };
    let result = g.start_with_bootstrap(&bootstrap);
    let err = result.expect_err("missing entry should fail");
    assert_eq!(err.code(), "MISSING_MAIN_ENTRY");
}

#[test]
fn test_start_with_bootstrap_returns_unimplemented_reason_for_js_runtime_styles() {
    let mut g = new_game();
    g.init();
    let bootstrap = contract("legacy-cocos2d-js", Some("main.js"), Some("window.boot = function() {};\n"));
    let err = g.start_with_bootstrap(&bootstrap).expect_err("legacy runtime is still unimplemented");
    assert_eq!(err.code(), "RUNTIME_UNAVAILABLE");
    assert!(err.message().contains("not implemented"));
    assert!(err.message().contains("native JS runtime path is not implemented"));
}

#[test]
fn test_start_with_bootstrap_returns_source_missing_reason_for_js_runtime_styles() {
    let mut g = new_game();
    g.init();
    let bootstrap = contract("modern-systemjs", Some("application.js"), None);
    let err = g
        .start_with_bootstrap(&bootstrap)
        .expect_err("missing entry source should fail for js runtime");
    assert_eq!(err.code(), "RUNTIME_UNAVAILABLE");
    assert!(err.message().contains("main entry source is not available"));
}

#[test]
fn test_start_with_bootstrap_validates_legacy_bootstrap_entrypoint() {
    let mut g = new_game();
    g.init();
    let bootstrap = contract("legacy-cocos2d-js", Some("main.js"), Some("console.log('hello');"));
    let err = g
        .start_with_bootstrap(&bootstrap)
        .expect_err("legacy main entry without window.boot should fail preflight");
    assert_eq!(err.code(), "RUNTIME_UNAVAILABLE");
    assert!(err.message().contains("legacy style expects window.boot definition"));
}

#[test]
fn test_start_with_bootstrap_validates_modern_bootstrap_entrypoint() {
    let mut g = new_game();
    g.init();
    let bootstrap = contract("modern-systemjs", Some("application.js"), Some("var x = 1;"));
    let err = g
        .start_with_bootstrap(&bootstrap)
        .expect_err("modern application.js without System.register should fail preflight");
    assert_eq!(err.code(), "RUNTIME_UNAVAILABLE");
    assert!(err.message().contains("modern style expects"));
}

#[test]
fn test_game_event_callback() {
    let mut g = new_game();
    let fired = Arc::new(Mutex::new(false));
    let f = Arc::clone(&fired);
    g.on(GameEvent::GameInited, move |_| {
        *f.lock().unwrap() = true;
    });
    g.init();
    assert!(*fired.lock().unwrap());
}

#[test]
fn test_game_off_event() {
    let mut g = new_game();
    let count = Arc::new(Mutex::new(0u32));
    let c = Arc::clone(&count);
    g.on(GameEvent::GameInited, move |_| {
        *c.lock().unwrap() += 1;
    });
    g.off(&GameEvent::GameInited);
    g.init();
    assert_eq!(*count.lock().unwrap(), 0);
}

#[test]
fn test_game_set_frame_rate() {
    let mut g = new_game();
    g.set_frame_rate(30);
    assert_eq!(g.get_frame_rate(), 30);
}

#[test]
fn test_game_restart() {
    let mut g = new_game();
    g.init();
    g.step(0.016);
    g.restart();
    assert!(g.is_inited());
}

#[test]
fn test_game_with_config() {
    let cfg = GameConfig { frame_rate: 30, show_fps: true, debug_mode: 1, render_mode: 2 };
    let g: TestGame = Game::with_config(cfg, new_director());
    assert_eq!(g.get_frame_rate(), 30);
    assert!(g.get_config().show_fps);
}

#[test]
fn test_game_event_order_and_pause_once() {
    let mut g = new_game();
    let log = Arc::new(Mutex::new(Vec::<GameEvent>::new()));
    for e in [GameEvent::EngineInited, GameEvent::GameInited, GameEvent::Pause, GameEvent::Resume, GameEvent::Restart] {
        let l = Arc::clone(&log);
        g.on(e, move |ev| l.lock().unwrap().push(*ev));
    }
    g.init();
    g.init();
    g.pause();
    g.pause();
    g.step(0.016);
    assert_eq!(g.get_director().get_total_frames(), 0);
    g.resume();
    g.resume();
    g.restart();
    assert_eq!(
        *log.lock().unwrap(),
        vec![
            GameEvent::EngineInited,
            GameEvent::GameInited,
            GameEvent::Pause,
            GameEvent::Resume,
            GameEvent::Restart,
            GameEvent::EngineInited,
            GameEvent::GameInited,
        ]
    );
}

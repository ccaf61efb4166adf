use cocos_engine::scene_manager::{SceneManager, SceneState};

struct Scene {
    name: String,
}

fn make_scene(name: &str) -> Scene {
    Scene { name: name.to_string() }
}

#[test]
fn test_scene_manager_new() {
    let sm: SceneManager<Scene> = SceneManager::new();
    assert!(sm.get_active_scene_name().is_none());
    assert!(sm.get_registered_scenes().is_empty());
}

#[test]
fn test_scene_manager_register() {
    let mut sm = SceneManager::new();
    sm.register("Main", || make_scene("Main"));
    assert!(sm.get_registered_scenes().contains(&"Main"));
    assert_eq!(sm.get_scene_state("Main"), Some(SceneState::Unloaded));
}

#[test]
fn test_scene_manager_preload() {
    let mut sm = SceneManager::new();
    sm.register("Level1", || make_scene("Level1"));
    let ok = sm.preload("Level1");
    assert!(ok);
    assert_eq!(sm.get_scene_state("Level1"), Some(SceneState::Loaded));
    assert!(sm.is_scene_loaded("Level1"));
}

#[test]
fn test_scene_manager_preload_unknown() {
    let mut sm: SceneManager<Scene> = SceneManager::new();
    let ok = sm.preload("Unknown");
    assert!(!ok);
}

#[test]
fn test_scene_manager_run() {
    let mut sm = SceneManager::new();
    sm.register("Menu", || make_scene("Menu"));
    let scene = sm.run("Menu");
    assert!(scene.is_some());
    assert_eq!(scene.unwrap().name, "Menu");
    assert_eq!(sm.get_active_scene_name(), Some("Menu"));
    assert_eq!(sm.get_scene_state("Menu"), Some(SceneState::Active));
}

#[test]
fn test_scene_manager_run_unregistered_auto_loads() {
    let mut sm = SceneManager::new();
    sm.register("Game", || make_scene("Game"));
    let scene = sm.run("Game");
    assert!(scene.is_some());
}

#[test]
fn test_scene_manager_run_unknown() {
    let mut sm: SceneManager<Scene> = SceneManager::new();
    let scene = sm.run("Unknown");
    assert!(scene.is_none());
}

#[test]
fn test_scene_manager_switch_scenes() {
    let mut sm = SceneManager::new();
    sm.register("Menu", || make_scene("Menu"));
    sm.register("Game", || make_scene("Game"));
    sm.run("Menu");
    sm.run("Game");
    assert_eq!(sm.get_active_scene_name(), Some("Game"));
    assert_eq!(sm.get_previous_scene_name(), Some("Menu"));
    assert_eq!(sm.get_history(), &["Menu".to_string()]);
}

#[test]
fn test_scene_manager_unload() {
    let mut sm = SceneManager::new();
    sm.register("Level", || make_scene("Level"));
    sm.run("Level");
    sm.unload("Level");
    assert_eq!(sm.get_scene_state("Level"), Some(SceneState::Unloaded));
    assert!(sm.get_active_scene_name().is_none());
}

#[test]
fn test_scene_manager_go_back() {
    let mut sm = SceneManager::new();
    sm.register("Menu", || make_scene("Menu"));
    sm.register("Game", || make_scene("Game"));
    sm.run("Menu");
    sm.run("Game");
    let back = sm.go_back();
    assert_eq!(back, Some("Menu".to_string()));
    assert!(sm.get_history().is_empty());
}

#[test]
fn test_scene_manager_go_back_empty_history() {
    let mut sm: SceneManager<Scene> = SceneManager::new();
    let back = sm.go_back();
    assert!(back.is_none());
}

#[test]
fn test_scene_manager_clear_history() {
    let mut sm = SceneManager::new();
    sm.register("A", || make_scene("A"));
    sm.register("B", || make_scene("B"));
    sm.register("C", || make_scene("C"));
    sm.run("A");
    sm.run("B");
    sm.run("C");
    assert_eq!(sm.get_history().len(), 2);
    sm.clear_history();
    assert!(sm.get_history().is_empty());
}

#[test]
fn test_scene_manager_load_sets_loading() {
    let mut sm = SceneManager::new();
    sm.register("Level2", || make_scene("Level2"));
    sm.load("Level2");
    assert_eq!(sm.get_loading_scene_name(), Some("Level2"));
}

#[test]
fn test_scene_manager_preload_twice_no_duplicate() {
    let mut sm = SceneManager::new();
    sm.register("Lobby", || make_scene("Lobby"));
    sm.preload("Lobby");
    sm.preload("Lobby");
    assert_eq!(sm.get_scene_state("Lobby"), Some(SceneState::Loaded));
}

#[test]
fn test_scene_manager_run_additive_and_active_twice() {
    let mut sm = SceneManager::new();
    sm.register("Main", || make_scene("Main"));
    sm.register("Hud", || make_scene("Hud"));
    assert_eq!(sm.run("Main").unwrap().name, "Main");
    assert!(sm.run("Main").is_none());
    let hud = sm.run_additive("Hud");
    assert_eq!(hud.unwrap().name, "Hud");
    assert_eq!(sm.get_scene_state("Hud"), Some(SceneState::Active));
    assert_eq!(sm.get_active_scene_name(), Some("Main"));
    assert!(sm.run_additive("Hud").is_none());
    assert!(sm.run_additive("Nope").is_none());
}

#[test]
fn test_scene_manager_preloaded_scene_is_handed_out_and_previous_unloaded() {
    let mut sm = SceneManager::new();
    sm.register("A", || make_scene("A"));
    sm.register("B", || make_scene("B"));
    sm.run("A");
    assert!(sm.preload("B"));
    assert_eq!(sm.get_loading_scene_name(), None);
    assert_eq!(sm.run("B").unwrap().name, "B");
    assert_eq!(sm.get_scene_state("A"), Some(SceneState::Unloaded));
    assert!(!sm.is_scene_loaded("A"));
    assert_eq!(sm.get_registered_scenes().len(), 2);
}

use std::any::Any;

use cocos_engine::scriptable_object::{ScriptableObject, ScriptableObjectRegistry, SoDatabase};

trait TestObject: ScriptableObject + Any {
    fn as_any(&self) -> &dyn Any;
    fn as_any_mut(&mut self) -> &mut dyn Any;
}

type Obj = Box<dyn TestObject>;

#[derive(Debug, Clone)]
struct GameConfig {
    pub difficulty: i64,
    #[allow(dead_code)]
    pub music_vol: f64,
    #[allow(dead_code)]
    pub player_name: String,
}

impl GameConfig {
    fn new() -> Self {
        GameConfig { difficulty: 1, music_vol: 0.8, player_name: "Player".to_string() }
    }
}

impl ScriptableObject for GameConfig {
    fn type_label(&self) -> &'static str {
        "GameConfig"
    }

    fn on_validate(&mut self) {
        self.difficulty = self.difficulty.clamp(1, 5);
        self.music_vol = self.music_vol.clamp(0.0, 1.0);
    }
}

impl TestObject for GameConfig {
    fn as_any(&self) -> &dyn Any {
        self
    }
    fn as_any_mut(&mut self) -> &mut dyn Any {
        self
    }
}

#[derive(Debug, Clone)]
struct LevelData {
    #[allow(dead_code)]
    pub level: i64,
    pub enemies: i64,
}

impl LevelData {
    fn new() -> Self {
        LevelData { level: 1, enemies: 10 }
    }
}

impl ScriptableObject for LevelData {
    fn type_label(&self) -> &'static str {
        "LevelData"
    }
}

impl TestObject for LevelData {
    fn as_any(&self) -> &dyn Any {
        self
    }
    fn as_any_mut(&mut self) -> &mut dyn Any {
        self
    }
}

fn game_config() -> Obj {
    Box::new(GameConfig::new())
}

fn level_data() -> Obj {
    Box::new(LevelData::new())
}

fn get<'a, T: 'static>(db: &'a SoDatabase<Obj>, id: &str) -> Option<&'a T> {
    db.get(id).and_then(|o| o.as_any().downcast_ref::<T>())
}

fn get_mut<'a, T: 'static>(db: &'a mut SoDatabase<Obj>, id: &str) -> Option<&'a mut T> {
    db.get_mut(id).and_then(|o| o.as_any_mut().downcast_mut::<T>())
}

#[test]
fn test_registry_register_and_create() {
    let mut reg: ScriptableObjectRegistry<Obj> = ScriptableObjectRegistry::new();
    reg.register("GameConfig", game_config);
    assert!(reg.is_registered("GameConfig"));
    let obj = reg.create("GameConfig");
    assert!(obj.is_some());
    assert_eq!(obj.unwrap().type_label(), "GameConfig");
}

#[test]
fn test_registry_unknown_returns_none() {
    let reg: ScriptableObjectRegistry<Obj> = ScriptableObjectRegistry::new();
    assert!(reg.create("Unknown").is_none());
}

#[test]
fn test_registry_sorted_types() {
    let mut reg: ScriptableObjectRegistry<Obj> = ScriptableObjectRegistry::new();
    reg.register("LevelData", level_data);
    reg.register("GameConfig", game_config);
    let types = reg.registered_types();
    assert_eq!(types, vec!["GameConfig", "LevelData"]);
}

#[test]
fn test_database_store_and_get() {
    let mut db: SoDatabase<Obj> = SoDatabase::new();
    db.store("cfg", game_config());
    assert!(db.contains("cfg"));
    let cfg = get::<GameConfig>(&db, "cfg");
    assert!(cfg.is_some());
    assert_eq!(cfg.unwrap().difficulty, 1);
}

#[test]
fn test_database_get_mut() {
    let mut db: SoDatabase<Obj> = SoDatabase::new();
    db.store("cfg", game_config());
    get_mut::<GameConfig>(&mut db, "cfg").unwrap().difficulty = 3;
    assert_eq!(get::<GameConfig>(&db, "cfg").unwrap().difficulty, 3);
}

#[test]
fn test_database_remove() {
    let mut db: SoDatabase<Obj> = SoDatabase::new();
    db.store("cfg", game_config());
    assert!(db.remove("cfg"));
    assert!(!db.contains("cfg"));
    assert!(!db.remove("cfg"));
}

#[test]
fn test_database_create_and_store() {
    let mut db: SoDatabase<Obj> = SoDatabase::new();
    db.register_type("GameConfig", game_config);
    assert!(db.create_and_store("cfg", "GameConfig"));
    assert!(db.contains("cfg"));
    assert!(!db.create_and_store("x", "Unknown"));
}

#[test]
fn test_database_len_is_empty() {
    let mut db: SoDatabase<Obj> = SoDatabase::new();
    assert!(db.is_empty());
    db.store("a", game_config());
    db.store("b", level_data());
    assert_eq!(db.len(), 2);
}

#[test]
fn test_multiple_types_in_db() {
    let mut db: SoDatabase<Obj> = SoDatabase::new();
    db.store("config", game_config());
    db.store("level1", Box::new(LevelData { level: 1, enemies: 5 }));
    let cfg = get::<GameConfig>(&db, "config");
    let lvl = get::<LevelData>(&db, "level1");
    assert!(cfg.is_some());
    assert!(lvl.is_some());
    assert_eq!(lvl.unwrap().enemies, 5);
}

#[test]
fn test_database_store_replaces_and_keeps_others() {
    let mut db: SoDatabase<Obj> = SoDatabase::new();
    db.store("a", game_config());
    db.store("b", level_data());
    db.store("a", Box::new(LevelData { level: 2, enemies: 7 }));
    assert_eq!(db.len(), 2);
    assert!(get::<GameConfig>(&db, "a").is_none());
    assert_eq!(get::<LevelData>(&db, "a").unwrap().enemies, 7);
    assert_eq!(get::<LevelData>(&db, "b").unwrap().enemies, 10);
}

#[test]
fn test_registry_sorted_types_replace_and_order() {
    let mut reg: ScriptableObjectRegistry<Obj> = ScriptableObjectRegistry::new();
    reg.register("b", level_data);
    reg.register("ab", game_config);
    reg.register("a", level_data);
    reg.register("B", level_data);
    reg.register("ab", level_data);
    assert_eq!(reg.registered_types(), vec!["B", "a", "ab", "b"]);
    assert_eq!(reg.create("ab").unwrap().type_label(), "LevelData");
}

#[test]
fn test_on_validate_hook_clamps() {
    let mut db: SoDatabase<Obj> = SoDatabase::new();
    db.store("cfg", Box::new(GameConfig { difficulty: 99, music_vol: 2.0, player_name: "Test".to_string() }));
    db.get_mut("cfg").unwrap().on_validate();
    assert_eq!(get::<GameConfig>(&db, "cfg").unwrap().difficulty, 5);
}

use cocos_engine::assets::asset_manager::{AssetManager, LoadState};

struct TextAsset {
    #[allow(dead_code)]
    uuid: String,
    #[allow(dead_code)]
    name: String,
    pub content: String,
}

struct OtherAsset;

fn make_manager() -> AssetManager<TextAsset> {
    let mut am = AssetManager::new();
    let loader = |uuid: &str| -> Option<TextAsset> {
        Some(TextAsset {
            uuid: uuid.to_string(),
            name: uuid.to_string(),
            content: format!("content of {}", uuid),
        })
    };
    am.register_loader::<TextAsset, _>(loader);
    am
}

#[test]
fn test_asset_manager_new() {
    let am: AssetManager<TextAsset> = AssetManager::new();
    assert_eq!(am.get_loaded_count(), 0);
    assert_eq!(am.get_registered_count(), 0);
}

#[test]
fn test_load_asset() {
    let mut am = make_manager();
    am.add_asset::<TextAsset>("uuid-1", "text1");
    let ok = am.load::<TextAsset>("uuid-1");
    assert!(ok);
    assert!(am.is_loaded("uuid-1"));
    assert_eq!(am.get_load_state("uuid-1"), Some(LoadState::Loaded));
    assert_eq!(am.get_total_loaded(), 1);
}

#[test]
fn test_get_asset() {
    let mut am = make_manager();
    am.add_asset::<TextAsset>("uuid-2", "text2");
    am.load::<TextAsset>("uuid-2");
    let asset = am.get("uuid-2");
    assert!(asset.is_some());
    assert_eq!(asset.unwrap().content, "content of uuid-2");
}

#[test]
fn test_get_by_name() {
    let mut am = make_manager();
    am.add_asset::<TextAsset>("uuid-3", "mytext");
    am.load::<TextAsset>("uuid-3");
    let asset = am.get_by_name("mytext");
    assert!(asset.is_some());
}

#[test]
fn test_load_no_loader_fails() {
    let mut am: AssetManager<TextAsset> = AssetManager::new();
    am.add_asset::<TextAsset>("uuid-4", "t4");
    let ok = am.load::<TextAsset>("uuid-4");
    assert!(!ok);
    assert_eq!(am.get_load_state("uuid-4"), Some(LoadState::Failed));
    assert_eq!(am.get_total_failed(), 1);
}

#[test]
fn test_ref_counting() {
    let mut am = make_manager();
    am.add_asset::<TextAsset>("uuid-5", "t5");
    am.load::<TextAsset>("uuid-5");
    assert_eq!(am.get_ref_count("uuid-5"), 1);
    am.retain("uuid-5");
    assert_eq!(am.get_ref_count("uuid-5"), 2);
    am.release("uuid-5");
    assert_eq!(am.get_ref_count("uuid-5"), 1);
    assert!(am.is_loaded("uuid-5"));
    am.release("uuid-5");
    assert_eq!(am.get_ref_count("uuid-5"), 0);
    assert!(!am.is_loaded("uuid-5"));
}

#[test]
fn test_load_twice_increments_ref() {
    let mut am = make_manager();
    am.add_asset::<TextAsset>("uuid-6", "t6");
    am.load::<TextAsset>("uuid-6");
    am.load::<TextAsset>("uuid-6");
    assert_eq!(am.get_ref_count("uuid-6"), 2);
}

#[test]
fn test_release_all() {
    let mut am = make_manager();
    am.add_asset::<TextAsset>("uuid-7", "t7");
    am.add_asset::<TextAsset>("uuid-8", "t8");
    am.load::<TextAsset>("uuid-7");
    am.load::<TextAsset>("uuid-8");
    assert_eq!(am.get_loaded_count(), 2);
    am.release_all();
    assert_eq!(am.get_loaded_count(), 0);
}

#[test]
fn test_get_unloaded_returns_none() {
    let mut am = make_manager();
    am.add_asset::<TextAsset>("uuid-9", "t9");
    let asset = am.get("uuid-9");
    assert!(asset.is_none());
}

#[test]
fn test_load_unknown_uuid_auto_entry() {
    let mut am = make_manager();
    let ok = am.load::<TextAsset>("auto-uuid");
    assert!(ok);
    assert!(am.is_loaded("auto-uuid"));
}

#[test]
fn test_loader_is_per_type() {
    let mut am = make_manager();
    let ok = am.load::<OtherAsset>("x");
    assert!(!ok);
    assert_eq!(am.get_load_state("x"), Some(LoadState::Failed));
    assert_eq!(am.get_total_failed(), 1);
    assert_eq!(am.get_total_loaded(), 0);
}

#[test]
fn test_loader_returning_nothing_fails() {
    let mut am: AssetManager<TextAsset> = AssetManager::default();
    am.register_loader::<TextAsset, _>(|_uuid: &str| -> Option<TextAsset> { None });
    am.add_asset::<TextAsset>("u", "n");
    assert!(!am.load::<TextAsset>("u"));
    assert_eq!(am.get_load_state("u"), Some(LoadState::Failed));
    assert!(am.get_by_name("n").is_none());
    assert_eq!(am.get_ref_count("u"), 0);
}

#[test]
fn test_release_unknown_and_saturation() {
    let mut am = make_manager();
    am.release("missing");
    am.retain("missing");
    assert_eq!(am.get_ref_count("missing"), 0);
    assert_eq!(am.get_load_state("missing"), None);
    am.add_asset::<TextAsset>("u", "n");
    am.release("u");
    assert_eq!(am.get_ref_count("u"), 0);
    assert_eq!(am.get_load_state("u"), Some(LoadState::Unloaded));
}

#[test]
fn test_failed_then_loader_registered() {
    let mut am: AssetManager<TextAsset> = AssetManager::new();
    assert!(!am.load::<TextAsset>("late"));
    am.register_loader::<TextAsset, _>(|uuid: &str| -> Option<TextAsset> {
        Some(TextAsset { uuid: uuid.to_string(), name: String::new(), content: String::from("x") })
    });
    assert!(am.load::<TextAsset>("late"));
    assert_eq!(am.get_total_failed(), 1);
    assert_eq!(am.get_total_loaded(), 1);
    assert_eq!(am.get_registered_count(), 1);
}

#[test]
fn test_add_asset_rename_and_reregister() {
    let mut am = make_manager();
    am.add_asset::<TextAsset>("u1", "same");
    am.add_asset::<TextAsset>("u2", "same");
    am.load::<TextAsset>("u2");
    assert_eq!(am.get_by_name("same").unwrap().content, "content of u2");
    am.add_asset::<TextAsset>("u2", "other");
    assert!(!am.is_loaded("u2"));
    assert_eq!(am.get_registered_count(), 2);
}

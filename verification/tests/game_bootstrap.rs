use cocos_engine::game::bootstrap::{
    canonical_runtime_style, check_bootstrap, entry_probe_reason, native_style_for,
    probe_bootstrap_entry, probe_bootstrap_entry_inner, runtime_unavailable_reason, GameBootstrapContract,
    GameBootstrapError, GameConfig, GameEvent, REASON_JS_BOOTSTRAP_ENTRY_NOT_DETECTED,
    REASON_UNIMPLEMENTED_JS_RUNTIME,
};
use cocos_engine::game::js_probe::js_probe_parse_state;
use std::collections::HashSet;

fn contract(style: &str, entry: Option<&str>, source: Option<&str>) -> GameBootstrapContract {
    GameBootstrapContract {
        runtime_style: style.to_string(),
        main_entry: entry.map(|s| s.to_string()),
        main_entry_source: source.map(|s| s.to_string()),
        game_path: "test/path".to_string(),
        settings_path: None,
        settings_source: None,
        entry_candidates: entry.map(|s| vec![s.to_string()]).unwrap_or_default(),
    }
}

#[test]
fn test_bootstrap_style_normalization_for_aliases() {
    let base = GameBootstrapContract {
        runtime_style: "cocos2d-js".to_string(),
        main_entry: Some("main.js".to_string()),
        main_entry_source: Some("window.boot = function() {};\n".to_string()),
        game_path: "test/path".to_string(),
        settings_path: None,
        settings_source: None,
        entry_candidates: vec!["main.js".to_string()],
    };

    let aliases: HashSet<&str> = vec![
        "legacy-cocos2d-js",
        "legacy-cocos2d-jsb",
        "legacy-cocos2d",
        "cocos2d-js",
        "cocos2d-jsb",
    ]
    .into_iter()
    .collect();
    for alias in aliases {
        let contract = GameBootstrapContract {
            runtime_style: alias.to_string(),
            ..base.clone()
        };
        assert_eq!(contract.normalized_runtime_style(), "legacy-cocos2d-js");
        assert_eq!(contract.resolve_style_for_native(), "legacy-cocos2d-js");
    }
}

#[test]
fn test_game_config_default() {
    let cfg = GameConfig::default();
    assert_eq!(cfg.frame_rate, 60);
    assert!(!cfg.show_fps);
}

#[test]
fn test_style_normalization_trims_and_lowercases() {
    let c = contract("  SystemJS \n", Some("a.js"), None);
    assert_eq!(c.normalized_runtime_style(), "modern-systemjs");
    assert_eq!(c.resolve_style_for_native(), "modern-systemjs");
    let c = contract("   ", Some("a.js"), None);
    assert_eq!(c.normalized_runtime_style(), "bootstrap-only");
    let c = contract("Mystery", Some("a.js"), None);
    assert_eq!(c.normalized_runtime_style(), "mystery");
    assert_eq!(c.resolve_style_for_native(), "unknown");
}

#[test]
fn test_canonical_styles() {
    assert_eq!(canonical_runtime_style(""), "bootstrap-only");
    assert_eq!(canonical_runtime_style("bootstrap"), "bootstrap-only");
    assert_eq!(canonical_runtime_style("esm"), "modern-systemjs");
    assert_eq!(canonical_runtime_style("cjs"), "modern-systemjs");
    assert_eq!(canonical_runtime_style("modern-cocos2d-js"), "modern-systemjs");
    assert_eq!(canonical_runtime_style("legacy-cocos2d"), "legacy-cocos2d-js");
    assert_eq!(canonical_runtime_style("other"), "other");
    assert_eq!(native_style_for("other"), "unknown");
    assert_eq!(native_style_for("bootstrap-only"), "bootstrap-only");
}

#[test]
fn test_has_main_entry() {
    assert!(contract("x", Some("main.js"), None).has_main_entry());
    assert!(!contract("x", Some("  \t"), None).has_main_entry());
    assert!(!contract("x", None, None).has_main_entry());
}

#[test]
fn test_check_bootstrap_accepts_bootstrap_only_mode() {
    let c = contract("bootstrap-only", Some("index.js"), Some(""));
    assert!(check_bootstrap(&c).is_ok());
}

#[test]
fn test_check_bootstrap_rejects_unsupported_runtime_style() {
    let c = contract("mystery-runtime", Some("main.js"), Some(""));
    let err = check_bootstrap(&c).expect_err("unsupported runtime should fail");
    assert_eq!(err.code(), "UNSUPPORTED_RUNTIME");
    assert_eq!(err.message(), "Unsupported runtime style 'mystery-runtime'");
}

#[test]
fn test_check_bootstrap_rejects_missing_entry() {
    let c = contract("legacy-cocos2d-js", None, None);
    let err = check_bootstrap(&c).expect_err("missing entry should fail");
    assert_eq!(err.code(), "MISSING_MAIN_ENTRY");
    assert_eq!(
        err.message(),
        "No usable main entry was selected for game package 'test/path'. candidates=[]"
    );
}

#[test]
fn test_check_bootstrap_unimplemented_runtime() {
    let c = contract("legacy-cocos2d-js", Some("main.js"), Some("window.boot = function() {};\n"));
    let err = check_bootstrap(&c).expect_err("legacy runtime is still unimplemented");
    assert_eq!(err.code(), "RUNTIME_UNAVAILABLE");
    assert!(err.message().contains("native JS runtime path is not implemented"));
    assert_eq!(
        err.message(),
        format!(
            "Runtime not available yet in this branch (style='legacy-cocos2d-js', main_entry='main.js', game_path='test/path', reason='{}')",
            REASON_UNIMPLEMENTED_JS_RUNTIME
        )
    );
}

#[test]
fn test_check_bootstrap_validates_entrypoints() {
    let c = contract("legacy-cocos2d-js", Some("main.js"), Some("console.log('hello');"));
    let err = check_bootstrap(&c).unwrap_err();
    assert_eq!(err.code(), "RUNTIME_UNAVAILABLE");
    assert!(err.message().contains("legacy style expects window.boot definition"));

    let c = contract("modern-systemjs", Some("application.js"), Some("var x = 1;"));
    let err = check_bootstrap(&c).unwrap_err();
    assert!(err.message().contains("modern style expects"));
}

#[test]
fn test_unavailable_reasons_for_sources() {
    let c = contract("modern-systemjs", Some("application.js"), None);
    assert_eq!(
        runtime_unavailable_reason(&c),
        "main entry source is not available in bootstrap contract"
    );
    let c = contract("modern-systemjs", Some("application.js"), Some("System.register([], f)"));
    assert_eq!(runtime_unavailable_reason(&c), REASON_UNIMPLEMENTED_JS_RUNTIME);
    let c = contract("legacy-cocos2d-js", Some("main.js"), Some("   "));
    assert_eq!(
        runtime_unavailable_reason(&c),
        format!("{}: legacy style expects window.boot definition", REASON_JS_BOOTSTRAP_ENTRY_NOT_DETECTED)
    );
}

#[test]
fn test_entry_probe() {
    assert_eq!(probe_bootstrap_entry_inner("legacy-cocos2d-js", "WINDOW.Boot = 1"), None);
    assert_eq!(probe_bootstrap_entry_inner("legacy-cocos2d-js", "window[\"boot\"]()"), None);
    assert_eq!(probe_bootstrap_entry_inner("modern-systemjs", "__initApp()"), None);
    assert_eq!(probe_bootstrap_entry_inner("bootstrap-only", "anything"), None);
    assert!(entry_probe_reason("modern-systemjs", "nothing here").is_some());
    assert_eq!(probe_bootstrap_entry("modern-systemjs", None), None);
    assert!(probe_bootstrap_entry("legacy-cocos2d-js", Some("")).is_some());
}

#[test]
fn test_error_message_lists_candidates() {
    let err = GameBootstrapError::MissingMainEntry {
        game_path: "g".to_string(),
        candidates: vec!["a.js".to_string(), "b\"c.js".to_string()],
    };
    assert_eq!(
        err.message(),
        "No usable main entry was selected for game package 'g'. candidates=[\"a.js\", \"b\\\"c.js\"]"
    );
}

#[test]
fn test_game_events() {
    assert_ne!(GameEvent::Pause, GameEvent::Resume);
}

#[test]
fn test_js_probe_balanced_sources() {
    assert!(js_probe_parse_state("window.boot = function() { return [1, (2)]; };"));
    assert!(js_probe_parse_state("// } unbalanced in comment\nvar s = '}{';"));
    assert!(js_probe_parse_state("/* ( */ var t = `a\\`b`;"));
    assert!(js_probe_parse_state(""));
}

#[test]
fn test_js_probe_unbalanced_sources() {
    assert!(!js_probe_parse_state("window.boot = function() {"));
    assert!(!js_probe_parse_state("}{"));
    assert!(!js_probe_parse_state("var s = 'open"));
    assert!(!js_probe_parse_state("/* never closed"));
    assert!(!js_probe_parse_state("// line comment without newline"));
    assert!(!js_probe_parse_state("a)("));
}

#[test]
fn test_unicode_white_space_is_trimmed() {
    let c = contract("\u{3000}\tModern-SystemJS\u{2003}\n", Some("\u{a0}main.js "), None);
    assert_eq!(c.normalized_runtime_style(), "modern-systemjs");
    assert!(c.has_main_entry());
    let blank = contract("modern-systemjs", Some("\u{2028}\u{85} "), None);
    assert!(!blank.has_main_entry());
}

#[test]
fn test_entry_ready_to_run() {
    assert!(contract("cocos2d-js", Some("main.js"), Some("  Window.Boot = function() {};  ")).entry_ready_to_run());
    assert!(!contract("cocos2d-js", Some("main.js"), Some("console.log(1);")).entry_ready_to_run());
    assert!(!contract("cocos2d-js", Some("main.js"), Some("   \n")).entry_ready_to_run());
    assert!(!contract("cocos2d-js", Some("main.js"), None).entry_ready_to_run());
    assert!(contract("modern", Some("index.js"), Some("System.register([], function() {});")).entry_ready_to_run());
    assert!(contract("bootstrap-only", Some("index.js"), Some("anything")).entry_ready_to_run());
}

use cocos_engine::assets::resource_loader::{LoadStatus, ResourceLoader};
use std::sync::{Arc, Mutex};

fn make_loader() -> ResourceLoader {
    let mut loader = ResourceLoader::new();
    loader.register_provider("", |url: &str| {
        if url.ends_with(".fail") {
            Err(format!("not found: {}", url))
        } else {
            Ok(format!("data:{}", url).into_bytes())
        }
    });
    loader
}

#[test]
fn test_loader_new() {
    let loader = ResourceLoader::new();
    assert_eq!(loader.get_total_loaded(), 0);
    assert_eq!(loader.get_pending_count(), 0);
}

#[test]
fn test_load_success() {
    let mut loader = make_loader();
    let result = Arc::new(Mutex::new(None::<Vec<u8>>));
    let r = Arc::clone(&result);
    let h = loader.load(
        "res/sprite.png",
        move |data: &[u8]| {
            *r.lock().unwrap() = Some(data.to_vec());
        },
        |_: &str| {},
    );
    loader.pump();
    assert_eq!(loader.get_status(h), Some(LoadStatus::Success));
    assert!(result.lock().unwrap().is_some());
    assert_eq!(loader.get_total_loaded(), 1);
}

#[test]
fn test_load_failure() {
    let mut loader = make_loader();
    let err_msg = Arc::new(Mutex::new(String::new()));
    let e = Arc::clone(&err_msg);
    let h = loader.load("res/missing.fail", |_: &[u8]| {}, move |err: &str| {
        *e.lock().unwrap() = err.to_string();
    });
    loader.pump();
    assert_eq!(loader.get_status(h), Some(LoadStatus::Failed));
    assert!(!err_msg.lock().unwrap().is_empty());
    assert_eq!(loader.get_total_failed(), 1);
}

#[test]
fn test_cache_hit() {
    let mut loader = make_loader();
    let count = Arc::new(Mutex::new(0u32));
    let c1 = Arc::clone(&count);
    let _h1 = loader.load("cached/asset.png", move |_: &[u8]| {
        *c1.lock().unwrap() += 1;
    }, |_: &str| {});
    loader.pump();
    let c2 = Arc::clone(&count);
    let h2 = loader.load("cached/asset.png", move |_: &[u8]| {
        *c2.lock().unwrap() += 1;
    }, |_: &str| {});
    assert_eq!(*count.lock().unwrap(), 2);
    assert_eq!(loader.get_status(h2), Some(LoadStatus::Success));
}

#[test]
fn test_cache_disabled() {
    let mut loader = make_loader();
    loader.set_cache_enabled(false);
    let count = Arc::new(Mutex::new(0u32));
    let c = Arc::clone(&count);
    loader.load("asset.dat", move |_: &[u8]| {
        *c.lock().unwrap() += 1;
    }, |_: &str| {});
    loader.pump();
    let c2 = Arc::clone(&count);
    loader.load("asset.dat", move |_: &[u8]| {
        *c2.lock().unwrap() += 1;
    }, |_: &str| {});
    loader.pump();
    assert_eq!(*count.lock().unwrap(), 2);
}

#[test]
fn test_clear_cache() {
    let mut loader = make_loader();
    let _h = loader.load("file.png", |_: &[u8]| {}, |_: &str| {});
    loader.pump();
    assert!(loader.get_cached("file.png").is_some());
    loader.clear_cache();
    assert!(loader.get_cached("file.png").is_none());
}

#[test]
fn test_cancel_pending() {
    let mut loader = make_loader();
    loader.set_max_concurrent(0);
    let h = loader.load("pending.png", |_: &[u8]| {}, |_: &str| {});
    assert_eq!(loader.get_pending_count(), 1);
    loader.cancel(h);
    assert_eq!(loader.get_pending_count(), 0);
}

#[test]
fn test_get_data() {
    let mut loader = make_loader();
    let h = loader.load("res/data.bin", |_: &[u8]| {}, |_: &str| {});
    loader.pump();
    assert!(loader.get_data(h).is_some());
}

#[test]
fn test_progress_callback() {
    let mut loader = make_loader();
    let progress = Arc::new(Mutex::new(0u8));
    let p = Arc::clone(&progress);
    let h = loader.load_with_progress(
        "file.png",
        |_: &[u8]| {},
        |_: &str| {},
        move |v: u8| {
            *p.lock().unwrap() = v;
        },
    );
    loader.pump();
    assert_eq!(loader.get_progress(h), 100);
    assert!(*progress.lock().unwrap() >= 100);
}

#[test]
fn test_multiple_providers() {
    let mut loader = ResourceLoader::new();
    loader.register_provider("http://", |url: &str| Ok(format!("remote:{}", url).into_bytes()));
    loader.register_provider("file://", |url: &str| Ok(format!("local:{}", url).into_bytes()));
    let result = Arc::new(Mutex::new(String::new()));
    let r = Arc::clone(&result);
    let _h = loader.load("http://example.com/img.png", move |data: &[u8]| {
        *r.lock().unwrap() = String::from_utf8_lossy(data).to_string();
    }, |_: &str| {});
    loader.pump();
    assert!(result.lock().unwrap().starts_with("remote:"));
}

#[test]
fn test_unique_handles() {
    let mut loader = make_loader();
    let h1 = loader.load("a.png", |_: &[u8]| {}, |_: &str| {});
    let h2 = loader.load("b.png", |_: &[u8]| {}, |_: &str| {});
    assert_ne!(h1, h2);
}

#[test]
fn test_no_provider_error() {
    let mut loader = ResourceLoader::new();
    loader.register_provider("http://", |_: &str| Ok(vec![1u8]));
    let h = loader.load("file://x", |_: &[u8]| {}, |_: &str| {});
    loader.pump();
    assert_eq!(loader.get_status(h), Some(LoadStatus::Failed));
    assert_eq!(loader.get_error(h), Some("No provider for: file://x"));
    assert_eq!(loader.get_data(h), None);
    assert_eq!(loader.get_progress(h), 0);
}

#[test]
fn test_pump_respects_limit_in_order() {
    let mut loader = make_loader();
    loader.set_max_concurrent(2);
    let hs: Vec<u64> = ["a", "b.fail", "c", "d"]
        .iter()
        .map(|u| loader.load(u, |_: &[u8]| {}, |_: &str| {}))
        .collect();
    loader.pump();
    assert_eq!(loader.get_status(hs[0]), Some(LoadStatus::Success));
    assert_eq!(loader.get_status(hs[1]), Some(LoadStatus::Failed));
    assert_eq!(loader.get_status(hs[2]), Some(LoadStatus::Pending));
    assert_eq!(loader.get_pending_count(), 2);
    loader.pump();
    assert_eq!(loader.get_pending_count(), 0);
    assert_eq!(loader.get_total_loaded(), 3);
    assert_eq!(loader.get_total_failed(), 1);
    assert_eq!(loader.get_data(hs[3]), Some(&b"data:d"[..]));
}

#[test]
fn test_cancel_ignores_finished_and_unknown() {
    let mut loader = make_loader();
    let h = loader.load("x", |_: &[u8]| {}, |_: &str| {});
    loader.pump();
    loader.cancel(h);
    loader.cancel(12345);
    assert_eq!(loader.get_status(h), Some(LoadStatus::Success));
    assert_eq!(loader.get_status(12345), None);
}

#[test]
fn test_finish_load_directly() {
    let mut loader = ResourceLoader::default();
    let h = loader.load("manual", |_: &[u8]| {}, |_: &str| {});
    loader.finish_load(h, Ok(vec![7u8, 8]));
    assert_eq!(loader.get_status(h), Some(LoadStatus::Success));
    assert_eq!(loader.get_cached("manual"), Some(&[7u8, 8][..]));
    let h2 = loader.load("other", |_: &[u8]| {}, |_: &str| {});
    loader.finish_load(h2, Err("boom".to_string()));
    assert_eq!(loader.get_error(h2), Some("boom"));
}

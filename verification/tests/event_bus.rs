use cocos_engine::event_bus::EventBus;
use std::any::Any;
use std::sync::{Arc, Mutex};

type Payload = Box<dyn Any + Send + Sync>;

#[derive(Debug, Clone)]
struct HealthChanged(pub i32);
#[derive(Debug, Clone)]
struct LevelUp(pub u32);

/// Calls `f` only for payloads of type `T`, as the typed bus API does.
fn typed<T: 'static, F: Fn(&T) + Send + Sync + 'static>(f: F) -> impl Fn(&Payload) + Send + Sync + 'static {
    move |any: &Payload| {
        if let Some(v) = any.downcast_ref::<T>() {
            f(v);
        }
    }
}

fn boxed<T: Any + Send + Sync>(v: T) -> Payload {
    Box::new(v)
}

#[test]
fn test_event_bus_new() {
    let bus: EventBus<Payload> = EventBus::new();
    assert_eq!(bus.get_emit_count(), 0);
}

#[test]
fn event_bus_test_on_and_emit() {
    let mut bus: EventBus<Payload> = EventBus::new();
    let val = Arc::new(Mutex::new(0i32));
    let v = Arc::clone(&val);
    bus.on("health", typed::<HealthChanged, _>(move |e| {
        *v.lock().unwrap() = e.0;
    }));
    bus.emit("health", boxed(HealthChanged(50)));
    assert_eq!(*val.lock().unwrap(), 50);
    assert_eq!(bus.get_emit_count(), 1);
}

#[test]
fn test_once_fires_once() {
    let mut bus: EventBus<Payload> = EventBus::new();
    let count = Arc::new(Mutex::new(0u32));
    let c = Arc::clone(&count);
    bus.once("health", typed::<HealthChanged, _>(move |_| {
        *c.lock().unwrap() += 1;
    }));
    bus.emit("health", boxed(HealthChanged(10)));
    bus.emit("health", boxed(HealthChanged(20)));
    assert_eq!(*count.lock().unwrap(), 1);
    assert_eq!(bus.listener_count("health"), 0);
}

#[test]
fn test_off_removes_listener() {
    let mut bus: EventBus<Payload> = EventBus::new();
    let count = Arc::new(Mutex::new(0u32));
    let c = Arc::clone(&count);
    let key = bus.on("health", typed::<HealthChanged, _>(move |_| {
        *c.lock().unwrap() += 1;
    }));
    bus.emit("health", boxed(HealthChanged(1)));
    bus.off("health", key);
    bus.emit("health", boxed(HealthChanged(2)));
    assert_eq!(*count.lock().unwrap(), 1);
}

#[test]
fn event_bus_test_off_all() {
    let mut bus: EventBus<Payload> = EventBus::new();
    bus.on("health", typed::<HealthChanged, _>(|_| {}));
    bus.on("health", typed::<HealthChanged, _>(|_| {}));
    bus.off_all("health");
    assert_eq!(bus.listener_count("health"), 0);
}

#[test]
fn test_multiple_listeners_same_event() {
    let mut bus: EventBus<Payload> = EventBus::new();
    let count = Arc::new(Mutex::new(0u32));
    for _ in 0..3 {
        let c = Arc::clone(&count);
        bus.on("level_up", typed::<LevelUp, _>(move |_| {
            *c.lock().unwrap() += 1;
        }));
    }
    bus.emit("level_up", boxed(LevelUp(2)));
    assert_eq!(bus.get_history().last().unwrap().0.as_str(), "level_up");
    assert_eq!(*count.lock().unwrap(), 3);
}

#[test]
fn test_different_event_types() {
    let mut bus: EventBus<Payload> = EventBus::new();
    let hp = Arc::new(Mutex::new(0i32));
    let lv = Arc::new(Mutex::new(0u32));
    let hp2 = Arc::clone(&hp);
    let lv2 = Arc::clone(&lv);
    bus.on("health", typed::<HealthChanged, _>(move |e| {
        *hp2.lock().unwrap() = e.0;
    }));
    bus.on("level_up", typed::<LevelUp, _>(move |e| {
        *lv2.lock().unwrap() = e.0;
    }));
    bus.emit("health", boxed(HealthChanged(100)));
    bus.emit("level_up", boxed(LevelUp(5)));
    assert_eq!(*hp.lock().unwrap(), 100);
    assert_eq!(*lv.lock().unwrap(), 5);
}

#[test]
fn test_emit_wrong_type_no_crash() {
    let mut bus: EventBus<Payload> = EventBus::new();
    let called = Arc::new(Mutex::new(false));
    let c = Arc::clone(&called);
    bus.on("health", typed::<HealthChanged, _>(move |_| {
        *c.lock().unwrap() = true;
    }));
    bus.emit("health", boxed(LevelUp(1)));
    assert!(!*called.lock().unwrap());
}

#[test]
fn test_history_tracks_events() {
    let mut bus: EventBus<Payload> = EventBus::new();
    bus.emit("a", boxed(1u32));
    bus.emit("b", boxed(2u32));
    bus.emit("c", boxed(3u32));
    assert_eq!(bus.get_history().len(), 3);
    assert_eq!(bus.get_history()[0].0, "a");
    assert_eq!(bus.get_history()[2].0, "c");
}

#[test]
fn test_clear_all() {
    let mut bus: EventBus<Payload> = EventBus::new();
    bus.on("health", typed::<HealthChanged, _>(|_| {}));
    bus.emit("health", boxed(HealthChanged(1)));
    bus.clear_all();
    assert_eq!(bus.get_emit_count(), 0);
    assert_eq!(bus.listener_count("health"), 0);
    assert!(bus.get_history().is_empty());
}

#[test]
fn test_has_listeners() {
    let mut bus: EventBus<Payload> = EventBus::new();
    assert!(!bus.has_listeners("evt"));
    bus.on("evt", typed::<u32, _>(|_| {}));
    assert!(bus.has_listeners("evt"));
}

#[test]
fn test_history_max_size() {
    let mut bus: EventBus<Payload> = EventBus::new();
    bus.set_max_history(3);
    for i in 0..5u32 {
        bus.emit(&format!("e{}", i), boxed(i));
    }
    assert_eq!(bus.get_history().len(), 3);
}

#[test]
fn test_history_keeps_newest_with_counts() {
    let mut bus: EventBus<u8> = EventBus::default();
    bus.set_max_history(2);
    bus.emit("x", 1);
    bus.emit("y", 2);
    bus.emit("z", 3);
    let h: Vec<(String, u64)> = bus.get_history().to_vec();
    assert_eq!(h, vec![("y".to_string(), 2), ("z".to_string(), 3)]);
    bus.clear_history();
    assert!(bus.get_history().is_empty());
    assert_eq!(bus.get_emit_count(), 3);
}

#[test]
fn test_once_and_on_mixed_order() {
    let mut bus: EventBus<u8> = EventBus::new();
    let seen = Arc::new(Mutex::new(Vec::<u32>::new()));
    for (tag, once) in [(1u32, false), (2, true), (3, false)] {
        let s = Arc::clone(&seen);
        let f = move |d: &u8| s.lock().unwrap().push(tag * 10 + *d as u32);
        if once {
            bus.once("t", f);
        } else {
            bus.on("t", f);
        }
    }
    bus.emit("t", 1);
    bus.emit("t", 2);
    assert_eq!(*seen.lock().unwrap(), vec![11, 21, 31, 12, 32]);
    assert_eq!(bus.listener_count("t"), 2);
    bus.off("missing", 1);
    bus.off("t", 999);
    assert_eq!(bus.listener_count("t"), 2);
}

#[test]
fn test_bus_next_key_and_max_history() {
    let mut bus: EventBus<u32> = EventBus::new();
    assert_eq!(bus.next_key(), 1);
    assert_eq!(bus.get_max_history(), 100);
    let k = bus.on("a", |_| {});
    assert_eq!(k, 1);
    assert_eq!(bus.next_key(), 2);
    bus.set_max_history(3);
    assert_eq!(bus.get_max_history(), 3);
}

#[test]
fn test_listeners_called_in_registration_order() {
    let mut bus: EventBus<Payload> = EventBus::new();
    let order = Arc::new(Mutex::new(Vec::new()));
    for tag in [3, 1, 2] {
        let o = Arc::clone(&order);
        bus.on("health", typed::<HealthChanged, _>(move |_| {
            o.lock().unwrap().push(tag);
        }));
    }
    let other = Arc::new(Mutex::new(0u32));
    let c = Arc::clone(&other);
    bus.on("level", typed::<LevelUp, _>(move |_| {
        *c.lock().unwrap() += 1;
    }));
    bus.emit("health", boxed(HealthChanged(1)));
    assert_eq!(*order.lock().unwrap(), vec![3, 1, 2]);
    assert_eq!(*other.lock().unwrap(), 0);
}

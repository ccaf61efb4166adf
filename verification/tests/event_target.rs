use cocos_engine::event_target::EventTarget;
use std::sync::{Arc, Mutex};

#[derive(Clone, PartialEq, Debug)]
enum TestEvent {
    Click,
    Hover,
    KeyPress(u32),
}

#[test]
fn test_event_target_new() {
    let et: EventTarget<TestEvent> = EventTarget::new();
    assert!(!et.has_listeners());
    assert_eq!(et.listener_count(), 0);
}

#[test]
fn event_target_test_on_and_emit() {
    let mut et: EventTarget<TestEvent> = EventTarget::new();
    let count = Arc::new(Mutex::new(0u32));
    let c = Arc::clone(&count);
    et.on(move |_| {
        *c.lock().unwrap() += 1;
    });
    et.emit(&TestEvent::Click);
    assert_eq!(*count.lock().unwrap(), 1);
    et.emit(&TestEvent::Click);
    assert_eq!(*count.lock().unwrap(), 2);
}

#[test]
fn test_once_fires_only_once() {
    let mut et: EventTarget<TestEvent> = EventTarget::new();
    let count = Arc::new(Mutex::new(0u32));
    let c = Arc::clone(&count);
    et.once(move |_| {
        *c.lock().unwrap() += 1;
    });
    et.emit(&TestEvent::Click);
    et.emit(&TestEvent::Click);
    assert_eq!(*count.lock().unwrap(), 1);
    assert_eq!(et.listener_count(), 0);
}

#[test]
fn test_off_by_key() {
    let mut et: EventTarget<TestEvent> = EventTarget::new();
    let count = Arc::new(Mutex::new(0u32));
    let c = Arc::clone(&count);
    let key = et.on(move |_| {
        *c.lock().unwrap() += 1;
    });
    et.emit(&TestEvent::Click);
    et.off(key);
    et.emit(&TestEvent::Click);
    assert_eq!(*count.lock().unwrap(), 1);
}

#[test]
fn event_target_test_off_all() {
    let mut et: EventTarget<TestEvent> = EventTarget::new();
    et.on(|_| {});
    et.on(|_| {});
    et.off_all();
    assert!(!et.has_listeners());
}

#[test]
fn test_priority_order() {
    let mut et: EventTarget<TestEvent> = EventTarget::new();
    let order = Arc::new(Mutex::new(Vec::<i32>::new()));

    let o1 = Arc::clone(&order);
    et.on_with_priority(
        move |_| {
            o1.lock().unwrap().push(1);
        },
        1,
    );

    let o2 = Arc::clone(&order);
    et.on_with_priority(
        move |_| {
            o2.lock().unwrap().push(10);
        },
        10,
    );

    let o3 = Arc::clone(&order);
    et.on_with_priority(
        move |_| {
            o3.lock().unwrap().push(5);
        },
        5,
    );

    et.emit(&TestEvent::Click);
    let o = order.lock().unwrap();
    assert_eq!(*o, vec![10, 5, 1]);
}

#[test]
fn test_event_data_passed() {
    let mut et: EventTarget<TestEvent> = EventTarget::new();
    let received = Arc::new(Mutex::new(0u32));
    let r = Arc::clone(&received);
    et.on(move |e| {
        if let TestEvent::KeyPress(code) = e {
            *r.lock().unwrap() = *code;
        }
    });
    et.emit(&TestEvent::KeyPress(65));
    assert_eq!(*received.lock().unwrap(), 65);
}

#[test]
fn test_multiple_listeners_all_fired() {
    let mut et: EventTarget<TestEvent> = EventTarget::new();
    let count = Arc::new(Mutex::new(0u32));
    for _ in 0..5 {
        let c = Arc::clone(&count);
        et.on(move |_| {
            *c.lock().unwrap() += 1;
        });
    }
    et.emit(&TestEvent::Click);
    assert_eq!(*count.lock().unwrap(), 5);
}

#[test]
fn event_target_test_listener_count() {
    let mut et: EventTarget<TestEvent> = EventTarget::new();
    assert_eq!(et.listener_count(), 0);
    et.on(|_| {});
    et.on(|_| {});
    assert_eq!(et.listener_count(), 2);
}

#[test]
fn test_off_nonexistent_key_no_panic() {
    let mut et: EventTarget<TestEvent> = EventTarget::new();
    et.off(99999);
}

#[test]
fn test_default() {
    let et: EventTarget<TestEvent> = EventTarget::default();
    assert!(!et.has_listeners());
}

#[test]
fn test_equal_priority_keeps_registration_order() {
    let mut et: EventTarget<TestEvent> = EventTarget::new();
    let order = Arc::new(Mutex::new(Vec::<i32>::new()));
    for (tag, prio) in [(1, 0), (2, 7), (3, 0), (4, 7), (5, -2)] {
        let o = Arc::clone(&order);
        et.on_with_priority(
            move |_| {
                o.lock().unwrap().push(tag);
            },
            prio,
        );
    }
    et.emit(&TestEvent::Hover);
    assert_eq!(*order.lock().unwrap(), vec![2, 4, 1, 3, 5]);
}

#[test]
fn test_keys_are_distinct_and_increasing() {
    let mut et: EventTarget<TestEvent> = EventTarget::new();
    let k1 = et.on(|_| {});
    let k2 = et.once(|_| {});
    let k3 = et.on_with_priority(|_| {}, 3);
    assert_eq!(k1, 1);
    assert_eq!(k2, 2);
    assert_eq!(k3, 3);
}

#[test]
fn test_once_removed_but_others_stay() {
    let mut et: EventTarget<TestEvent> = EventTarget::new();
    et.on(|_| {});
    et.once(|_| {});
    et.on_with_priority(|_| {}, 2);
    et.emit(&TestEvent::Click);
    assert_eq!(et.listener_count(), 2);
    assert!(et.has_listeners());
}

#[test]
fn test_off_after_sort_removes_right_listener() {
    let mut et: EventTarget<TestEvent> = EventTarget::new();
    let order = Arc::new(Mutex::new(Vec::<i32>::new()));
    let o1 = Arc::clone(&order);
    let low = et.on_with_priority(
        move |_| {
            o1.lock().unwrap().push(1);
        },
        1,
    );
    let o2 = Arc::clone(&order);
    et.on_with_priority(
        move |_| {
            o2.lock().unwrap().push(2);
        },
        2,
    );
    et.emit(&TestEvent::Click);
    et.off(low);
    et.emit(&TestEvent::Click);
    assert_eq!(*order.lock().unwrap(), vec![2, 1, 2]);
}

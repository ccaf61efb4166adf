use cocos_engine::event::{EventBus, EventTarget};
use std::any::{Any, TypeId};
use std::sync::{Arc, Mutex};

#[derive(Debug, Clone)]
struct TestEvent {
    pub value: i32,
}

#[derive(Debug, Clone)]
struct AnotherEvent {
    pub message: String,
}

/// Calls `f` only for events of type `T`.
fn typed<T: 'static, F: Fn(&T) + Send + Sync + 'static>(f: F) -> impl Fn(&dyn Any) + Send + Sync + 'static {
    move |any: &dyn Any| {
        if let Some(v) = any.downcast_ref::<T>() {
            f(v);
        }
    }
}

#[test]
fn test_event_bus_basic() {
    let mut bus: EventBus<dyn Any> = EventBus::new();
    let received = Arc::new(Mutex::new(0));
    let received_clone = Arc::clone(&received);
    bus.on::<TestEvent, _>(typed(move |event: &TestEvent| {
        let mut value = received_clone.lock().unwrap();
        *value = event.value;
    }));
    bus.emit::<TestEvent>(&TestEvent { value: 42 });
    assert_eq!(*received.lock().unwrap(), 42);
}

#[test]
fn test_event_bus_multiple_listeners() {
    let mut bus: EventBus<dyn Any> = EventBus::new();
    let count = Arc::new(Mutex::new(0));
    for _ in 0..3 {
        let count_clone = Arc::clone(&count);
        bus.on::<TestEvent, _>(typed(move |_: &TestEvent| {
            let mut value = count_clone.lock().unwrap();
            *value += 1;
        }));
    }
    bus.emit::<TestEvent>(&TestEvent { value: 1 });
    assert_eq!(*count.lock().unwrap(), 3);
}

#[test]
fn test_event_bus_different_events() {
    let mut bus: EventBus<dyn Any> = EventBus::new();
    let test_received = Arc::new(Mutex::new(0));
    let another_received = Arc::new(Mutex::new(String::new()));
    let test_clone = Arc::clone(&test_received);
    bus.on::<TestEvent, _>(typed(move |event: &TestEvent| {
        let mut value = test_clone.lock().unwrap();
        *value = event.value;
    }));
    let another_clone = Arc::clone(&another_received);
    bus.on::<AnotherEvent, _>(typed(move |event: &AnotherEvent| {
        let mut value = another_clone.lock().unwrap();
        *value = event.message.clone();
    }));
    bus.emit::<TestEvent>(&TestEvent { value: 100 });
    bus.emit::<AnotherEvent>(&AnotherEvent { message: "Hello".to_string() });
    assert_eq!(*test_received.lock().unwrap(), 100);
    assert_eq!(*another_received.lock().unwrap(), "Hello");
}

#[test]
fn test_event_bus_off() {
    let mut bus: EventBus<dyn Any> = EventBus::new();
    let received = Arc::new(Mutex::new(0));
    let received_clone = Arc::clone(&received);
    bus.on::<TestEvent, _>(typed(move |event: &TestEvent| {
        let mut value = received_clone.lock().unwrap();
        *value = event.value;
    }));
    bus.emit::<TestEvent>(&TestEvent { value: 10 });
    assert_eq!(*received.lock().unwrap(), 10);
    bus.off::<TestEvent>();
    bus.emit::<TestEvent>(&TestEvent { value: 20 });
    assert_eq!(*received.lock().unwrap(), 10);
}

#[test]
fn test_event_target() {
    let mut target: EventTarget<dyn Any> = EventTarget::new();
    let received = Arc::new(Mutex::new(0));
    let received_clone = Arc::clone(&received);
    target.add_event_listener::<TestEvent, _>(typed(move |event: &TestEvent| {
        let mut value = received_clone.lock().unwrap();
        *value = event.value;
    }));
    target.dispatch_event::<TestEvent>(&TestEvent { value: 55 });
    assert_eq!(*received.lock().unwrap(), 55);
}

#[test]
fn event_test_listener_count() {
    let mut bus: EventBus<dyn Any> = EventBus::new();
    assert_eq!(bus.listener_count::<TestEvent>(), 0);
    bus.on::<TestEvent, _>(typed(|_: &TestEvent| {}));
    assert_eq!(bus.listener_count::<TestEvent>(), 1);
    bus.on::<TestEvent, _>(typed(|_: &TestEvent| {}));
    assert_eq!(bus.listener_count::<TestEvent>(), 2);
    bus.off::<TestEvent>();
    assert_eq!(bus.listener_count::<TestEvent>(), 0);
}

#[test]
fn test_off_keeps_other_types_and_clear() {
    let mut bus: EventBus<dyn Any> = EventBus::default();
    bus.on::<TestEvent, _>(typed(|_: &TestEvent| {}));
    bus.on::<AnotherEvent, _>(typed(|_: &AnotherEvent| {}));
    bus.on::<TestEvent, _>(typed(|_: &TestEvent| {}));
    bus.off_type(TypeId::of::<TestEvent>());
    assert_eq!(bus.listener_count_of(TypeId::of::<TestEvent>()), 0);
    assert_eq!(bus.listener_count::<AnotherEvent>(), 1);
    bus.clear();
    assert_eq!(bus.listener_count::<AnotherEvent>(), 0);
}

#[test]
fn test_event_target_remove_listeners() {
    let mut target: EventTarget<dyn Any> = EventTarget::default();
    let hits = Arc::new(Mutex::new(0));
    let h = Arc::clone(&hits);
    target.add_event_listener::<TestEvent, _>(typed(move |_: &TestEvent| {
        *h.lock().unwrap() += 1;
    }));
    target.dispatch_event::<AnotherEvent>(&AnotherEvent { message: String::new() });
    target.dispatch_event::<TestEvent>(&TestEvent { value: 0 });
    target.remove_event_listeners::<TestEvent>();
    target.dispatch_event::<TestEvent>(&TestEvent { value: 0 });
    assert_eq!(*hits.lock().unwrap(), 1);
}

use cocos_engine::scene_graph::{MobilityMode, NodeEventEmitter, NodeEventType, NodeSpace, TransformBit};
use std::sync::{Arc, Mutex};

#[test]
fn test_transform_bit_operations() {
    let pos = TransformBit::Position;
    let rot = TransformBit::Rotation;
    let combined = pos | rot;
    assert_eq!(combined, 3);
    assert!(pos.contains(1));
    assert!(!pos.contains(2));
}

#[test]
fn test_node_event_emitter() {
    let results = Arc::new(Mutex::new(Vec::<String>::new()));
    let mut emitter = NodeEventEmitter::new();

    let r = Arc::clone(&results);
    emitter.on(Box::new(move |e: &NodeEventType| {
        r.lock().unwrap().push(format!("{:?}", e));
    }));

    emitter.emit(&NodeEventType::ActiveChanged(true));
    emitter.emit(&NodeEventType::ParentChanged);

    let r = results.lock().unwrap();
    assert_eq!(r.len(), 2);
}

#[test]
fn test_node_event_emitter_clear() {
    let count = Arc::new(Mutex::new(0usize));
    let mut emitter = NodeEventEmitter::new();
    let c = Arc::clone(&count);
    emitter.on(Box::new(move |_: &NodeEventType| {
        *c.lock().unwrap() += 1;
    }));
    emitter.emit(&NodeEventType::ParentChanged);
    assert_eq!(*count.lock().unwrap(), 1);
    emitter.clear();
    emitter.emit(&NodeEventType::ParentChanged);
    assert_eq!(*count.lock().unwrap(), 1);
}

#[test]
fn test_node_event_types() {
    let e1 = NodeEventType::TransformChanged(3);
    let e2 = NodeEventType::ChildAdded("child-uuid".to_string());
    let e3 = NodeEventType::MobilityChanged(MobilityMode::Movable);
    assert_ne!(format!("{:?}", e1), format!("{:?}", e2));
    assert_eq!(e3, NodeEventType::MobilityChanged(MobilityMode::Movable));
}

#[test]
fn test_transform_bit_values() {
    assert_eq!(TransformBit::NoBits.as_u32(), 0);
    assert_eq!(TransformBit::Skew.as_u32(), 8);
    assert_eq!(TransformBit::RS.as_u32(), 6);
    assert_eq!(TransformBit::RSS.as_u32(), 14);
    assert_eq!(TransformBit::TRS.as_u32(), 7);
    assert_eq!(TransformBit::Scale | 1u32, 5);
    assert_eq!(TransformBit::TRS & TransformBit::RSS, 6);
    assert!(TransformBit::TRS.contains(4));
    assert!(!TransformBit::NoBits.contains(u32::MAX));
}

#[test]
fn test_mobility_and_space() {
    assert_eq!(MobilityMode::Static as u32, 0);
    assert_eq!(MobilityMode::Movable as u32, 2);
    assert_ne!(NodeSpace::Local, NodeSpace::World);
}

#[test]
fn test_emitter_calls_in_order() {
    let order = Arc::new(Mutex::new(Vec::<u32>::new()));
    let mut emitter = NodeEventEmitter::default();
    for tag in 0..3u32 {
        let o = Arc::clone(&order);
        emitter.on(move |e: &NodeEventType| {
            if let NodeEventType::TransformChanged(bits) = e {
                o.lock().unwrap().push(tag * 10 + bits);
            }
        });
    }
    emitter.emit(&NodeEventType::TransformChanged(1));
    assert_eq!(*order.lock().unwrap(), vec![1, 11, 21]);
}

use cocos_engine::animation::{BlendNodeType, PropertyPath, TrackInterpolation, TrackType, WrapMode};

#[test]
fn test_property_path() {
    let p = PropertyPath::new("node1", "position");
    assert_eq!(p.target_name, "node1");
    assert_eq!(p.property_name, "position");
}

#[test]
fn test_property_path_defaults() {
    let p = PropertyPath::new("n", "scale");
    assert!(p.component_type.is_empty());
    assert_eq!(p.array_index, None);
    let d = PropertyPath::default();
    assert!(d.target_name.is_empty());
}

#[test]
fn test_animation_defaults() {
    assert_eq!(WrapMode::default(), WrapMode::Loop);
    assert_eq!(WrapMode::LoopClamp as u32, 6);
    assert_eq!(TrackInterpolation::default(), TrackInterpolation::Linear);
    assert_ne!(TrackType::Real, TrackType::Boolean);
    assert_ne!(BlendNodeType::Leaf, BlendNodeType::Additive);
}

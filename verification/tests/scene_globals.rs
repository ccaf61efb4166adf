use cocos_engine::component_scheduler::SchedulerPhase;
use cocos_engine::game::director::DirectorEvent;
use cocos_engine::scene_manager::SceneState;
use cocos_engine::geometry::{PlaneIntersectResult, ShapeEnum};
use cocos_engine::scene_globals::{
    AmbientLightMode, FogType, LightProbeMode, OctreeInfo, PcfType, ShadowType,
};

#[test]
fn test_scene_global_defaults() {
    assert_eq!(AmbientLightMode::default(), AmbientLightMode::Flat);
    assert_eq!(FogType::default(), FogType::NoFog);
    assert_eq!(ShadowType::default(), ShadowType::NoShadow);
    assert_eq!(PcfType::default(), PcfType::Hard);
    assert_eq!(LightProbeMode::default(), LightProbeMode::Baked);
}

#[test]
fn test_octree_info_default() {
    let o = OctreeInfo::default();
    assert!(!o.enabled);
    assert_eq!((o.min_depth, o.max_depth, o.capacity), (1, 8, 4));
}

#[test]
fn test_lifecycle_enums() {
    assert_ne!(SchedulerPhase::Update, SchedulerPhase::LateUpdate);
    assert_ne!(SceneState::Loaded, SceneState::Active);
    assert_ne!(DirectorEvent::BeginFrame, DirectorEvent::EndFrame);
}

#[test]
fn test_geometry_kinds() {
    assert_eq!(ShapeEnum::ShapePlane as u32, 6);
    assert_eq!(PlaneIntersectResult::Intersect.code(), 1);
    assert_eq!(PlaneIntersectResult::OutsideFront.code(), 0);
    assert_eq!(PlaneIntersectResult::InsideBack.code(), -1);
    cocos_engine::animation::delete_transform(&());
}

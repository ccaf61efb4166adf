use cocos_engine::dragon_bones::kinds::{AnimationPlayMode, BoneType};
use cocos_engine::dragon_bones::parser::DragonBonesParser;

#[test]
fn test_parse_version() {
    let data = vec![5u8, 5, 0, 0];
    let version = DragonBonesParser::parse_version(&data);
    assert_eq!(version, "5.5");
}

#[test]
fn test_parse_invalid() {
    let data = vec![0u8, 0, 0, 0];
    let result = DragonBonesParser::check_format(&data);
    assert!(result.is_err());
}

#[test]
fn test_parse_valid() {
    let data = vec![b'D', b'B', 0, 0];
    let result = DragonBonesParser::check_format(&data);
    assert!(result.is_ok());
}

#[test]
fn test_parse_version_from_header() {
    let data = vec![12u8, 0, 1, 2, 3, 4, 5, 6];
    assert_eq!(DragonBonesParser::parse_version(&data), "12.0");
    let data = vec![255u8, 107, 0, 0, 0, 0, 0, 0, 9];
    assert_eq!(DragonBonesParser::parse_version(&data), "255.107");
}

#[test]
fn test_check_format_edges() {
    assert_eq!(
        DragonBonesParser::check_format(b"DB"),
        Err("Invalid DragonBones format".to_string())
    );
    assert!(DragonBonesParser::check_format(b"DBX").is_ok());
    assert!(DragonBonesParser::check_format(b"BD\0").is_err());
    assert!(DragonBonesParser::check_format(b"").is_err());
}

#[test]
fn test_kinds() {
    assert_ne!(AnimationPlayMode::Loop, AnimationPlayMode::PingPong);
    assert_eq!(BoneType::Root, BoneType::Root);
}

use cocos_engine::input::types::{EventKeyboard, GamepadAxis, GamepadButton, InputEventType, KeyCode, MouseButton};

#[test]
fn test_event_keyboard() {
    let e = EventKeyboard::new(KeyCode::Space, InputEventType::KeyDown);
    assert_eq!(e.key_code, KeyCode::Space);
    assert_eq!(e.event_type, InputEventType::KeyDown);
}

#[test]
fn test_key_codes() {
    assert_eq!(KeyCode::NoKey.code(), 0);
    assert_eq!(KeyCode::Enter.code(), 13);
    assert_eq!(KeyCode::KeyA.code(), 65);
    assert_eq!(KeyCode::F12.code(), 123);
    assert_eq!(KeyCode::Quote.code(), 222);
}

#[test]
fn test_button_and_axis_numbers() {
    assert_eq!(GamepadButton::Back.code(), 8);
    assert_eq!(GamepadButton::DpadRight.code(), 15);
    assert_eq!(MouseButton::Button5 as u8, 4);
    assert_eq!(GamepadAxis::RightTrigger as u8, 5);
}

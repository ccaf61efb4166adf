use std::sync::{Arc, Mutex};

use cocos_engine::input::input::Input;
use cocos_engine::input::types::{InputEventType, KeyCode, MouseButton};

#[test]
fn test_key_down_up() {
    let mut input = Input::new();
    input.dispatch_key_down(KeyCode::Space);
    assert!(input.is_key_down(KeyCode::Space));
    assert!(input.is_key_pressing(KeyCode::Space));

    input.dispatch_key_up(KeyCode::Space);
    assert!(!input.is_key_pressing(KeyCode::Space));
    assert!(input.is_key_up(KeyCode::Space));
}

#[test]
fn test_frame_end_clears_transient() {
    let mut input = Input::new();
    input.dispatch_key_down(KeyCode::Enter);
    input.frame_end();
    assert!(!input.is_key_down(KeyCode::Enter));
    assert!(!input.is_key_up(KeyCode::Enter));
}

#[test]
fn test_keyboard_callback() {
    let mut input = Input::new();
    let received = Arc::new(Mutex::new(None::<KeyCode>));
    let r = Arc::clone(&received);
    input.on_keyboard(InputEventType::KeyDown, move |e| {
        *r.lock().unwrap() = Some(e.key_code);
    });
    input.dispatch_key_down(KeyCode::KeyA);
    assert_eq!(*received.lock().unwrap(), Some(KeyCode::KeyA));
}

#[test]
fn test_off_keyboard() {
    let mut input = Input::new();
    let count = Arc::new(Mutex::new(0u32));
    let c = Arc::clone(&count);
    input.on_keyboard(InputEventType::KeyDown, move |_| {
        *c.lock().unwrap() += 1;
    });
    input.off_keyboard(&InputEventType::KeyDown);
    input.dispatch_key_down(KeyCode::Space);
    assert_eq!(*count.lock().unwrap(), 0);
}

#[test]
fn test_mouse_buttons_down_up() {
    let mut input = Input::new();
    input.press_mouse_button(MouseButton::Left);
    assert!(input.is_mouse_button_down(MouseButton::Left));
    assert!(input.is_mouse_button_pressing(MouseButton::Left));
    input.release_mouse_button(MouseButton::Left);
    assert!(!input.is_mouse_button_pressing(MouseButton::Left));
    assert!(input.is_mouse_button_down(MouseButton::Left));
    input.frame_end();
    assert!(!input.is_mouse_button_down(MouseButton::Left));
}

#[test]
fn test_held_key_repeat_is_not_down_again() {
    let mut input = Input::new();
    input.dispatch_key_down(KeyCode::KeyW);
    input.frame_end();
    input.dispatch_key_down(KeyCode::KeyW);
    assert!(!input.is_key_down(KeyCode::KeyW));
    assert!(input.is_key_pressing(KeyCode::KeyW));
}

#[test]
fn test_key_up_listener_only_gets_key_up() {
    let mut input = Input::new();
    let log = Arc::new(Mutex::new(Vec::<KeyCode>::new()));
    let l = Arc::clone(&log);
    input.on_keyboard(InputEventType::KeyUp, move |e| {
        l.lock().unwrap().push(e.key_code);
    });
    input.dispatch_key_down(KeyCode::KeyB);
    input.dispatch_key_up(KeyCode::KeyB);
    assert_eq!(*log.lock().unwrap(), vec![KeyCode::KeyB]);
}

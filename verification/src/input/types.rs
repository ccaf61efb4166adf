use vstd::prelude::*;

verus! {

/// Keyboard keys, each with its key code.
#[derive(Debug, Clone, Copy, PartialEq, Eq, Hash, Structural)]
pub enum KeyCode {
    NoKey,
    Backspace,
    Tab,
    Enter,
    ShiftLeft,
    ControlLeft,
    AltLeft,
    Pause,
    CapsLock,
    Escape,
    Space,
    PageUp,
    PageDown,
    End,
    Home,
    ArrowLeft,
    ArrowUp,
    ArrowRight,
    ArrowDown,
    Delete,
    Digit0,
    Digit1,
    Digit2,
    Digit3,
    Digit4,
    Digit5,
    Digit6,
    Digit7,
    Digit8,
    Digit9,
    KeyA,
    KeyB,
    KeyC,
    KeyD,
    KeyE,
    KeyF,
    KeyG,
    KeyH,
    KeyI,
    KeyJ,
    KeyK,
    KeyL,
    KeyM,
    KeyN,
    KeyO,
    KeyP,
    KeyQ,
    KeyR,
    KeyS,
    KeyT,
    KeyU,
    KeyV,
    KeyW,
    KeyX,
    KeyY,
    KeyZ,
    F1,
    F2,
    F3,
    F4,
    F5,
    F6,
    F7,
    F8,
    F9,
    F10,
    F11,
    F12,
    NumLock,
    ScrollLock,
    ShiftRight,
    ControlRight,
    AltRight,
    Semicolon,
    Equal,
    Comma,
    Minus,
    Period,
    Slash,
    Backquote,
    BracketLeft,
    Backslash,
    BracketRight,
    Quote,
}

impl KeyCode {
    /// The key code (`NoKey` is 0).
    pub open spec fn spec_code(self) -> u32 {
        match self {
            KeyCode::NoKey => 0,
            KeyCode::Backspace => 8,
            KeyCode::Tab => 9,
            KeyCode::Enter => 13,
            KeyCode::ShiftLeft => 16,
            KeyCode::ControlLeft => 17,
            KeyCode::AltLeft => 18,
            KeyCode::Pause => 19,
            KeyCode::CapsLock => 20,
            KeyCode::Escape => 27,
            KeyCode::Space => 32,
            KeyCode::PageUp => 33,
            KeyCode::PageDown => 34,
            KeyCode::End => 35,
            KeyCode::Home => 36,
            KeyCode::ArrowLeft => 37,
            KeyCode::ArrowUp => 38,
            KeyCode::ArrowRight => 39,
            KeyCode::ArrowDown => 40,
            KeyCode::Delete => 46,
            KeyCode::Digit0 => 48,
            KeyCode::Digit1 => 49,
            KeyCode::Digit2 => 50,
            KeyCode::Digit3 => 51,
            KeyCode::Digit4 => 52,
            KeyCode::Digit5 => 53,
            KeyCode::Digit6 => 54,
            KeyCode::Digit7 => 55,
            KeyCode::Digit8 => 56,
            KeyCode::Digit9 => 57,
            KeyCode::KeyA => 65,
            KeyCode::KeyB => 66,
            KeyCode::KeyC => 67,
            KeyCode::KeyD => 68,
            KeyCode::KeyE => 69,
            KeyCode::KeyF => 70,
            KeyCode::KeyG => 71,
            KeyCode::KeyH => 72,
            KeyCode::KeyI => 73,
            KeyCode::KeyJ => 74,
            KeyCode::KeyK => 75,
            KeyCode::KeyL => 76,
            KeyCode::KeyM => 77,
            KeyCode::KeyN => 78,
            KeyCode::KeyO => 79,
            KeyCode::KeyP => 80,
            KeyCode::KeyQ => 81,
            KeyCode::KeyR => 82,
            KeyCode::KeyS => 83,
            KeyCode::KeyT => 84,
            KeyCode::KeyU => 85,
            KeyCode::KeyV => 86,
            KeyCode::KeyW => 87,
            KeyCode::KeyX => 88,
            KeyCode::KeyY => 89,
            KeyCode::KeyZ => 90,
            KeyCode::F1 => 112,
            KeyCode::F2 => 113,
            KeyCode::F3 => 114,
            KeyCode::F4 => 115,
            KeyCode::F5 => 116,
            KeyCode::F6 => 117,
            KeyCode::F7 => 118,
            KeyCode::F8 => 119,
            KeyCode::F9 => 120,
            KeyCode::F10 => 121,
            KeyCode::F11 => 122,
            KeyCode::F12 => 123,
            KeyCode::NumLock => 144,
            KeyCode::ScrollLock => 145,
            KeyCode::ShiftRight => 161,
            KeyCode::ControlRight => 162,
            KeyCode::AltRight => 163,
            KeyCode::Semicolon => 186,
            KeyCode::Equal => 187,
            KeyCode::Comma => 188,
            KeyCode::Minus => 189,
            KeyCode::Period => 190,
            KeyCode::Slash => 191,
            KeyCode::Backquote => 192,
            KeyCode::BracketLeft => 219,
            KeyCode::Backslash => 220,
            KeyCode::BracketRight => 221,
            KeyCode::Quote => 222,
        }
    }

    pub fn code(self) -> (r: u32)
        ensures
            r == self.spec_code(),
    {
        match self {
            KeyCode::NoKey => 0,
            KeyCode::Backspace => 8,
            KeyCode::Tab => 9,
            KeyCode::Enter => 13,
            KeyCode::ShiftLeft => 16,
            KeyCode::ControlLeft => 17,
            KeyCode::AltLeft => 18,
            KeyCode::Pause => 19,
            KeyCode::CapsLock => 20,
            KeyCode::Escape => 27,
            KeyCode::Space => 32,
            KeyCode::PageUp => 33,
            KeyCode::PageDown => 34,
            KeyCode::End => 35,
            KeyCode::Home => 36,
            KeyCode::ArrowLeft => 37,
            KeyCode::ArrowUp => 38,
            KeyCode::ArrowRight => 39,
            KeyCode::ArrowDown => 40,
            KeyCode::Delete => 46,
            KeyCode::Digit0 => 48,
            KeyCode::Digit1 => 49,
            KeyCode::Digit2 => 50,
            KeyCode::Digit3 => 51,
            KeyCode::Digit4 => 52,
            KeyCode::Digit5 => 53,
            KeyCode::Digit6 => 54,
            KeyCode::Digit7 => 55,
            KeyCode::Digit8 => 56,
            KeyCode::Digit9 => 57,
            KeyCode::KeyA => 65,
            KeyCode::KeyB => 66,
            KeyCode::KeyC => 67,
            KeyCode::KeyD => 68,
            KeyCode::KeyE => 69,
            KeyCode::KeyF => 70,
            KeyCode::KeyG => 71,
            KeyCode::KeyH => 72,
            KeyCode::KeyI => 73,
            KeyCode::KeyJ => 74,
            KeyCode::KeyK => 75,
            KeyCode::KeyL => 76,
            KeyCode::KeyM => 77,
            KeyCode::KeyN => 78,
            KeyCode::KeyO => 79,
            KeyCode::KeyP => 80,
            KeyCode::KeyQ => 81,
            KeyCode::KeyR => 82,
            KeyCode::KeyS => 83,
            KeyCode::KeyT => 84,
            KeyCode::KeyU => 85,
            KeyCode::KeyV => 86,
            KeyCode::KeyW => 87,
            KeyCode::KeyX => 88,
            KeyCode::KeyY => 89,
            KeyCode::KeyZ => 90,
            KeyCode::F1 => 112,
            KeyCode::F2 => 113,
            KeyCode::F3 => 114,
            KeyCode::F4 => 115,
            KeyCode::F5 => 116,
            KeyCode::F6 => 117,
            KeyCode::F7 => 118,
            KeyCode::F8 => 119,
            KeyCode::F9 => 120,
            KeyCode::F10 => 121,
            KeyCode::F11 => 122,
            KeyCode::F12 => 123,
            KeyCode::NumLock => 144,
            KeyCode::ScrollLock => 145,
            KeyCode::ShiftRight => 161,
            KeyCode::ControlRight => 162,
            KeyCode::AltRight => 163,
            KeyCode::Semicolon => 186,
            KeyCode::Equal => 187,
            KeyCode::Comma => 188,
            KeyCode::Minus => 189,
            KeyCode::Period => 190,
            KeyCode::Slash => 191,
            KeyCode::Backquote => 192,
            KeyCode::BracketLeft => 219,
            KeyCode::Backslash => 220,
            KeyCode::BracketRight => 221,
            KeyCode::Quote => 222,
        }
    }
}

/// Mouse buttons, numbered from 0 in this order.
#[derive(Debug, Clone, Copy, PartialEq, Eq, Hash, Structural)]
pub enum MouseButton {
    Left,
    Middle,
    Right,
    Button4,
    Button5,
}

/// The kinds of input events.
#[derive(Debug, Clone, Copy, PartialEq, Eq, Hash, Structural)]
pub enum InputEventType {
    KeyDown,
    KeyUp,
    KeyPressing,
    MouseDown,
    MouseUp,
    MouseMove,
    MouseScroll,
    TouchStart,
    TouchMove,
    TouchEnd,
    TouchCancel,
    GamepadChange,
    HandleInput,
    HmdPose,
}

/// Gamepad buttons, each with its button number.
#[derive(Debug, Clone, Copy, PartialEq, Eq, Hash, Structural)]
pub enum GamepadButton {
    A,
    B,
    X,
    Y,
    LB,
    RB,
    Back,
    Start,
    LeftStick,
    RightStick,
    DpadUp,
    DpadDown,
    DpadLeft,
    DpadRight,
}

impl GamepadButton {
    /// The button number.
    pub open spec fn spec_code(self) -> u8 {
        match self {
            GamepadButton::A => 0,
            GamepadButton::B => 1,
            GamepadButton::X => 2,
            GamepadButton::Y => 3,
            GamepadButton::LB => 4,
            GamepadButton::RB => 5,
            GamepadButton::Back => 8,
            GamepadButton::Start => 9,
            GamepadButton::LeftStick => 10,
            GamepadButton::RightStick => 11,
            GamepadButton::DpadUp => 12,
            GamepadButton::DpadDown => 13,
            GamepadButton::DpadLeft => 14,
            GamepadButton::DpadRight => 15,
        }
    }

    pub fn code(self) -> (r: u8)
        ensures
            r == self.spec_code(),
    {
        match self {
            GamepadButton::A => 0,
            GamepadButton::B => 1,
            GamepadButton::X => 2,
            GamepadButton::Y => 3,
            GamepadButton::LB => 4,
            GamepadButton::RB => 5,
            GamepadButton::Back => 8,
            GamepadButton::Start => 9,
            GamepadButton::LeftStick => 10,
            GamepadButton::RightStick => 11,
            GamepadButton::DpadUp => 12,
            GamepadButton::DpadDown => 13,
            GamepadButton::DpadLeft => 14,
            GamepadButton::DpadRight => 15,
        }
    }
}

/// Gamepad axes, numbered from 0 in this order.
#[derive(Debug, Clone, Copy, PartialEq, Eq, Hash, Structural)]
pub enum GamepadAxis {
    LeftStickX,
    LeftStickY,
    RightStickX,
    RightStickY,
    LeftTrigger,
    RightTrigger,
}

/// A key went down, up or is held.
#[derive(Debug, Clone)]
pub struct EventKeyboard {
    pub key_code: KeyCode,
    pub event_type: InputEventType,
}

impl EventKeyboard {
    pub fn new(key_code: KeyCode, event_type: InputEventType) -> (r: Self)
        ensures
            r.key_code == key_code,
            r.event_type == event_type,
    {
        EventKeyboard { key_code, event_type }
    }
}

} // verus!

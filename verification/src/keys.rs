//! Keys: the codes by which the keys of a keyboard are told apart, and the test for the keys
//! that open and close the console.

use vstd::prelude::*;

verus! {

/// The code that a platform has for a key which has no code of its own in [`KeyCode`].
#[derive(Clone, Copy, Debug, PartialEq, Eq, Hash, Structural)]
pub enum NativeKeyCode {
    Unidentified,
    Android(u32),
    MacOS(u16),
    Windows(u16),
    Xkb(u32),
}

/// The code of a physical key: the place of the key on the keyboard, whatever the layout
/// makes of it. The names are those of the W3C's UI Events `code` values.
#[derive(Clone, Copy, Debug, PartialEq, Eq, Hash, Structural)]
pub enum KeyCode {
    Unidentified(NativeKeyCode),
    Backquote,
    Backslash,
    BracketLeft,
    BracketRight,
    Comma,
    Digit0,
    Digit1,
    Digit2,
    Digit3,
    Digit4,
    Digit5,
    Digit6,
    Digit7,
    Digit8,
    Digit9,
    Equal,
    IntlBackslash,
    IntlRo,
    IntlYen,
    KeyA,
    KeyB,
    KeyC,
    KeyD,
    KeyE,
    KeyF,
    KeyG,
    KeyH,
    KeyI,
    KeyJ,
    KeyK,
    KeyL,
    KeyM,
    KeyN,
    KeyO,
    KeyP,
    KeyQ,
    KeyR,
    KeyS,
    KeyT,
    KeyU,
    KeyV,
    KeyW,
    KeyX,
    KeyY,
    KeyZ,
    Minus,
    Period,
    Quote,
    Semicolon,
    Slash,
    AltLeft,
    AltRight,
    Backspace,
    CapsLock,
    ContextMenu,
    ControlLeft,
    ControlRight,
    Enter,
    SuperLeft,
    SuperRight,
    ShiftLeft,
    ShiftRight,
    Space,
    Tab,
    Convert,
    KanaMode,
    Lang1,
    Lang2,
    Lang3,
    Lang4,
    Lang5,
    NonConvert,
    Delete,
    End,
    Help,
    Home,
    Insert,
    PageDown,
    PageUp,
    ArrowDown,
    ArrowLeft,
    ArrowRight,
    ArrowUp,
    NumLock,
    Numpad0,
    Numpad1,
    Numpad2,
    Numpad3,
    Numpad4,
    Numpad5,
    Numpad6,
    Numpad7,
    Numpad8,
    Numpad9,
    NumpadAdd,
    NumpadBackspace,
    NumpadClear,
    NumpadClearEntry,
    NumpadComma,
    NumpadDecimal,
    NumpadDivide,
    NumpadEnter,
    NumpadEqual,
    NumpadHash,
    NumpadMemoryAdd,
    NumpadMemoryClear,
    NumpadMemoryRecall,
    NumpadMemoryStore,
    NumpadMemorySubtract,
    NumpadMultiply,
    NumpadParenLeft,
    NumpadParenRight,
    NumpadStar,
    NumpadSubtract,
    Escape,
    Fn,
    FnLock,
    PrintScreen,
    ScrollLock,
    Pause,
    BrowserBack,
    BrowserFavorites,
    BrowserForward,
    BrowserHome,
    BrowserRefresh,
    BrowserSearch,
    BrowserStop,
    Eject,
    LaunchApp1,
    LaunchApp2,
    LaunchMail,
    MediaPlayPause,
    MediaSelect,
    MediaStop,
    MediaTrackNext,
    MediaTrackPrevious,
    Power,
    Sleep,
    AudioVolumeDown,
    AudioVolumeMute,
    AudioVolumeUp,
    WakeUp,
    Meta,
    Hyper,
    Turbo,
    Abort,
    Resume,
    Suspend,
    Again,
    Copy,
    Cut,
    Find,
    Open,
    Paste,
    Props,
    Select,
    Undo,
    Hiragana,
    Katakana,
    F1,
    F2,
    F3,
    F4,
    F5,
    F6,
    F7,
    F8,
    F9,
    F10,
    F11,
    F12,
    F13,
    F14,
    F15,
    F16,
    F17,
    F18,
    F19,
    F20,
    F21,
    F22,
    F23,
    F24,
    F25,
    F26,
    F27,
    F28,
    F29,
    F30,
    F31,
    F32,
    F33,
    F34,
    F35,
}

/// Whether a key is down or up.
#[derive(Clone, Copy, Debug, PartialEq, Eq, Hash, Structural)]
pub enum ButtonState {
    Pressed,
    Released,
}

impl ButtonState {
    /// Whether the key is down.
    pub fn is_pressed(&self) -> (b: bool)
        ensures
            b == (*self == ButtonState::Pressed),
    {
        match self {
            ButtonState::Pressed => true,
            ButtonState::Released => false,
        }
    }
}

/// A key event: a key, and the state it went into.
#[derive(Clone, Copy, Debug, PartialEq, Eq, Hash, Structural)]
pub struct KeyboardInput {
    pub key_code: KeyCode,
    pub state: ButtonState,
}

/// A key event toggles the console when it is the press of one of the configured keys.
pub open spec fn toggles(input: KeyboardInput, keys: Seq<KeyCode>) -> bool {
    input.state == ButtonState::Pressed && keys.contains(input.key_code)
}

/// Whether a key event is the press of one of the configured keys.
pub fn console_key_pressed(keyboard_input: &KeyboardInput, configured_keys: &[KeyCode]) -> (pressed:
    bool)
    ensures
        pressed == toggles(*keyboard_input, configured_keys@),
{
    if !keyboard_input.state.is_pressed() {
        return false;
    }
    let mut i: usize = 0;
    while i < configured_keys.len()
        invariant
            i <= configured_keys.len(),
            keyboard_input.state == ButtonState::Pressed,
            forall|j: int| 0 <= j < i ==> configured_keys@[j] != keyboard_input.key_code,
        decreases configured_keys.len() - i,
    {
        if configured_keys[i] == keyboard_input.key_code {
            assert(configured_keys@[i as int] == keyboard_input.key_code);
            return true;
        }
        i += 1;
    }
    false
}

/// Whether one of the key events of a tick is the press of one of the configured keys.
pub fn any_console_key_pressed(events: &Vec<KeyboardInput>, configured_keys: &[KeyCode]) -> (pressed:
    bool)
    ensures
        pressed == exists|i: int| 0 <= i < events@.len() && toggles(#[trigger] events@[i], configured_keys@),
{
    let mut i: usize = 0;
    while i < events.len()
        invariant
            i <= events.len(),
            forall|j: int| 0 <= j < i ==> !toggles(#[trigger] events@[j], configured_keys@),
        decreases events.len() - i,
    {
        if console_key_pressed(&events[i], configured_keys) {
            return true;
        }
        i += 1;
    }
    false
}

/// Whether the console is open.
#[derive(Clone, Copy, Debug, PartialEq, Eq, Structural)]
pub struct ConsoleOpen {
    pub open: bool,
}

impl Default for ConsoleOpen {
    /// The console starts closed.
    fn default() -> (r: Self)
        ensures
            !r.open,
    {
        ConsoleOpen { open: false }
    }
}

impl ConsoleOpen {
    /// Reacts to the keys of a tick. A press of a configured key closes the console where it
    /// is open, and opens it where it is closed unless something else wants the keyboard.
    pub fn toggle(&mut self, pressed: bool, wants_keyboard_input: bool)
        ensures
            final(self).open == if pressed && (old(self).open || !wants_keyboard_input) {
                !old(self).open
            } else {
                old(self).open
            },
    {
        if pressed && (self.open || !wants_keyboard_input) {
            self.open = !self.open;
        }
    }
}

} // verus!

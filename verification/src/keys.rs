//! Keyboard input as the widgets see it: the key, whether it was pressed or
//! released, and the modifier state.
use vstd::prelude::*;

verus! {

/// The non-character keys that the widgets react to.
#[derive(Clone, Copy, Debug, PartialEq, Eq, Structural)]
pub enum NamedKey {
    Enter,
    Space,
    Tab,
    Escape,
    Backspace,
    Delete,
    ArrowUp,
    ArrowDown,
    ArrowLeft,
    ArrowRight,
    Home,
    End,
    PageUp,
    PageDown,
    /// Any other named key (function keys, media keys, ...).
    Other,
}

/// The logical key of a key event.
#[derive(Clone, Debug)]
pub enum Key {
    Named(NamedKey),
    /// A key that produces text; the string is that text.
    Character(String),
    /// A key with no known meaning.
    Unidentified,
}

/// A keyboard event: the logical key and whether it went down or up.
#[derive(Clone, Debug)]
pub struct KeyEvent {
    pub key: Key,
    pub pressed: bool,
}

/// The modifier keys held during a key event.
#[derive(Clone, Copy, Debug, PartialEq, Eq, Structural)]
pub struct Modifiers {
    pub ctrl: bool,
    pub shift: bool,
}

impl KeyEvent {
    /// Whether this is a press of the named key `k`.
    pub open spec fn is_press_of(&self, k: NamedKey) -> bool {
        self.pressed && self.key == Key::Named(k)
    }

    /// Whether the logical key is the named key `k` (pressed or released).
    pub open spec fn is_named(&self, k: NamedKey) -> bool {
        self.key == Key::Named(k)
    }
}

/// Whether `key` is the named key `k`.
pub fn is_named(key: &Key, k: NamedKey) -> (r: bool)
    ensures
        r == (*key == Key::Named(k)),
{
    match key {
        Key::Named(n) => *n == k,
        _ => false,
    }
}

} // verus!

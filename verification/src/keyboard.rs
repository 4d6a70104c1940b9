//! The input latch: it records the most recently pressed key code and
//! answers press-state queries against it. The latch starts empty, so no
//! key reads as pressed before the first press; a new press simply replaces
//! the latch. Simultaneous keys and release events are out of scope.

use vstd::prelude::*;

verus! {

/// The single-key input latch. Its view is the latched key code, `None`
/// until the first press.
pub struct Keyboard {
    key_pressed: Option<u8>,
}

impl View for Keyboard {
    type V = Option<u8>;

    closed spec fn view(&self) -> Option<u8> {
        self.key_pressed
    }
}

impl Keyboard {
    /// An empty latch: nothing reads as pressed yet.
    pub fn new() -> (k: Keyboard)
        ensures
            k@ == None::<u8>,
    {
        Keyboard { key_pressed: None }
    }

    /// Whether `key_code` is the most recently pressed key. Always false
    /// while no key has been pressed.
    pub fn is_key_pressed(&self, key_code: u8) -> (r: bool)
        ensures
            r == (self@ == Some(key_code)),
    {
        match self.key_pressed {
            Some(k) => k == key_code,
            None => false,
        }
    }

    /// Record a key press, replacing the previous latch.
    pub fn set_key_pressed(&mut self, key: u8)
        ensures
            final(self)@ == Some(key),
    {
        self.key_pressed = Some(key);
    }

    /// The most recently pressed key, `None` before the first press.
    pub fn get_key_pressed(&self) -> (r: Option<u8>)
        ensures
            r == self@,
    {
        self.key_pressed
    }
}

} // verus!

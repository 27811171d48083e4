use vstd::prelude::*;

verus! {

/// The hexadecimal keypad: at most one key, identified by its code, is held down at a time.
pub struct Keyboard {
    key_pressed: Option<u8>,
}

impl View for Keyboard {
    type V = Option<u8>;

    closed spec fn view(&self) -> Option<u8> {
        self.key_pressed
    }
}

impl Keyboard {
    /// A keypad with no key held down.
    pub fn new() -> (k: Keyboard)
        ensures
            k@ == None::<u8>,
    {
        Keyboard { key_pressed: None }
    }

    /// Records which key, if any, is now held down.
    pub fn set_key_pressed(&mut self, key: Option<u8>)
        ensures
            final(self)@ == key,
    {
        self.key_pressed = key;
    }

    /// Whether the key with code `key_code` is held down.
    pub fn is_key_pressed(&self, key_code: u8) -> (pressed: bool)
        ensures
            pressed == (self@ == Some(key_code)),
    {
        match self.key_pressed {
            Some(k) => k == key_code,
            None => false,
        }
    }

    /// The key held down, if any.
    pub fn get_key_pressed(&self) -> (key: Option<u8>)
        ensures
            key == self@,
    {
        self.key_pressed
    }
}

} // verus!

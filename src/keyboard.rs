use vstd::prelude::*;

verus! {

/// Number of keys on the hex keypad.
pub const KEY_COUNT: usize = 16;

/// The hex key that a physical key code stands for, if any.
///
/// Physical codes are those of the host window's key enumeration: the
/// left-hand 4x4 block `1 2 3 4 / Q W E R / A S D F / Z X C V`.
pub open spec fn keymap_spec(code: u8) -> Option<u8> {
    if code == 1 {
        Some(0x1u8)
    } else if code == 2 {
        Some(0x2u8)
    } else if code == 3 {
        Some(0x3u8)
    } else if code == 4 {
        Some(0xcu8)
    } else if code == 26 {
        Some(0x4u8)
    } else if code == 32 {
        Some(0x5u8)
    } else if code == 14 {
        Some(0x6u8)
    } else if code == 27 {
        Some(0xdu8)
    } else if code == 10 {
        Some(0x7u8)
    } else if code == 28 {
        Some(0x8u8)
    } else if code == 13 {
        Some(0x9u8)
    } else if code == 15 {
        Some(0xeu8)
    } else if code == 35 {
        Some(0xau8)
    } else if code == 33 {
        Some(0x0u8)
    } else if code == 12 {
        Some(0xbu8)
    } else if code == 31 {
        Some(0xfu8)
    } else {
        None
    }
}

/// Every mapped physical key lands on one of the sixteen hex keys.
pub proof fn lemma_keymap_in_range(code: u8)
    ensures
        keymap_spec(code) matches Some(k) ==> k < 16,
{
}

/// Maps a physical key code onto a hex key code.
pub fn keymap(code: u8) -> (r: Option<u8>)
    ensures
        r == keymap_spec(code),
{
    match code {
        1 => Some(0x1),
        2 => Some(0x2),
        3 => Some(0x3),
        4 => Some(0xc),
        26 => Some(0x4),
        32 => Some(0x5),
        14 => Some(0x6),
        27 => Some(0xd),
        10 => Some(0x7),
        28 => Some(0x8),
        13 => Some(0x9),
        15 => Some(0xe),
        35 => Some(0xa),
        33 => Some(0x0),
        12 => Some(0xb),
        31 => Some(0xf),
        _ => None,
    }
}

/// Down/up state of the sixteen hex keys.
pub struct Keyboard {
    keys_pressed: [bool; 16],
}

impl View for Keyboard {
    type V = Seq<bool>;

    closed spec fn view(&self) -> Seq<bool> {
        self.keys_pressed@
    }
}

/// Whether hex key `key` is down in `keys`; codes past the keypad are never down.
pub open spec fn key_down(keys: Seq<bool>, key: int) -> bool {
    0 <= key < keys.len() && keys[key]
}

impl Keyboard {
    /// A keypad with every key up.
    pub fn new() -> (r: Self)
        ensures
            r@ == Seq::new(16, |_i: int| false),
    {
        let r = Keyboard { keys_pressed: [false; 16] };
        assert(r@ =~= Seq::new(16, |_i: int| false));
        r
    }

    /// The keypad always holds sixteen keys.
    pub proof fn lemma_len(&self)
        ensures
            self@.len() == 16,
    {
    }

    /// Whether hex key `key_code` is down; a code past `0xF` names no key.
    pub fn is_key_pressed(&self, key_code: u8) -> (r: bool)
        ensures
            r == key_down(self@, key_code as int),
    {
        if (key_code as usize) < KEY_COUNT {
            self.keys_pressed[key_code as usize]
        } else {
            false
        }
    }

    /// Sets hex key `key_code` down or up; a code past `0xF` names no key and
    /// changes nothing.
    pub fn set_key(&mut self, key_code: u8, down: bool)
        ensures
            final(self)@ == if key_code < 16 {
                old(self)@.update(key_code as int, down)
            } else {
                old(self)@
            },
    {
        if (key_code as usize) < KEY_COUNT {
            self.keys_pressed[key_code as usize] = down;
        }
    }

    /// Marks the hex key of physical key `key` as down; unmapped keys change nothing.
    pub fn key_pressed(&mut self, key: u8)
        ensures
            final(self)@ == match keymap_spec(key) {
                Some(k) => old(self)@.update(k as int, true),
                None => old(self)@,
            },
    {
        if let Some(k) = keymap(key) {
            self.set_key(k, true);
        }
    }

    /// Marks the hex key of physical key `key` as up; unmapped keys change nothing.
    pub fn key_released(&mut self, key: u8)
        ensures
            final(self)@ == match keymap_spec(key) {
                Some(k) => old(self)@.update(k as int, false),
                None => old(self)@,
            },
    {
        if let Some(k) = keymap(key) {
            self.set_key(k, false);
        }
    }
}

} // verus!

//! The keys a report can carry, with their HID usage codes.
use vstd::prelude::*;

verus! {

/// A key of the keyboard.
#[derive(Clone, Copy, Debug, PartialEq, Eq, Hash, Structural)]
pub enum Key {
    /// No key at all; its usage code fills unused report slots.
    NOKEY,
    LCTRL,
    RCTRL,
    LSHIFT,
    RSHIFT,
    LALT,
    RALT,
    LSUPER,
    RSUPER,
    Dd,
    Ee,
}

/// The HID usage code of a key.
pub open spec fn spec_scancode(k: Key) -> u8 {
    match k {
        Key::NOKEY => 0x00,
        Key::LCTRL => 0xE0,
        Key::RCTRL => 0xE4,
        Key::LSHIFT => 0xE1,
        Key::RSHIFT => 0xE5,
        Key::LALT => 0xE2,
        Key::RALT => 0xE6,
        Key::LSUPER => 0xE3,
        Key::RSUPER => 0xE7,
        Key::Dd => 0x07,
        Key::Ee => 0x08,
    }
}

/// The usage codes of the eight modifier keys, in the order of the bits
/// of a report's modifier byte, least significant bit first.
pub open spec fn spec_modifier_codes() -> Seq<u8> {
    seq![0xE0u8, 0xE1u8, 0xE2u8, 0xE3u8, 0xE4u8, 0xE5u8, 0xE6u8, 0xE7u8]
}

/// Whether a key is one of the eight modifiers.
pub open spec fn is_modifier(k: Key) -> bool {
    spec_modifier_codes().contains(spec_scancode(k))
}

impl Key {
    /// The HID usage code of this key.
    pub fn scancode(&self) -> (code: u8)
        ensures
            code == spec_scancode(*self),
    {
        match *self {
            Key::NOKEY => 0x00,
            Key::LCTRL => 0xE0,
            Key::RCTRL => 0xE4,
            Key::LSHIFT => 0xE1,
            Key::RSHIFT => 0xE5,
            Key::LALT => 0xE2,
            Key::RALT => 0xE6,
            Key::LSUPER => 0xE3,
            Key::RSUPER => 0xE7,
            Key::Dd => 0x07,
            Key::Ee => 0x08,
        }
    }

    /// The usage codes of the modifier keys: left control, shift, alt and
    /// super, then the same four on the right.
    pub fn modifiers() -> (codes: [u8; 8])
        ensures
            codes@ == spec_modifier_codes(),
    {
        let codes: [u8; 8] = [
            Key::LCTRL.scancode(),
            Key::LSHIFT.scancode(),
            Key::LALT.scancode(),
            Key::LSUPER.scancode(),
            Key::RCTRL.scancode(),
            Key::RSHIFT.scancode(),
            Key::RALT.scancode(),
            Key::RSUPER.scancode(),
        ];
        assert(codes@ =~= spec_modifier_codes());
        codes
    }
}

/// A key is a modifier exactly when it is one of the eight left or right
/// control, shift, alt and super keys.
pub proof fn lemma_modifier_keys(k: Key)
    ensures
        is_modifier(k) <==> (k == Key::LCTRL || k == Key::RCTRL || k == Key::LSHIFT
            || k == Key::RSHIFT || k == Key::LALT || k == Key::RALT || k == Key::LSUPER
            || k == Key::RSUPER),
{
    let s = spec_modifier_codes();
    assert(s[0] == 0xE0u8 && s[1] == 0xE1u8 && s[2] == 0xE2u8 && s[3] == 0xE3u8);
    assert(s[4] == 0xE4u8 && s[5] == 0xE5u8 && s[6] == 0xE6u8 && s[7] == 0xE7u8);
    if is_modifier(k) {
        let i = choose|i: int| 0 <= i < s.len() && s[i] == spec_scancode(k);
        assert(0 <= i < 8);
    }
    match k {
        Key::LCTRL => assert(s[0] == spec_scancode(k)),
        Key::LSHIFT => assert(s[1] == spec_scancode(k)),
        Key::LALT => assert(s[2] == spec_scancode(k)),
        Key::LSUPER => assert(s[3] == spec_scancode(k)),
        Key::RCTRL => assert(s[4] == spec_scancode(k)),
        Key::RSHIFT => assert(s[5] == spec_scancode(k)),
        Key::RALT => assert(s[6] == spec_scancode(k)),
        Key::RSUPER => assert(s[7] == spec_scancode(k)),
        _ => {},
    }
}

} // verus!

use ble_kdb_rs::{Key, KeyReport, ReportError};

#[test]
fn single_key_report_without_modifiers() {
    let r = KeyReport::new_from_key(Key::Dd, &[]).unwrap();
    assert_eq!(r.modifier_byte(), 0);
    assert_eq!(r.reserved(), 0);
    assert_eq!(r.key_codes(), [0x07, 0, 0, 0, 0, 0]);
}

#[test]
fn single_key_report_with_modifiers() {
    let r = KeyReport::new_from_key(Key::Ee, &[Key::LSHIFT, Key::RALT]).unwrap();
    assert_eq!(r.modifier_byte(), 0b0100_0010);
    assert_eq!(r.key_codes(), [0x08, 0, 0, 0, 0, 0]);
}

#[test]
fn left_control_and_right_shift_in_hid_order() {
    let r = KeyReport::new_from_keys(&[], &[Key::LCTRL, Key::RSHIFT]).unwrap();
    assert_eq!(r.modifier_byte(), 0x21);
    assert_eq!(r.key_codes(), [0; 6]);
}

#[test]
fn each_modifier_has_its_own_bit() {
    let cases = [
        (Key::LCTRL, 0b0000_0001u8),
        (Key::LSHIFT, 0b0000_0010),
        (Key::LALT, 0b0000_0100),
        (Key::LSUPER, 0b0000_1000),
        (Key::RCTRL, 0b0001_0000),
        (Key::RSHIFT, 0b0010_0000),
        (Key::RALT, 0b0100_0000),
        (Key::RSUPER, 0b1000_0000),
    ];
    for (k, bit) in cases {
        assert_eq!(KeyReport::new_from_key(Key::NOKEY, &[k]).unwrap().modifier_byte(), bit);
    }
}

#[test]
fn all_modifiers_fill_the_byte() {
    let all = [
        Key::LCTRL,
        Key::RCTRL,
        Key::LSHIFT,
        Key::RSHIFT,
        Key::LALT,
        Key::RALT,
        Key::LSUPER,
        Key::RSUPER,
    ];
    assert_eq!(KeyReport::new_from_keys(&[], &all).unwrap().modifier_byte(), 0xFF);
}

#[test]
fn repeated_modifier_sets_its_bit_once() {
    let r = KeyReport::new_from_keys(&[Key::Dd], &[Key::LCTRL, Key::LCTRL]).unwrap();
    assert_eq!(r.modifier_byte(), 0x01);
}

#[test]
fn non_modifier_is_refused() {
    assert_eq!(
        KeyReport::new_from_key(Key::Dd, &[Key::LCTRL, Key::Ee]).err(),
        Some(ReportError::NonModifierKey)
    );
    assert_eq!(
        KeyReport::new_from_key(Key::Dd, &[Key::NOKEY]).err(),
        Some(ReportError::NonModifierKey)
    );
    assert_eq!(
        KeyReport::new_from_keys(&[Key::Dd], &[Key::Dd]).err(),
        Some(ReportError::NonModifierKey)
    );
}

#[test]
fn keys_fill_slots_in_order() {
    let r = KeyReport::new_from_keys(&[Key::Ee, Key::Dd, Key::Ee], &[Key::RSHIFT]).unwrap();
    assert_eq!(r.modifier_byte(), 0x20);
    assert_eq!(r.reserved(), 0);
    assert_eq!(r.key_codes(), [0x08, 0x07, 0x08, 0, 0, 0]);
}

#[test]
fn six_keys_fit() {
    let keys = [Key::Dd, Key::Ee, Key::Dd, Key::Ee, Key::Dd, Key::Ee];
    let r = KeyReport::new_from_keys(&keys, &[]).unwrap();
    assert_eq!(r.key_codes(), [0x07, 0x08, 0x07, 0x08, 0x07, 0x08]);
}

#[test]
fn seven_keys_are_too_many() {
    let keys = [Key::Dd; 7];
    assert_eq!(KeyReport::new_from_keys(&keys, &[]).err(), Some(ReportError::TooManyKeys));
}

#[test]
fn too_many_keys_is_reported_before_bad_modifier() {
    let keys = [Key::Dd; 7];
    assert_eq!(
        KeyReport::new_from_keys(&keys, &[Key::Ee]).err(),
        Some(ReportError::TooManyKeys)
    );
}

#[test]
fn no_keys_gives_empty_slots() {
    let r = KeyReport::new_from_keys(&[], &[]).unwrap();
    assert_eq!(r.modifier_byte(), 0);
    assert_eq!(r.key_codes(), [0; 6]);
}

#[test]
fn one_key_report_equals_one_element_list_report() {
    let a = KeyReport::new_from_key(Key::Ee, &[Key::LALT]).unwrap();
    let b = KeyReport::new_from_keys(&[Key::Ee], &[Key::LALT]).unwrap();
    assert_eq!(a.modifier_byte(), b.modifier_byte());
    assert_eq!(a.reserved(), b.reserved());
    assert_eq!(a.key_codes(), b.key_codes());
}

#[test]
fn default_report_is_empty() {
    let r = KeyReport::default();
    assert_eq!(r.modifier_byte(), 0);
    assert_eq!(r.reserved(), 0);
    assert_eq!(r.key_codes(), [0; 6]);
}

#[test]
fn error_messages() {
    assert_eq!(
        ReportError::TooManyKeys.message(),
        "this dude be mashing (pressing more than 6 keys at once)"
    );
    assert_eq!(ReportError::NonModifierKey.message(), "cannot use non-modifier keys");
}

#[test]
fn modifier_order_and_repeats_do_not_matter() {
    let a = KeyReport::new_from_keys(&[Key::Dd], &[Key::RALT, Key::LCTRL, Key::RALT]).unwrap();
    let b = KeyReport::new_from_keys(&[Key::Dd], &[Key::LCTRL, Key::RALT]).unwrap();
    assert_eq!(a.modifier_byte(), b.modifier_byte());
    assert_eq!(a.modifier_byte(), 0x41);
}

#[test]
fn joined_modifiers_or_their_bytes() {
    let a = KeyReport::new_from_keys(&[], &[Key::LSHIFT]).unwrap().modifier_byte();
    let b = KeyReport::new_from_keys(&[], &[Key::RSUPER, Key::LALT]).unwrap().modifier_byte();
    let ab = KeyReport::new_from_keys(&[], &[Key::LSHIFT, Key::RSUPER, Key::LALT])
        .unwrap()
        .modifier_byte();
    assert_eq!(ab, a | b);
}

use ble_kdb_rs::Key;

#[test]
fn scancodes_follow_hid_usage_table() {
    assert_eq!(Key::NOKEY.scancode(), 0x00);
    assert_eq!(Key::LCTRL.scancode(), 0xE0);
    assert_eq!(Key::LSHIFT.scancode(), 0xE1);
    assert_eq!(Key::LALT.scancode(), 0xE2);
    assert_eq!(Key::LSUPER.scancode(), 0xE3);
    assert_eq!(Key::RCTRL.scancode(), 0xE4);
    assert_eq!(Key::RSHIFT.scancode(), 0xE5);
    assert_eq!(Key::RALT.scancode(), 0xE6);
    assert_eq!(Key::RSUPER.scancode(), 0xE7);
    assert_eq!(Key::Dd.scancode(), 0x07);
    assert_eq!(Key::Ee.scancode(), 0x08);
}

#[test]
fn modifier_codes_left_then_right() {
    assert_eq!(Key::modifiers(), [0xE0, 0xE1, 0xE2, 0xE3, 0xE4, 0xE5, 0xE6, 0xE7]);
}

#[test]
fn plain_keys_are_not_modifier_codes() {
    let mods = Key::modifiers();
    assert!(!mods.contains(&Key::NOKEY.scancode()));
    assert!(!mods.contains(&Key::Dd.scancode()));
    assert!(!mods.contains(&Key::Ee.scancode()));
}

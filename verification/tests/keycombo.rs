use ble_kdb_rs::{Key, KeyCombo};

#[test]
fn combo_keeps_at_most_three_keys() {
    assert_eq!(KeyCombo::new(&[]).size(), 0);
    assert_eq!(KeyCombo::new(&[Key::LCTRL]).size(), 1);
    assert_eq!(KeyCombo::new(&[Key::LCTRL, Key::LALT]).size(), 2);
    assert_eq!(KeyCombo::new(&[Key::LCTRL, Key::LALT, Key::LSHIFT]).size(), 3);
    assert_eq!(KeyCombo::new(&[Key::LCTRL, Key::LALT, Key::LSHIFT, Key::RALT]).size(), 3);
}

#[test]
fn combo_of_four_keys_drops_the_fourth() {
    let four = KeyCombo::new(&[Key::LCTRL, Key::LALT, Key::LSHIFT, Key::RALT]);
    let three = KeyCombo::new(&[Key::LCTRL, Key::LALT, Key::LSHIFT]);
    assert_eq!(four, three);
    assert!(four.detect(&[Key::LSHIFT, Key::LALT, Key::LCTRL]));
}

#[test]
fn default_combo_is_the_empty_one() {
    assert_eq!(KeyCombo::default(), KeyCombo::new(&[]));
    assert_eq!(KeyCombo::default().size(), 0);
}

#[test]
fn empty_combo_detected_with_nothing_held() {
    assert!(KeyCombo::default().detect(&[]));
    assert!(KeyCombo::default().detect(&[Key::Dd, Key::LSHIFT]));
}

#[test]
fn combo_needs_all_its_keys() {
    let combo = KeyCombo::new(&[Key::LCTRL, Key::LSHIFT]);
    assert!(combo.detect(&[Key::LCTRL, Key::LSHIFT]));
    assert!(combo.detect(&[Key::LSHIFT, Key::Dd, Key::LCTRL]));
    assert!(!combo.detect(&[Key::LCTRL]));
    assert!(!combo.detect(&[Key::LSHIFT, Key::RCTRL]));
    assert!(!combo.detect(&[]));
}

#[test]
fn combo_order_matters_for_equality_not_detection() {
    let a = KeyCombo::new(&[Key::LCTRL, Key::LSHIFT]);
    let b = KeyCombo::new(&[Key::LSHIFT, Key::LCTRL]);
    assert_ne!(a, b);
    assert!(a.detect(&[Key::LSHIFT, Key::LCTRL]));
    assert!(b.detect(&[Key::LCTRL, Key::LSHIFT]));
}

#[test]
fn combo_rebuilt_from_first_three_keys_is_equal() {
    let a = KeyCombo::new(&[Key::LCTRL, Key::LALT, Key::LSHIFT, Key::Dd]);
    let b = KeyCombo::new(&[Key::LCTRL, Key::LALT, Key::LSHIFT, Key::Ee]);
    assert_eq!(a, b);
    assert_ne!(KeyCombo::new(&[Key::LCTRL]), KeyCombo::new(&[Key::LCTRL, Key::LALT]));
}

use ble_kdb_rs::{Key, KeyCombo, KeyMap, Layer};

#[test]
fn empty_layer_maps_nothing() {
    let l = Layer::new();
    assert_eq!(l.get((0, 0)), None);
}

#[test]
fn layer_reads_back_what_was_written() {
    let mut l = Layer::new();
    l.insert((4, 2), Key::LCTRL);
    l.insert((4, 4), Key::RSHIFT);
    assert_eq!(l.get((4, 2)), Some(Key::LCTRL));
    assert_eq!(l.get((4, 4)), Some(Key::RSHIFT));
    assert_eq!(l.get((2, 4)), None);
}

#[test]
fn layer_insert_replaces() {
    let mut l = Layer::new();
    l.insert((1, 1), Key::Dd);
    l.insert((1, 1), Key::Ee);
    assert_eq!(l.get((1, 1)), Some(Key::Ee));
}

#[test]
fn key_map_keeps_first_insertion_order() {
    let mut km = KeyMap::new();
    let a = KeyCombo::default();
    let b = KeyCombo::new(&[Key::LCTRL]);
    km.insert(a, Layer::new());
    km.insert(b, Layer::new());
    km.insert(a, Layer::new());
    assert_eq!(km.len(), 2);
    assert_eq!(km.combo_at(0), a);
    assert_eq!(km.combo_at(1), b);
}

#[test]
fn key_map_insert_replaces_layer() {
    let mut km = KeyMap::new();
    let mut first = Layer::new();
    first.insert((0, 0), Key::Dd);
    let mut second = Layer::new();
    second.insert((0, 0), Key::Ee);
    km.insert(KeyCombo::default(), first);
    km.insert(KeyCombo::default(), second);
    let l = km.get(&KeyCombo::default()).unwrap();
    assert_eq!(l.get((0, 0)), Some(Key::Ee));
    assert!(km.get(&KeyCombo::new(&[Key::LALT])).is_none());
}

use ble_kdb_rs::keyboard::should_evaluate;
use ble_kdb_rs::{Key, KeyCombo, KeyMap, Keyboard, Layer, Matrix, MatrixLoc, PhantomMatrix};

struct Scripted {
    frames: Vec<Vec<MatrixLoc>>,
}

impl Matrix for Scripted {
    fn poll(&mut self) -> Vec<MatrixLoc> {
        if self.frames.is_empty() {
            Vec::new()
        } else {
            self.frames.remove(0)
        }
    }
}

fn layer(entries: &[(MatrixLoc, Key)]) -> Layer {
    let mut l = Layer::new();
    for (loc, k) in entries {
        l.insert(*loc, *k);
    }
    l
}

fn base_and_ctrl_maps() -> (KeyMap, Layer) {
    let mut km = KeyMap::new();
    km.insert(KeyCombo::default(), layer(&[((0, 0), Key::Dd), ((0, 1), Key::Ee)]));
    km.insert(KeyCombo::new(&[Key::LCTRL]), layer(&[((0, 0), Key::Ee), ((0, 1), Key::Dd)]));
    let mods = layer(&[((4, 4), Key::LCTRL), ((4, 5), Key::LSHIFT)]);
    (km, mods)
}

#[test]
fn new_keyboard_has_nothing_pressed() {
    let (km, mods) = base_and_ctrl_maps();
    let kb = Keyboard::new(PhantomMatrix::new(), km, mods);
    assert!(kb.state().is_empty());
}

#[test]
fn poll_takes_the_matrix_state() {
    let (km, mods) = base_and_ctrl_maps();
    let m = Scripted { frames: vec![vec![(0, 0), (4, 4)], vec![]] };
    let mut kb = Keyboard::new(m, km, mods);
    kb.poll();
    assert_eq!(kb.state(), &vec![(0, 0), (4, 4)]);
    kb.poll();
    assert!(kb.state().is_empty());
}

#[test]
fn phantom_keyboard_stays_empty() {
    let (km, mods) = base_and_ctrl_maps();
    let mut kb = Keyboard::new(PhantomMatrix::new(), km, mods);
    kb.poll();
    kb.poll();
    assert!(kb.state().is_empty());
}

#[test]
fn base_layer_without_modifiers() {
    let (km, mods) = base_and_ctrl_maps();
    let mut kb = Keyboard::new(PhantomMatrix::new(), km, mods);
    assert_eq!(kb.update_state(vec![(0, 1), (0, 0), (3, 3)]), Some(vec![Key::Ee, Key::Dd]));
}

#[test]
fn held_modifier_selects_its_layer() {
    let (km, mods) = base_and_ctrl_maps();
    let mut kb = Keyboard::new(PhantomMatrix::new(), km, mods);
    assert_eq!(kb.update_state(vec![(4, 4), (0, 0)]), Some(vec![Key::Ee]));
}

#[test]
fn unused_modifier_falls_back_to_base_layer() {
    let (km, mods) = base_and_ctrl_maps();
    let mut kb = Keyboard::new(PhantomMatrix::new(), km, mods);
    assert_eq!(kb.update_state(vec![(4, 5), (0, 0)]), Some(vec![Key::Dd]));
}

#[test]
fn larger_combo_wins() {
    let (mut km, mods) = base_and_ctrl_maps();
    km.insert(KeyCombo::new(&[Key::LCTRL, Key::LSHIFT]), layer(&[((0, 0), Key::LALT)]));
    let mut kb = Keyboard::new(PhantomMatrix::new(), km, mods);
    assert_eq!(kb.update_state(vec![(4, 5), (4, 4), (0, 0)]), Some(vec![Key::LALT]));
    assert_eq!(kb.update_state(vec![(4, 4), (0, 0)]), Some(vec![Key::Ee]));
}

#[test]
fn among_equal_sizes_the_later_combo_wins() {
    let (mut km, mods) = base_and_ctrl_maps();
    km.insert(KeyCombo::new(&[Key::LSHIFT]), layer(&[((0, 0), Key::RALT)]));
    let mut kb = Keyboard::new(PhantomMatrix::new(), km, mods);
    assert_eq!(kb.update_state(vec![(4, 4), (4, 5), (0, 0)]), Some(vec![Key::RALT]));
}

#[test]
fn unchanged_empty_state_is_not_evaluated() {
    let (km, mods) = base_and_ctrl_maps();
    let mut kb = Keyboard::new(PhantomMatrix::new(), km, mods);
    assert_eq!(kb.update_state(vec![]), None);
    assert_eq!(kb.update_state(vec![(0, 0)]), Some(vec![Key::Dd]));
    assert_eq!(kb.update_state(vec![(0, 0)]), Some(vec![Key::Dd]));
    assert_eq!(kb.update_state(vec![]), Some(vec![]));
    assert_eq!(kb.update_state(vec![]), None);
}

#[test]
fn evaluation_rule() {
    assert!(!should_evaluate(&[], &[]));
    assert!(should_evaluate(&[(1, 1)], &[]));
    assert!(should_evaluate(&[], &[(1, 1)]));
    assert!(should_evaluate(&[(1, 1)], &[(1, 1)]));
    assert!(should_evaluate(&[(1, 1)], &[(1, 2)]));
}

#[test]
fn evaluation_queues_the_report() {
    let (km, mods) = base_and_ctrl_maps();
    let mut kb = Keyboard::new(PhantomMatrix::new(), km, mods);
    assert!(kb.report_queue().is_empty());
    kb.update_state(vec![(4, 4), (0, 0)]);
    assert_eq!(kb.report_queue().len(), 1);
    let r = &kb.report_queue()[0];
    assert_eq!(r.modifier_byte(), 0x01);
    assert_eq!(r.key_codes(), [0x08, 0, 0, 0, 0, 0]);
}

#[test]
fn no_report_when_state_is_not_looked_at() {
    let (km, mods) = base_and_ctrl_maps();
    let mut kb = Keyboard::new(PhantomMatrix::new(), km, mods);
    assert_eq!(kb.update_state(vec![]), None);
    assert!(kb.report_queue().is_empty());
    kb.poll();
    assert!(kb.report_queue().is_empty());
}

#[test]
fn release_queues_an_empty_report() {
    let (km, mods) = base_and_ctrl_maps();
    let mut kb = Keyboard::new(PhantomMatrix::new(), km, mods);
    kb.update_state(vec![(0, 1)]);
    kb.update_state(vec![]);
    assert_eq!(kb.report_queue().len(), 2);
    assert_eq!(kb.report_queue()[0].key_codes(), [0x08, 0, 0, 0, 0, 0]);
    assert_eq!(kb.report_queue()[1].key_codes(), [0; 6]);
    assert_eq!(kb.report_queue()[1].modifier_byte(), 0);
}

#[test]
fn too_many_keys_queue_no_report() {
    let mut base = Layer::new();
    for c in 0..7u8 {
        base.insert((0, c), Key::Dd);
    }
    let mut km = KeyMap::new();
    km.insert(KeyCombo::default(), base);
    let mut kb = Keyboard::new(PhantomMatrix::new(), km, Layer::new());
    let pressed: Vec<MatrixLoc> = (0..7u8).map(|c| (0, c)).collect();
    assert_eq!(kb.update_state(pressed).map(|k| k.len()), Some(7));
    assert!(kb.report_queue().is_empty());
}

#[test]
fn polled_state_is_reported_with_its_modifiers() {
    let (km, mods) = base_and_ctrl_maps();
    let m = Scripted { frames: vec![vec![(4, 4), (0, 1)]] };
    let mut kb = Keyboard::new(m, km, mods);
    kb.poll();
    assert_eq!(kb.report_queue().len(), 1);
    assert_eq!(kb.report_queue()[0].modifier_byte(), 0x01);
    assert_eq!(kb.report_queue()[0].key_codes(), [0x07, 0, 0, 0, 0, 0]);
}

use evdev::KeyCode;
use kmrebind::key_mapper::{bitset_clear, bitset_get, bitset_set};
use kmrebind::KeyMapper;
use std::collections::HashSet;

fn mapped_keys() -> HashSet<u16> {
    [KeyCode::KEY_DOT.0, KeyCode::KEY_SLASH.0].into_iter().collect()
}

/// Single-key mode: only one key is mapped; press/release directly controls mouse button.
#[test]
fn single_key_mapping_only_one_key_mapped() {
    let one_key: HashSet<u16> = [KeyCode::KEY_SPACE.0].into_iter().collect();
    let mut mapper = KeyMapper::new(one_key);
    assert!(mapper.is_mapped(KeyCode::KEY_SPACE.0));
    assert!(!mapper.is_mapped(KeyCode::KEY_DOT.0));
    assert!(mapper.process_key_event(KeyCode::KEY_SPACE.0, true));
    assert!(mapper.get_mouse_button_state());
    assert!(mapper.process_key_event(KeyCode::KEY_SPACE.0, false));
    assert!(!mapper.get_mouse_button_state());
}

#[test]
fn single_key_press_release() {
    let mut mapper = KeyMapper::new(mapped_keys());
    assert!(mapper.process_key_event(KeyCode::KEY_DOT.0, true));
    assert!(mapper.get_mouse_button_state());
    assert_eq!(mapper.get_active_keys().len(), 1);
    assert!(mapper.process_key_event(KeyCode::KEY_DOT.0, false));
    assert!(!mapper.get_mouse_button_state());
    assert_eq!(mapper.get_active_keys().len(), 0);
}

#[test]
fn two_keys_reference_counting() {
    let mut mapper = KeyMapper::new(mapped_keys());
    assert!(mapper.process_key_event(KeyCode::KEY_DOT.0, true));
    assert!(mapper.get_mouse_button_state());
    assert!(!mapper.process_key_event(KeyCode::KEY_SLASH.0, true));
    assert!(mapper.get_mouse_button_state());
    assert_eq!(mapper.get_active_keys().len(), 2);
    assert!(!mapper.process_key_event(KeyCode::KEY_DOT.0, false));
    assert!(mapper.get_mouse_button_state());
    assert_eq!(mapper.get_active_keys().len(), 1);
    assert!(mapper.process_key_event(KeyCode::KEY_SLASH.0, false));
    assert!(!mapper.get_mouse_button_state());
    assert_eq!(mapper.get_active_keys().len(), 0);
}

#[test]
fn reverse_order_release() {
    let mut mapper = KeyMapper::new(mapped_keys());
    mapper.process_key_event(KeyCode::KEY_DOT.0, true);
    mapper.process_key_event(KeyCode::KEY_SLASH.0, true);
    assert!(mapper.get_mouse_button_state());
    assert!(!mapper.process_key_event(KeyCode::KEY_SLASH.0, false));
    assert!(mapper.get_mouse_button_state());
    assert!(mapper.process_key_event(KeyCode::KEY_DOT.0, false));
    assert!(!mapper.get_mouse_button_state());
}

#[test]
fn rapid_press_release() {
    let mut mapper = KeyMapper::new(mapped_keys());
    mapper.process_key_event(KeyCode::KEY_DOT.0, true);
    mapper.process_key_event(KeyCode::KEY_SLASH.0, true);
    assert!(mapper.get_mouse_button_state());
    mapper.process_key_event(KeyCode::KEY_DOT.0, false);
    mapper.process_key_event(KeyCode::KEY_SLASH.0, false);
    assert!(!mapper.get_mouse_button_state());
}

#[test]
fn unmapped_key_ignored() {
    let mut mapper = KeyMapper::new(mapped_keys());
    let initial = mapper.get_mouse_button_state();
    assert!(!mapper.process_key_event(KeyCode::KEY_A.0, true));
    assert_eq!(mapper.get_mouse_button_state(), initial);
}

#[test]
fn reset() {
    let mut mapper = KeyMapper::new(mapped_keys());
    mapper.process_key_event(KeyCode::KEY_DOT.0, true);
    mapper.process_key_event(KeyCode::KEY_SLASH.0, true);
    assert!(mapper.get_mouse_button_state());
    mapper.reset();
    assert!(!mapper.get_mouse_button_state());
    assert_eq!(mapper.get_active_keys().len(), 0);
}

#[test]
fn double_press_same_key() {
    let mut mapper = KeyMapper::new(mapped_keys());
    assert!(mapper.process_key_event(KeyCode::KEY_DOT.0, true));
    assert!(mapper.get_mouse_button_state());
    assert!(!mapper.process_key_event(KeyCode::KEY_DOT.0, true));
    assert!(mapper.get_mouse_button_state());
    assert_eq!(mapper.get_active_keys().len(), 1);
}

#[test]
fn release_of_unheld_key_changes_nothing() {
    let mut mapper = KeyMapper::new(mapped_keys());
    assert!(!mapper.process_key_event(KeyCode::KEY_DOT.0, false));
    assert!(!mapper.get_mouse_button_state());
    mapper.process_key_event(KeyCode::KEY_SLASH.0, true);
    assert!(!mapper.process_key_event(KeyCode::KEY_DOT.0, false));
    assert!(mapper.get_mouse_button_state());
    let active = mapper.get_active_keys();
    assert_eq!(active.len(), 1);
    assert!(active.contains(&KeyCode::KEY_SLASH.0));
}

#[test]
fn press_then_release_restores_state() {
    let mut mapper = KeyMapper::new(mapped_keys());
    mapper.process_key_event(KeyCode::KEY_SLASH.0, true);
    let before = mapper.get_active_keys();
    mapper.process_key_event(KeyCode::KEY_DOT.0, true);
    mapper.process_key_event(KeyCode::KEY_DOT.0, false);
    assert_eq!(mapper.get_active_keys(), before);
    assert!(mapper.get_mouse_button_state());
}

#[test]
fn codes_beyond_bitset_are_not_mapped() {
    let keys: HashSet<u16> = [KeyCode::KEY_DOT.0, 1024, 40000].into_iter().collect();
    let mut mapper = KeyMapper::new(keys);
    assert!(mapper.is_mapped(KeyCode::KEY_DOT.0));
    assert!(!mapper.is_mapped(1024));
    assert!(!mapper.is_mapped(40000));
    assert!(!mapper.process_key_event(1024, true));
    assert!(!mapper.get_mouse_button_state());
    assert!(mapper.is_mapped(1023) == false);
}

#[test]
fn highest_bitset_code_is_mapped() {
    let keys: HashSet<u16> = [1023, 0, 64, 63].into_iter().collect();
    let mut mapper = KeyMapper::new(keys);
    for code in [1023u16, 0, 64, 63] {
        assert!(mapper.is_mapped(code));
    }
    assert!(!mapper.is_mapped(65));
    assert!(mapper.process_key_event(1023, true));
    assert!(!mapper.process_key_event(64, true));
    let active = mapper.get_active_keys();
    assert_eq!(active, [1023u16, 64].into_iter().collect::<HashSet<u16>>());
    assert!(!mapper.process_key_event(1023, false));
    assert!(mapper.process_key_event(64, false));
}

#[test]
fn empty_mapping_ignores_everything() {
    let mut mapper = KeyMapper::new(HashSet::new());
    assert!(!mapper.is_mapped(KeyCode::KEY_DOT.0));
    assert!(!mapper.process_key_event(KeyCode::KEY_DOT.0, true));
    assert!(!mapper.get_mouse_button_state());
    assert!(mapper.get_active_keys().is_empty());
}

#[test]
fn held_keys_follow_history() {
    let mut mapper = KeyMapper::new(mapped_keys());
    mapper.process_key_event(KeyCode::KEY_DOT.0, true);
    mapper.process_key_event(KeyCode::KEY_SLASH.0, true);
    mapper.reset();
    mapper.process_key_event(KeyCode::KEY_SLASH.0, true);
    mapper.process_key_event(KeyCode::KEY_DOT.0, false);
    mapper.process_key_event(KeyCode::KEY_A.0, true);
    let active = mapper.get_active_keys();
    assert_eq!(active, [KeyCode::KEY_SLASH.0].into_iter().collect::<HashSet<u16>>());
    assert!(mapper.get_mouse_button_state());
}

#[test]
fn bitset_clear_undoes_set() {
    let mut b = [0u64; 16];
    b[3] = 0x5;
    b[15] = u64::MAX ^ (1u64 << 63);
    let b0 = b;
    for code in [200u16, 0, 1023, 64, 511] {
        assert!(!bitset_get(&b0, code));
        bitset_set(&mut b, code);
        assert!(bitset_get(&b, code));
        bitset_clear(&mut b, code);
        assert_eq!(b, b0);
    }
    bitset_set(&mut b, 1024);
    assert_eq!(b, b0);
    bitset_clear(&mut b, 5000);
    assert_eq!(b, b0);
}

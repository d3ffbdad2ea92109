use indexmap::IndexSet;
use keyboim::codes::{
    VK_E, VK_LCONTROL, VK_LMENU, VK_LSHIFT, VK_Q, WM_KEYDOWN, WM_KEYUP, WM_SYSKEYDOWN, WM_SYSKEYUP,
};
use keyboim::key_set::KeyDirection::{Down, Up};
use keyboim::key_set::{
    apply_key_event, handle_key_message, is_disable_overlay_key_pressed, key_direction,
    KeyDirection,
};

fn order(keys: &IndexSet<u32>) -> Vec<u32> {
    keys.iter().copied().collect()
}

#[test]
fn key_down_appends_in_press_order() {
    let mut keys = IndexSet::new();
    handle_key_message(&mut keys, 0x41, WM_KEYDOWN);
    handle_key_message(&mut keys, 0x10, WM_KEYDOWN);
    handle_key_message(&mut keys, 0x42, WM_SYSKEYDOWN);
    assert_eq!(order(&keys), vec![0x41, 0x10, 0x42]);
}

#[test]
fn second_key_down_keeps_size_and_position() {
    let mut keys = IndexSet::new();
    handle_key_message(&mut keys, 0x41, WM_KEYDOWN);
    handle_key_message(&mut keys, 0x42, WM_KEYDOWN);
    handle_key_message(&mut keys, 0x43, WM_KEYDOWN);
    let before = order(&keys);
    handle_key_message(&mut keys, 0x41, WM_KEYDOWN);
    assert_eq!(keys.len(), 3);
    assert_eq!(order(&keys), before);
    assert_eq!(keys.get_index_of(&0x41), Some(0));
    handle_key_message(&mut keys, 0x42, WM_SYSKEYDOWN);
    assert_eq!(order(&keys), vec![0x41, 0x42, 0x43]);
}

#[test]
fn key_up_leaves_the_other_keys_in_press_order() {
    let mut keys = IndexSet::new();
    for vk in [0x41u32, 0x42, 0x43, 0x44] {
        handle_key_message(&mut keys, vk, WM_KEYDOWN);
    }
    handle_key_message(&mut keys, 0x42, WM_KEYUP);
    assert_eq!(order(&keys), vec![0x41, 0x43, 0x44]);
    handle_key_message(&mut keys, 0x41, WM_SYSKEYUP);
    assert_eq!(order(&keys), vec![0x43, 0x44]);
    handle_key_message(&mut keys, 0x44, WM_KEYUP);
    assert_eq!(order(&keys), vec![0x43]);
    handle_key_message(&mut keys, 0x43, WM_KEYUP);
    assert!(keys.is_empty());
}

#[test]
fn first_key_up_leaves_the_later_keys_in_press_order() {
    let mut keys = IndexSet::new();
    for vk in [0x41u32, 0x42, 0x43] {
        handle_key_message(&mut keys, vk, WM_KEYDOWN);
    }
    handle_key_message(&mut keys, 0x41, WM_KEYUP);
    assert_eq!(order(&keys), vec![0x42, 0x43]);
    handle_key_message(&mut keys, 0x44, WM_KEYDOWN);
    handle_key_message(&mut keys, 0x45, WM_KEYDOWN);
    assert_eq!(order(&keys), vec![0x42, 0x43, 0x44, 0x45]);
}

#[test]
fn key_up_of_a_key_that_is_not_held_changes_nothing() {
    let mut keys = IndexSet::new();
    handle_key_message(&mut keys, 0x41, WM_KEYUP);
    assert!(keys.is_empty());
    handle_key_message(&mut keys, 0x41, WM_KEYDOWN);
    handle_key_message(&mut keys, 0x42, WM_KEYUP);
    assert_eq!(order(&keys), vec![0x41]);
}

#[test]
fn other_messages_change_nothing() {
    let mut keys = IndexSet::new();
    handle_key_message(&mut keys, 0x41, WM_KEYDOWN);
    for msg in [0u32, 0x00FF, 0x0102, 0x0103, 0x0106, 0x0201, u32::MAX] {
        handle_key_message(&mut keys, 0x41, msg);
        handle_key_message(&mut keys, 0x42, msg);
        assert_eq!(order(&keys), vec![0x41]);
    }
}

#[test]
fn message_kinds_decode_to_directions() {
    assert_eq!(key_direction(WM_KEYDOWN), Some(KeyDirection::Down));
    assert_eq!(key_direction(WM_SYSKEYDOWN), Some(KeyDirection::Down));
    assert_eq!(key_direction(WM_KEYUP), Some(KeyDirection::Up));
    assert_eq!(key_direction(WM_SYSKEYUP), Some(KeyDirection::Up));
    assert_eq!(key_direction(0x0102), None);
    assert_eq!(key_direction(0), None);
}

#[test]
fn key_is_held_exactly_after_a_press() {
    let runs: [&[KeyDirection]; 8] = [
        &[],
        &[Down],
        &[Down, Up],
        &[Up, Up, Down],
        &[Up, Down, Up, Down],
        &[Down, Up, Up, Down],
        &[Down, Up, Down, Up],
        &[Up],
    ];
    for run in runs {
        let mut keys = IndexSet::new();
        keys.insert(0x10);
        let mut outstanding = 0u32;
        for direction in run {
            apply_key_event(&mut keys, 0x41, *direction);
            match direction {
                Down => outstanding += 1,
                Up => outstanding = outstanding.saturating_sub(1),
            }
        }
        assert_eq!(keys.contains(&0x41), outstanding > 0);
        assert!(keys.contains(&0x10));
    }
}

#[test]
fn one_release_lets_go_of_a_repeated_key() {
    let mut keys = IndexSet::new();
    apply_key_event(&mut keys, 0x41, KeyDirection::Down);
    apply_key_event(&mut keys, 0x41, KeyDirection::Down);
    apply_key_event(&mut keys, 0x41, KeyDirection::Down);
    assert_eq!(keys.len(), 1);
    apply_key_event(&mut keys, 0x41, KeyDirection::Up);
    assert!(!keys.contains(&0x41));
}

#[test]
fn chord_is_recognized_only_with_all_five_keys() {
    let chord = [VK_LCONTROL, VK_LSHIFT, VK_LMENU, VK_Q, VK_E];
    let mut keys = IndexSet::new();
    for (n, vk) in chord.iter().enumerate() {
        assert!(!is_disable_overlay_key_pressed(&keys), "after {n} keys");
        apply_key_event(&mut keys, *vk, KeyDirection::Down);
    }
    assert!(is_disable_overlay_key_pressed(&keys));
    for gone in chord {
        let mut fewer = keys.clone();
        apply_key_event(&mut fewer, gone, KeyDirection::Up);
        assert!(!is_disable_overlay_key_pressed(&fewer));
        apply_key_event(&mut fewer, gone, KeyDirection::Down);
        assert!(is_disable_overlay_key_pressed(&fewer));
    }
}

#[test]
fn chord_is_recognized_in_any_order_and_among_other_keys() {
    let mut keys = IndexSet::new();
    for vk in [0x41u32, VK_E, VK_Q, 0x70, VK_LMENU, VK_LSHIFT, 0x20, VK_LCONTROL] {
        apply_key_event(&mut keys, vk, KeyDirection::Down);
    }
    assert!(is_disable_overlay_key_pressed(&keys));
}

#[test]
fn chord_needs_the_left_modifiers() {
    let mut keys = IndexSet::new();
    // Right Ctrl, right Shift and right Alt, and the neutral codes.
    for vk in [0xA3u32, 0xA1, 0xA5, 0x11, 0x10, 0x12, VK_Q, VK_E] {
        apply_key_event(&mut keys, vk, KeyDirection::Down);
    }
    assert!(!is_disable_overlay_key_pressed(&keys));
    assert!(!is_disable_overlay_key_pressed(&IndexSet::new()));
}

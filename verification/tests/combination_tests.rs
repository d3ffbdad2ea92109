use indexmap::IndexSet;
use keyboim::codes::{WM_KEYDOWN, WM_KEYUP};
use keyboim::combination::{join_labels, key_combination_to_string, modifier_priority};
use keyboim::key_set::handle_key_message;

/// A layout that prints lower-case letters for the letter keys, digits for
/// the digit keys, and nothing else.
fn layout(vk: u32) -> Vec<u16> {
    match vk {
        0x41..=0x5A => vec![vk as u16 + 0x20],
        0x30..=0x39 => vec![vk as u16],
        _ => Vec::new(),
    }
}

fn set_of(codes: &[u32]) -> IndexSet<u32> {
    codes.iter().copied().collect()
}

fn order(keys: &IndexSet<u32>) -> Vec<u32> {
    keys.iter().copied().collect()
}

#[test]
fn right_shift_left_ctrl_and_a_in_every_press_order() {
    let (shift, ctrl, a) = (0xA1u32, 0xA2u32, 0x41u32);
    let orders = [
        [shift, ctrl, a],
        [shift, a, ctrl],
        [ctrl, shift, a],
        [ctrl, a, shift],
        [a, shift, ctrl],
        [a, ctrl, shift],
    ];
    for pressed in orders {
        let mut keys = set_of(&pressed);
        assert_eq!(key_combination_to_string(&mut keys, layout), "Ctrl + Shift + A");
        assert_eq!(order(&keys), vec![ctrl, shift, a]);
    }
}

#[test]
fn ranks_of_the_modifier_families() {
    assert_eq!(modifier_priority(0xA2), 0);
    assert_eq!(modifier_priority(0xA3), 0);
    assert_eq!(modifier_priority(0xA0), 1);
    assert_eq!(modifier_priority(0xA1), 1);
    assert_eq!(modifier_priority(0xA4), 2);
    assert_eq!(modifier_priority(0xA5), 2);
    assert_eq!(modifier_priority(0x5B), 3);
    assert_eq!(modifier_priority(0x5C), 3);
    for vk in [0u32, 0x10, 0x11, 0x12, 0x41, 0x5D, 0x70, 0xA6, 0xFF, u32::MAX] {
        assert_eq!(modifier_priority(vk), 10, "code {vk:#x}");
    }
}

#[test]
fn only_the_low_word_of_a_code_ranks_it() {
    assert_eq!(modifier_priority(0x1_00A2), 0);
    assert_eq!(modifier_priority(0xFFFF_00A1), 1);
    assert_eq!(modifier_priority(0x0001_005B), 3);
}

#[test]
fn keys_of_one_rank_keep_their_press_order() {
    let mut keys = set_of(&[0x5A, 0x41, 0xA4, 0x4D, 0xA3, 0x5C, 0xA1, 0xA2, 0x5B, 0x31]);
    let text = key_combination_to_string(&mut keys, layout);
    assert_eq!(order(&keys), vec![0xA3, 0xA2, 0xA1, 0xA4, 0x5C, 0x5B, 0x5A, 0x41, 0x4D, 0x31]);
    assert_eq!(text, "Ctrl + Ctrl + Shift + Alt + Win + Win + Z + A + M + 1");
}

#[test]
fn sorting_again_changes_nothing() {
    let mut keys = set_of(&[0x42, 0xA0, 0x41, 0xA2]);
    let first = key_combination_to_string(&mut keys, layout);
    let sorted = order(&keys);
    let second = key_combination_to_string(&mut keys, layout);
    assert_eq!(first, "Ctrl + Shift + B + A");
    assert_eq!(second, first);
    assert_eq!(order(&keys), sorted);
}

#[test]
fn single_key_and_no_key() {
    let mut one = set_of(&[0x41]);
    assert_eq!(key_combination_to_string(&mut one, layout), "A");
    let mut none = IndexSet::new();
    assert_eq!(key_combination_to_string(&mut none, layout), "");
}

#[test]
fn key_without_text_shows_its_placeholder_in_the_combination() {
    let mut keys = set_of(&[0xE8, 0xA2, 0x0D, 0x7B]);
    assert_eq!(key_combination_to_string(&mut keys, layout), "Ctrl + VK_E8 + Enter + F12");
}

#[test]
fn neutral_modifier_codes_rank_with_the_other_keys() {
    let mut keys = set_of(&[0x11, 0x41, 0xA0]);
    assert_eq!(key_combination_to_string(&mut keys, layout), "Shift + Ctrl + A");
}

#[test]
fn labels_are_joined_with_the_separator_between() {
    let labels = vec!["Ctrl".to_string(), "Alt".to_string(), "Delete".to_string()];
    assert_eq!(join_labels(&labels, " + "), "Ctrl + Alt + Delete");
    assert_eq!(join_labels(&labels, ""), "CtrlAltDelete");
    assert_eq!(join_labels(&labels[..1].to_vec(), " + "), "Ctrl");
    assert_eq!(join_labels(&Vec::new(), " + "), "");
    assert_eq!(join_labels(&vec![String::new(), String::new()], "-"), "-");
}

#[test]
fn canonical_order_keeps_every_key_once() {
    let pressed = [0x41u32, 0xA5, 0x70, 0xA2, 0x5B, 0x0D, 0xA1, 0x5C, 0x30, 0xA0, 0xA4, 0xA3];
    let mut keys = set_of(&pressed);
    key_combination_to_string(&mut keys, layout);
    assert_eq!(keys.len(), pressed.len());
    for vk in pressed {
        assert!(keys.contains(&vk));
    }
    let ranks: Vec<u16> = keys.iter().map(|&vk| modifier_priority(vk)).collect();
    assert_eq!(ranks, vec![0, 0, 1, 1, 2, 2, 3, 3, 10, 10, 10, 10]);
}

#[test]
fn label_keeps_press_order_after_a_key_was_let_go() {
    let mut keys = IndexSet::new();
    for vk in [0x41u32, 0x42, 0x43] {
        handle_key_message(&mut keys, vk, WM_KEYDOWN);
    }
    handle_key_message(&mut keys, 0x41, WM_KEYUP);
    handle_key_message(&mut keys, 0x44, WM_KEYDOWN);
    handle_key_message(&mut keys, 0x45, WM_KEYDOWN);
    assert_eq!(key_combination_to_string(&mut keys, layout), "B + C + D + E");
}

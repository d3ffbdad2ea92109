use keyboim::codes::{
    WM_LBUTTONDOWN, WM_LBUTTONUP, WM_MBUTTONDOWN, WM_MBUTTONUP, WM_RBUTTONDOWN, WM_RBUTTONUP,
    WM_XBUTTONDOWN, WM_XBUTTONUP,
};
use keyboim::mouse::{extended_button_index, handle_mouse_message, LEFT, MIDDLE, RIGHT, X1, X2};

#[test]
fn second_extended_button_sets_and_clears_only_slot_four() {
    for before in [[false; 5], [true, false, true, false, false], [true, true, true, true, false]] {
        let mut state = before;
        handle_mouse_message(&mut state, WM_XBUTTONDOWN, 2 << 16);
        assert!(state[4]);
        assert_eq!(state[..4], before[..4]);
        handle_mouse_message(&mut state, WM_XBUTTONUP, 2 << 16);
        assert_eq!(state, before);
    }
}

#[test]
fn first_extended_button_sets_and_clears_only_slot_three() {
    let mut state = [false, true, false, false, true];
    handle_mouse_message(&mut state, WM_XBUTTONDOWN, 0x0001_0020);
    assert_eq!(state, [false, true, false, true, true]);
    handle_mouse_message(&mut state, WM_XBUTTONUP, 0x0001_FFFF);
    assert_eq!(state, [false, true, false, false, true]);
}

#[test]
fn left_right_and_middle_button_have_their_slots() {
    let mut state = [false; 5];
    handle_mouse_message(&mut state, WM_LBUTTONDOWN, 0);
    assert_eq!(state, [true, false, false, false, false]);
    handle_mouse_message(&mut state, WM_RBUTTONDOWN, 0);
    assert_eq!(state, [true, true, false, false, false]);
    handle_mouse_message(&mut state, WM_MBUTTONDOWN, 0);
    assert_eq!(state, [true, true, true, false, false]);
    handle_mouse_message(&mut state, WM_LBUTTONUP, 0);
    assert_eq!(state, [false, true, true, false, false]);
    handle_mouse_message(&mut state, WM_RBUTTONUP, 0);
    assert_eq!(state, [false, false, true, false, false]);
    handle_mouse_message(&mut state, WM_MBUTTONUP, 0);
    assert_eq!(state, [false; 5]);
    assert_eq!((LEFT, RIGHT, MIDDLE, X1, X2), (0, 1, 2, 3, 4));
}

#[test]
fn last_event_wins() {
    let mut state = [false; 5];
    handle_mouse_message(&mut state, WM_LBUTTONDOWN, 0);
    handle_mouse_message(&mut state, WM_LBUTTONDOWN, 0);
    assert!(state[0]);
    handle_mouse_message(&mut state, WM_LBUTTONUP, 0);
    assert!(!state[0]);
    handle_mouse_message(&mut state, WM_LBUTTONUP, 0);
    assert!(!state[0]);
}

#[test]
fn unknown_extended_button_and_other_messages_change_nothing() {
    let before = [true, false, true, false, true];
    let mut state = before;
    for data in [0u32, 3 << 16, 0xFFFF_0000, 2, 1, 0x0000_FFFF] {
        handle_mouse_message(&mut state, WM_XBUTTONDOWN, data);
        handle_mouse_message(&mut state, WM_XBUTTONUP, data);
        assert_eq!(state, before);
    }
    for msg in [0u32, 0x0200, 0x0203, 0x0206, 0x0209, 0x020A, 0x020D, 0x0100, u32::MAX] {
        handle_mouse_message(&mut state, msg, 1 << 16);
        assert_eq!(state, before);
    }
}

#[test]
fn extended_button_is_the_high_word_of_the_data() {
    assert_eq!(extended_button_index(0), 0);
    assert_eq!(extended_button_index(0x0001_0000), 1);
    assert_eq!(extended_button_index(0x0002_ABCD), 2);
    assert_eq!(extended_button_index(0x0000_FFFF), 0);
    assert_eq!(extended_button_index(u32::MAX), 0xFFFF);
}

use indexmap::IndexSet;
use keyboim::display::{fade_alpha, DisplayState, FrameOutcome, FADE_END_MS, FADE_START_MS};

fn set_of(codes: &[u32]) -> IndexSet<u32> {
    codes.iter().copied().collect()
}

fn shown(state: &DisplayState) -> Vec<u32> {
    state.last_combination.iter().copied().collect()
}

fn layout(vk: u32) -> Vec<u16> {
    match vk {
        0x41..=0x5A => vec![vk as u16 + 0x20],
        _ => Vec::new(),
    }
}

const QUIET: FrameOutcome = FrameOutcome { refreshed: false, leave_overlay: false };
const FRESH: FrameOutcome = FrameOutcome { refreshed: true, leave_overlay: false };

#[test]
fn starts_with_nothing_on_display() {
    let mut state = DisplayState::new();
    assert!(state.last_combination.is_empty());
    assert!(!state.is_key_cleared);
    assert!(!state.is_overlay);
    assert_eq!(state.current_combination_label(layout), "");
}

#[test]
fn chord_stays_on_display_while_keys_are_released() {
    let mut state = DisplayState::new();
    assert_eq!(state.observe(&set_of(&[0x41])), FRESH);
    assert_eq!(shown(&state), vec![0x41]);
    assert_eq!(state.observe(&set_of(&[0x41, 0x42])), FRESH);
    assert_eq!(shown(&state), vec![0x41, 0x42]);
    // The same keys again, then one released: nothing changes.
    assert_eq!(state.observe(&set_of(&[0x41, 0x42])), QUIET);
    assert_eq!(state.observe(&set_of(&[0x42])), QUIET);
    assert_eq!(shown(&state), vec![0x41, 0x42]);
    // Another key joins what is left: still no more keys than on display.
    assert_eq!(state.observe(&set_of(&[0x42, 0x43])), QUIET);
    assert_eq!(shown(&state), vec![0x41, 0x42]);
    assert_eq!(state.observe(&set_of(&[0x42, 0x43, 0x44])), FRESH);
    assert_eq!(shown(&state), vec![0x42, 0x43, 0x44]);
}

#[test]
fn new_chord_begins_after_all_keys_were_released() {
    let mut state = DisplayState::new();
    state.observe(&set_of(&[0x41, 0x42, 0x43]));
    assert_eq!(state.observe(&IndexSet::new()), QUIET);
    assert!(state.is_key_cleared);
    // The old combination stays on display until a key goes down.
    assert_eq!(shown(&state), vec![0x41, 0x42, 0x43]);
    assert_eq!(state.observe(&IndexSet::new()), QUIET);
    assert_eq!(state.observe(&set_of(&[0x44])), FRESH);
    assert!(!state.is_key_cleared);
    assert_eq!(shown(&state), vec![0x44]);
    assert_eq!(state.observe(&set_of(&[0x44])), QUIET);
}

#[test]
fn label_of_the_display_is_canonical_and_sorts_the_snapshot() {
    let mut state = DisplayState::new();
    state.observe(&set_of(&[0x41, 0xA1, 0xA2]));
    assert_eq!(state.current_combination_label(layout), "Ctrl + Shift + A");
    assert_eq!(shown(&state), vec![0xA2, 0xA1, 0x41]);
    assert_eq!(state.current_combination_label(layout), "Ctrl + Shift + A");
    state.observe(&set_of(&[0x41]));
    assert_eq!(state.current_combination_label(layout), "Ctrl + Shift + A");
}

#[test]
fn chord_that_leaves_overlay_mode_is_seen_when_the_snapshot_is_taken() {
    let chord = [0xA2u32, 0xA0, 0xA4, 0x51, 0x45];
    let mut state = DisplayState::new();
    state.enter_overlay();
    assert!(state.is_overlay);
    assert_eq!(state.observe(&set_of(&chord[..4])), FRESH);
    assert!(state.is_overlay);
    assert_eq!(
        state.observe(&set_of(&chord)),
        FrameOutcome { refreshed: true, leave_overlay: true }
    );
    assert!(!state.is_overlay);
    // Held on, the chord is not reported again.
    state.enter_overlay();
    assert_eq!(state.observe(&set_of(&chord)), QUIET);
    assert!(state.is_overlay);
}

#[test]
fn chord_is_reported_outside_overlay_mode_too() {
    let mut state = DisplayState::new();
    let outcome = state.observe(&set_of(&[0x45, 0x51, 0xA4, 0xA0, 0xA2, 0x41]));
    assert_eq!(outcome, FrameOutcome { refreshed: true, leave_overlay: true });
    assert!(!state.is_overlay);
}

#[test]
fn opacity_is_full_then_falls_to_nothing() {
    assert_eq!(fade_alpha(0), 255);
    assert_eq!(fade_alpha(1), 255);
    assert_eq!(fade_alpha(1999), 255);
    assert_eq!(fade_alpha(2000), 255);
    assert_eq!(fade_alpha(2001), 254);
    assert_eq!(fade_alpha(2002), 254);
    assert_eq!(fade_alpha(2004), 253);
    assert_eq!(fade_alpha(2200), 204);
    assert_eq!(fade_alpha(2500), 127);
    assert_eq!(fade_alpha(2800), 51);
    assert_eq!(fade_alpha(2996), 1);
    assert_eq!(fade_alpha(2997), 0);
    assert_eq!(fade_alpha(2999), 0);
    assert_eq!(fade_alpha(3000), 0);
    assert_eq!(fade_alpha(3001), 0);
    assert_eq!(fade_alpha(1_000_000), 0);
    assert_eq!(fade_alpha(u128::MAX), 0);
    assert_eq!((FADE_START_MS, FADE_END_MS), (2000, 3000));
}

#[test]
fn opacity_never_rises_and_falls_every_four_milliseconds() {
    let mut previous = fade_alpha(0);
    for ms in 1u128..=3200 {
        let alpha = fade_alpha(ms);
        assert!(alpha <= previous);
        previous = alpha;
    }
    for ms in 2000u128..=2996 {
        assert!(fade_alpha(ms + 4) < fade_alpha(ms));
    }
    for ms in 0u128..=2000 {
        assert!(fade_alpha(2001) < fade_alpha(ms));
    }
}

#[test]
fn label_does_not_depend_on_the_time_on_display() {
    let mut state = DisplayState::new();
    state.observe(&set_of(&[0xA0, 0x42]));
    let at_start = state.current_combination_label(layout);
    for ms in [0u128, 2500, 3000, 60_000] {
        let _ = fade_alpha(ms);
        assert_eq!(state.observe(&set_of(&[0xA0, 0x42])), QUIET);
        assert_eq!(state.current_combination_label(layout), at_start);
    }
    assert_eq!(at_start, "Shift + B");
}

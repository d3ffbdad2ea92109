use keyboim::click_through::{
    disable_click_through_style, enable_click_through_style, has_click_through_style,
    CLICK_THROUGH, WS_EX_LAYERED, WS_EX_TRANSPARENT,
};

#[test]
fn enabling_sets_both_bits_and_keeps_the_rest() {
    assert_eq!(enable_click_through_style(0), 0x0008_0020);
    assert_eq!(enable_click_through_style(0x0000_0100), 0x0008_0120);
    assert_eq!(enable_click_through_style(0x0008_0000), 0x0008_0020);
    assert_eq!(enable_click_through_style(-1), -1);
    assert_eq!(enable_click_through_style(i32::MIN), i32::MIN | 0x0008_0020);
    assert_eq!(WS_EX_LAYERED | WS_EX_TRANSPARENT, CLICK_THROUGH);
}

#[test]
fn disabling_clears_both_bits_and_keeps_the_rest() {
    assert_eq!(disable_click_through_style(0x0008_0020), 0);
    assert_eq!(disable_click_through_style(0x0008_0120), 0x0000_0100);
    assert_eq!(disable_click_through_style(0x0000_0020), 0);
    assert_eq!(disable_click_through_style(0), 0);
    assert_eq!(disable_click_through_style(-1), !0x0008_0020);
}

#[test]
fn switching_twice_is_switching_once() {
    for style in [0i32, 1, 0x20, 0x0008_0000, 0x0008_0020, 0x1234_5678, -1, i32::MIN, i32::MAX] {
        let on = enable_click_through_style(style);
        let off = disable_click_through_style(style);
        assert_eq!(enable_click_through_style(on), on);
        assert_eq!(disable_click_through_style(off), off);
        assert_eq!(enable_click_through_style(off), on);
        assert_eq!(disable_click_through_style(on), off);
        assert!(has_click_through_style(on));
        assert!(!has_click_through_style(off));
    }
}

#[test]
fn mode_is_on_only_with_both_bits() {
    assert!(has_click_through_style(0x0008_0020));
    assert!(!has_click_through_style(0x0008_0000));
    assert!(!has_click_through_style(0x0000_0020));
    assert!(!has_click_through_style(0));
}

//! The extended window style that makes a window let pointer input through
//! to whatever lies beneath it. Changing the mode is one read of the style,
//! one of these functions, and one write.

use vstd::prelude::*;

verus! {

/// Extended style bit of a layered window.
pub const WS_EX_LAYERED: i32 = 0x0008_0000;

/// Extended style bit of a window that pointer input passes through.
pub const WS_EX_TRANSPARENT: i32 = 0x0000_0020;

/// Both bits of click-through mode.
pub const CLICK_THROUGH: i32 = 0x0008_0020;

/// Whether a style has both bits of click-through mode.
pub open spec fn is_click_through(style: i32) -> bool {
    style & CLICK_THROUGH == CLICK_THROUGH
}

/// Whether a style has neither bit of click-through mode.
pub open spec fn takes_pointer_input(style: i32) -> bool {
    style & CLICK_THROUGH == 0
}

/// The style with both bits of click-through mode set and every other bit
/// as it was.
pub open spec fn click_through_on(style: i32) -> i32 {
    style | CLICK_THROUGH
}

/// The style with both bits of click-through mode cleared and every other
/// bit as it was.
pub open spec fn click_through_off(style: i32) -> i32 {
    style & !CLICK_THROUGH
}

/// The style of a window in click-through mode.
pub fn enable_click_through_style(style: i32) -> (enabled: i32)
    ensures
        enabled == click_through_on(style),
        is_click_through(enabled),
{
    proof {
        lemma_click_through_modes(style);
    }
    style | (WS_EX_LAYERED | WS_EX_TRANSPARENT)
}

/// The style of a window that takes pointer input again.
pub fn disable_click_through_style(style: i32) -> (disabled: i32)
    ensures
        disabled == click_through_off(style),
        takes_pointer_input(disabled),
{
    proof {
        lemma_click_through_modes(style);
    }
    style & !(WS_EX_LAYERED | WS_EX_TRANSPARENT)
}

/// Whether a window is in click-through mode.
pub fn has_click_through_style(style: i32) -> (on: bool)
    ensures
        on == is_click_through(style),
{
    style & CLICK_THROUGH == CLICK_THROUGH
}

/// Switching click-through mode on or off a second time changes nothing;
/// the mode last set is the one that holds, whatever was set before; and
/// neither touches any other bit of the style.
pub proof fn lemma_click_through_modes(style: i32)
    ensures
        WS_EX_LAYERED | WS_EX_TRANSPARENT == CLICK_THROUGH,
        is_click_through(click_through_on(style)),
        takes_pointer_input(click_through_off(style)),
        click_through_on(click_through_on(style)) == click_through_on(style),
        click_through_off(click_through_off(style)) == click_through_off(style),
        click_through_on(click_through_off(style)) == click_through_on(style),
        click_through_off(click_through_on(style)) == click_through_off(style),
        click_through_on(style) & !CLICK_THROUGH == style & !CLICK_THROUGH,
        click_through_off(style) & !CLICK_THROUGH == style & !CLICK_THROUGH,
        is_click_through(style) ==> click_through_on(style) == style,
        takes_pointer_input(style) ==> click_through_off(style) == style,
{
    assert(0x0008_0000i32 | 0x0000_0020i32 == 0x0008_0020i32) by (bit_vector);
    assert((style | 0x0008_0020i32) & 0x0008_0020i32 == 0x0008_0020i32) by (bit_vector);
    assert((style & !0x0008_0020i32) & 0x0008_0020i32 == 0) by (bit_vector);
    assert((style | 0x0008_0020i32) | 0x0008_0020i32 == style | 0x0008_0020i32) by (bit_vector);
    assert((style & !0x0008_0020i32) & !0x0008_0020i32 == style & !0x0008_0020i32)
        by (bit_vector);
    assert((style & !0x0008_0020i32) | 0x0008_0020i32 == style | 0x0008_0020i32) by (bit_vector);
    assert((style | 0x0008_0020i32) & !0x0008_0020i32 == style & !0x0008_0020i32)
        by (bit_vector);
    assert(style & 0x0008_0020i32 == 0x0008_0020i32 ==> style | 0x0008_0020i32 == style)
        by (bit_vector);
    assert(style & 0x0008_0020i32 == 0 ==> style & !0x0008_0020i32 == style) by (bit_vector);
}

} // verus!

//! Virtual-key codes and input message kinds, as the host numbers them.

use vstd::prelude::*;

verus! {

/// Backspace.
pub const VK_BACK: u32 = 0x08;
/// Tab.
pub const VK_TAB: u32 = 0x09;
/// Enter.
pub const VK_RETURN: u32 = 0x0D;
/// Shift, either side.
pub const VK_SHIFT: u32 = 0x10;
/// Ctrl, either side.
pub const VK_CONTROL: u32 = 0x11;
/// Alt, either side.
pub const VK_MENU: u32 = 0x12;
/// Pause.
pub const VK_PAUSE: u32 = 0x13;
/// Caps Lock.
pub const VK_CAPITAL: u32 = 0x14;
/// The IME Kana mode key.
pub const VK_KANA: u32 = 0x15;
/// The IME Kanji mode key.
pub const VK_KANJI: u32 = 0x19;
/// Esc.
pub const VK_ESCAPE: u32 = 0x1B;
/// The space bar.
pub const VK_SPACE: u32 = 0x20;
/// Page Up.
pub const VK_PRIOR: u32 = 0x21;
/// Page Down.
pub const VK_NEXT: u32 = 0x22;
/// End.
pub const VK_END: u32 = 0x23;
/// Home.
pub const VK_HOME: u32 = 0x24;
/// Left arrow.
pub const VK_LEFT: u32 = 0x25;
/// Up arrow.
pub const VK_UP: u32 = 0x26;
/// Right arrow.
pub const VK_RIGHT: u32 = 0x27;
/// Down arrow.
pub const VK_DOWN: u32 = 0x28;
/// Print Screen.
pub const VK_SNAPSHOT: u32 = 0x2C;
/// Insert.
pub const VK_INSERT: u32 = 0x2D;
/// Delete.
pub const VK_DELETE: u32 = 0x2E;
/// The letter E.
pub const VK_E: u32 = 0x45;
/// The letter Q.
pub const VK_Q: u32 = 0x51;
/// The left OS key.
pub const VK_LWIN: u32 = 0x5B;
/// The right OS key.
pub const VK_RWIN: u32 = 0x5C;
/// The applications key.
pub const VK_APPS: u32 = 0x5D;
/// F1, the first function key.
pub const VK_F1: u32 = 0x70;
/// F12, the last function key with a label of its own.
pub const VK_F12: u32 = 0x7B;
/// Num Lock.
pub const VK_NUMLOCK: u32 = 0x90;
/// Scroll Lock.
pub const VK_SCROLL: u32 = 0x91;
/// Left Shift.
pub const VK_LSHIFT: u32 = 0xA0;
/// Right Shift.
pub const VK_RSHIFT: u32 = 0xA1;
/// Left Ctrl.
pub const VK_LCONTROL: u32 = 0xA2;
/// Right Ctrl.
pub const VK_RCONTROL: u32 = 0xA3;
/// Left Alt.
pub const VK_LMENU: u32 = 0xA4;
/// Right Alt.
pub const VK_RMENU: u32 = 0xA5;

/// A key went down.
pub const WM_KEYDOWN: u32 = 0x0100;
/// A key went up.
pub const WM_KEYUP: u32 = 0x0101;
/// A key went down while Alt was held.
pub const WM_SYSKEYDOWN: u32 = 0x0104;
/// A key went up while Alt was held.
pub const WM_SYSKEYUP: u32 = 0x0105;

/// The left button went down.
pub const WM_LBUTTONDOWN: u32 = 0x0201;
/// The left button went up.
pub const WM_LBUTTONUP: u32 = 0x0202;
/// The right button went down.
pub const WM_RBUTTONDOWN: u32 = 0x0204;
/// The right button went up.
pub const WM_RBUTTONUP: u32 = 0x0205;
/// The middle button went down.
pub const WM_MBUTTONDOWN: u32 = 0x0207;
/// The middle button went up.
pub const WM_MBUTTONUP: u32 = 0x0208;
/// An extended button went down.
pub const WM_XBUTTONDOWN: u32 = 0x020B;
/// An extended button went up.
pub const WM_XBUTTONUP: u32 = 0x020C;

} // verus!

//! The label that stands for one key: a fixed name for the keys that print
//! nothing, the function keys by their number, and for every other key what
//! the host's keyboard layout makes of it, in upper case.

use crate::codes::{
    VK_APPS, VK_BACK, VK_CAPITAL, VK_CONTROL, VK_DELETE, VK_DOWN, VK_END, VK_ESCAPE, VK_F1, VK_F12,
    VK_HOME, VK_INSERT, VK_KANA, VK_KANJI, VK_LCONTROL, VK_LEFT, VK_LMENU, VK_LSHIFT, VK_LWIN,
    VK_MENU, VK_NEXT, VK_NUMLOCK, VK_PAUSE, VK_PRIOR, VK_RCONTROL, VK_RETURN, VK_RIGHT, VK_RMENU,
    VK_RSHIFT, VK_RWIN, VK_SCROLL, VK_SHIFT, VK_SNAPSHOT, VK_SPACE, VK_TAB, VK_UP,
};
use vstd::prelude::*;
use vstd::string::StringExecFns;

verus! {

/// `String::push`: the character is appended.
pub assume_specification[ String::push ](s: &mut String, ch: char)
    ensures
        final(s)@ == old(s)@.push(ch),
;

/// The text that a sequence of UTF-16 code units decodes to, with the
/// replacement character in place of each unpaired surrogate.
pub uninterp spec fn utf16_lossy_text(units: Seq<u16>) -> Seq<char>;

/// The upper-case form of a text.
pub uninterp spec fn uppercase_text(text: Seq<char>) -> Seq<char>;

/// `String::from_utf16_lossy`: decodes UTF-16 code units, invalid data
/// becoming the replacement character.
#[verifier::external_body]
fn decode_utf16_lossy(units: &[u16]) -> (text: String)
    ensures
        text@ == utf16_lossy_text(units@),
{
    String::from_utf16_lossy(units)
}

/// `str::to_uppercase`: the upper-case equivalent of the text, as a new
/// string.
#[verifier::external_body]
fn to_uppercase(text: &str) -> (upper: String)
    ensures
        upper@ == uppercase_text(text@),
{
    text.to_uppercase()
}

/// The digit of value `d`, below 16, in upper-case hexadecimal.
pub open spec fn digit_char(d: int) -> char {
    "0123456789ABCDEF"@[d]
}

/// A number in decimal, without leading zeros.
pub open spec fn decimal_digits(n: nat) -> Seq<char>
    decreases n,
{
    if n < 10 {
        seq![digit_char(n as int)]
    } else {
        decimal_digits(n / 10).push(digit_char((n % 10) as int))
    }
}

/// A number in upper-case hexadecimal, without leading zeros.
pub open spec fn hex_digits(n: nat) -> Seq<char>
    decreases n,
{
    if n < 16 {
        seq![digit_char(n as int)]
    } else {
        hex_digits(n / 16).push(digit_char((n % 16) as int))
    }
}

/// The label of a key that the layout makes nothing of: `VK_` and the code
/// in upper-case hexadecimal, with at least two digits.
pub open spec fn placeholder_text(vk: u32) -> Seq<char> {
    if vk < 16 {
        "VK_0"@ + hex_digits(vk as nat)
    } else {
        "VK_"@ + hex_digits(vk as nat)
    }
}

/// The fixed label of a key, for the keys that have one: the keys that
/// print nothing, the modifiers, where left, right and neutral share one
/// label, and the function keys F1 to F12.
pub open spec fn named_label(vk: u32) -> Option<Seq<char>> {
    if vk == VK_BACK {
        Some("Backspace"@)
    } else if vk == VK_TAB {
        Some("Tab"@)
    } else if vk == VK_RETURN {
        Some("Enter"@)
    } else if vk == VK_PAUSE {
        Some("Pause"@)
    } else if vk == VK_CAPITAL {
        Some("CapsLock"@)
    } else if vk == VK_ESCAPE {
        Some("Esc"@)
    } else if vk == VK_SPACE {
        Some("Space"@)
    } else if vk == VK_PRIOR {
        Some("PageUp"@)
    } else if vk == VK_NEXT {
        Some("PageDown"@)
    } else if vk == VK_END {
        Some("End"@)
    } else if vk == VK_HOME {
        Some("Home"@)
    } else if vk == VK_LEFT {
        Some("\u{2B05}"@)
    } else if vk == VK_UP {
        Some("\u{2B06}"@)
    } else if vk == VK_RIGHT {
        Some("\u{27A1}"@)
    } else if vk == VK_DOWN {
        Some("\u{2B07}"@)
    } else if vk == VK_SNAPSHOT {
        Some("PrintScreen"@)
    } else if vk == VK_INSERT {
        Some("Insert"@)
    } else if vk == VK_DELETE {
        Some("Delete"@)
    } else if vk == VK_NUMLOCK {
        Some("NumLock"@)
    } else if vk == VK_SCROLL {
        Some("ScrollLock"@)
    } else if vk == VK_SHIFT {
        Some("Shift"@)
    } else if vk == VK_LSHIFT {
        Some("Shift"@)
    } else if vk == VK_RSHIFT {
        Some("Shift"@)
    } else if vk == VK_CONTROL {
        Some("Ctrl"@)
    } else if vk == VK_LCONTROL {
        Some("Ctrl"@)
    } else if vk == VK_RCONTROL {
        Some("Ctrl"@)
    } else if vk == VK_MENU {
        Some("Alt"@)
    } else if vk == VK_LMENU {
        Some("Alt"@)
    } else if vk == VK_RMENU {
        Some("Alt"@)
    } else if vk == VK_LWIN {
        Some("Win"@)
    } else if vk == VK_RWIN {
        Some("Win"@)
    } else if vk == VK_APPS {
        Some("Apps"@)
    } else if vk == VK_KANA {
        Some("Kana"@)
    } else if vk == VK_KANJI {
        Some("Kanji"@)
    } else if VK_F1 <= vk <= VK_F12 {
        Some("F"@ + decimal_digits((vk - VK_F1 + 1) as nat))
    } else {
        None
    }
}

/// The label of a key, given the UTF-16 code units that the keyboard layout
/// produces for it with no modifier held: the fixed label where the key has
/// one, else the upper-case form of what the layout produces, else, where
/// it produces nothing, the placeholder.
pub open spec fn label_of(vk: u32, units: Seq<u16>) -> Seq<char> {
    match named_label(vk) {
        Some(name) => name,
        None => if units.len() > 0 {
            uppercase_text(utf16_lossy_text(units))
        } else {
            placeholder_text(vk)
        },
    }
}

fn digit(d: u32) -> (c: char)
    requires
        d < 16,
    ensures
        c == digit_char(d as int),
{
    proof {
        reveal_strlit("0123456789ABCDEF");
    }
    "0123456789ABCDEF".get_char(d as usize)
}

fn push_decimal(text: &mut String, n: u32)
    ensures
        final(text)@ == old(text)@ + decimal_digits(n as nat),
    decreases n,
{
    if n >= 10 {
        push_decimal(text, n / 10);
    }
    text.push(digit(n % 10));
    assert(final(text)@ =~= old(text)@ + decimal_digits(n as nat));
}

fn push_hex(text: &mut String, n: u32)
    ensures
        final(text)@ == old(text)@ + hex_digits(n as nat),
    decreases n,
{
    if n >= 16 {
        push_hex(text, n / 16);
    }
    text.push(digit(n % 16));
    assert(final(text)@ =~= old(text)@ + hex_digits(n as nat));
}

/// The placeholder label of a key that the layout makes nothing of.
pub fn hex_placeholder(vk: u32) -> (text: String)
    ensures
        text@ == placeholder_text(vk),
{
    let mut text = if vk < 16 {
        String::from_str("VK_0")
    } else {
        String::from_str("VK_")
    };
    push_hex(&mut text, vk);
    text
}

/// The fixed label of a key, if it has one.
pub fn named_key_label(vk: u32) -> (label: Option<String>)
    ensures
        label.is_some() == named_label(vk).is_some(),
        label matches Some(text) ==> Some(text@) == named_label(vk),
{
    if vk == VK_BACK {
        Some(String::from_str("Backspace"))
    } else if vk == VK_TAB {
        Some(String::from_str("Tab"))
    } else if vk == VK_RETURN {
        Some(String::from_str("Enter"))
    } else if vk == VK_PAUSE {
        Some(String::from_str("Pause"))
    } else if vk == VK_CAPITAL {
        Some(String::from_str("CapsLock"))
    } else if vk == VK_ESCAPE {
        Some(String::from_str("Esc"))
    } else if vk == VK_SPACE {
        Some(String::from_str("Space"))
    } else if vk == VK_PRIOR {
        Some(String::from_str("PageUp"))
    } else if vk == VK_NEXT {
        Some(String::from_str("PageDown"))
    } else if vk == VK_END {
        Some(String::from_str("End"))
    } else if vk == VK_HOME {
        Some(String::from_str("Home"))
    } else if vk == VK_LEFT {
        Some(String::from_str("\u{2B05}"))
    } else if vk == VK_UP {
        Some(String::from_str("\u{2B06}"))
    } else if vk == VK_RIGHT {
        Some(String::from_str("\u{27A1}"))
    } else if vk == VK_DOWN {
        Some(String::from_str("\u{2B07}"))
    } else if vk == VK_SNAPSHOT {
        Some(String::from_str("PrintScreen"))
    } else if vk == VK_INSERT {
        Some(String::from_str("Insert"))
    } else if vk == VK_DELETE {
        Some(String::from_str("Delete"))
    } else if vk == VK_NUMLOCK {
        Some(String::from_str("NumLock"))
    } else if vk == VK_SCROLL {
        Some(String::from_str("ScrollLock"))
    } else if vk == VK_SHIFT {
        Some(String::from_str("Shift"))
    } else if vk == VK_LSHIFT {
        Some(String::from_str("Shift"))
    } else if vk == VK_RSHIFT {
        Some(String::from_str("Shift"))
    } else if vk == VK_CONTROL {
        Some(String::from_str("Ctrl"))
    } else if vk == VK_LCONTROL {
        Some(String::from_str("Ctrl"))
    } else if vk == VK_RCONTROL {
        Some(String::from_str("Ctrl"))
    } else if vk == VK_MENU {
        Some(String::from_str("Alt"))
    } else if vk == VK_LMENU {
        Some(String::from_str("Alt"))
    } else if vk == VK_RMENU {
        Some(String::from_str("Alt"))
    } else if vk == VK_LWIN {
        Some(String::from_str("Win"))
    } else if vk == VK_RWIN {
        Some(String::from_str("Win"))
    } else if vk == VK_APPS {
        Some(String::from_str("Apps"))
    } else if vk == VK_KANA {
        Some(String::from_str("Kana"))
    } else if vk == VK_KANJI {
        Some(String::from_str("Kanji"))
    } else if VK_F1 <= vk && vk <= VK_F12 {
        let mut text = String::from_str("F");
        push_decimal(&mut text, vk - VK_F1 + 1);
        Some(text)
    } else {
        None
    }
}

/// The UTF-16 code units that the keyboard layout wrote for a key: the
/// first `count` units of the buffer where `count` is positive. Zero says
/// that the layout makes nothing of the key, a negative count that it is a
/// dead key; both leave the key without text.
pub fn produced_units(count: i32, buffer: &[u16]) -> (units: Vec<u16>)
    requires
        count <= buffer@.len(),
    ensures
        units@ == (if count > 0 {
            buffer@.take(count as int)
        } else {
            Seq::empty()
        }),
{
    let mut units: Vec<u16> = Vec::new();
    if count > 0 {
        let n: usize = count as usize;
        let mut i: usize = 0;
        while i < n
            invariant
                i <= n,
                n <= buffer@.len(),
                units@ == buffer@.take(i as int),
            decreases n - i,
        {
            units.push(buffer[i]);
            i = i + 1;
            assert(units@ =~= buffer@.take(i as int));
        }
    }
    units
}

/// The label of a key, given what the keyboard layout produces for it.
pub fn key_label(vk: u32, units: &[u16]) -> (text: String)
    ensures
        text@ == label_of(vk, units@),
{
    match named_key_label(vk) {
        Some(name) => name,
        None => layout_label(vk, units),
    }
}

/// The label of a key without a fixed label.
pub fn layout_label(vk: u32, units: &[u16]) -> (text: String)
    ensures
        text@ == (if units@.len() > 0 {
            uppercase_text(utf16_lossy_text(units@))
        } else {
            placeholder_text(vk)
        }),
{
    if units.len() > 0 {
        let decoded = decode_utf16_lossy(units);
        to_uppercase(decoded.as_str())
    } else {
        hex_placeholder(vk)
    }
}

/// Whether `text` can be the label of the key, where `layout` asks the
/// keyboard layout: the fixed label where the key has one, else the label
/// that goes with something that `layout` may return for the key.
pub open spec fn may_label<F: Fn(u32) -> Vec<u16>>(layout: F, vk: u32, text: Seq<char>) -> bool
{
    match named_label(vk) {
        Some(name) => text == name,
        None => exists|units: Vec<u16>|
            call_ensures(layout, (vk,), units) && text == label_of(vk, units@),
    }
}

/// The label of a key. The keyboard layout is asked, through `layout`,
/// only for a key without a fixed label, and once.
pub fn vk_to_text<F: Fn(u32) -> Vec<u16>>(vk: u32, layout: F) -> (text: String)
    requires
        named_label(vk).is_none() ==> call_requires(layout, (vk,)),
    ensures
        may_label(layout, vk, text@),
{
    match named_key_label(vk) {
        Some(name) => name,
        None => {
            let units = layout(vk);
            layout_label(vk, units.as_slice())
        },
    }
}

} // verus!

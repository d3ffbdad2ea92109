//! Which mouse buttons are down: five slots for the left, right and middle
//! button and the two extended buttons.

use crate::codes::{
    WM_LBUTTONDOWN, WM_LBUTTONUP, WM_MBUTTONDOWN, WM_MBUTTONUP, WM_RBUTTONDOWN, WM_RBUTTONUP,
    WM_XBUTTONDOWN, WM_XBUTTONUP,
};
use vstd::prelude::*;

verus! {

/// The slot of the left button.
pub const LEFT: usize = 0;

/// The slot of the right button.
pub const RIGHT: usize = 1;

/// The slot of the middle button.
pub const MIDDLE: usize = 2;

/// The slot of the first extended button.
pub const X1: usize = 3;

/// The slot of the second extended button.
pub const X2: usize = 4;

/// The number of the extended button that a message is about: the high
/// word of the message's auxiliary data.
pub open spec fn extended_button(data: u32) -> u32 {
    data / 0x1_0000
}

/// The slot that a mouse message is about, and whether the button went
/// down. Messages that report no button, and extended-button messages that
/// name neither the first nor the second extended button, have none.
pub open spec fn transition_of(msg: u32, data: u32) -> Option<(int, bool)> {
    if msg == WM_LBUTTONDOWN {
        Some((LEFT as int, true))
    } else if msg == WM_LBUTTONUP {
        Some((LEFT as int, false))
    } else if msg == WM_RBUTTONDOWN {
        Some((RIGHT as int, true))
    } else if msg == WM_RBUTTONUP {
        Some((RIGHT as int, false))
    } else if msg == WM_MBUTTONDOWN {
        Some((MIDDLE as int, true))
    } else if msg == WM_MBUTTONUP {
        Some((MIDDLE as int, false))
    } else if (msg == WM_XBUTTONDOWN || msg == WM_XBUTTONUP) && extended_button(data) == 1 {
        Some((X1 as int, msg == WM_XBUTTONDOWN))
    } else if (msg == WM_XBUTTONDOWN || msg == WM_XBUTTONUP) && extended_button(data) == 2 {
        Some((X2 as int, msg == WM_XBUTTONDOWN))
    } else {
        None
    }
}

/// The button slots after a mouse message: the slot that the message is
/// about holds what the message says, every other slot what it held.
pub open spec fn after_mouse_message(state: Seq<bool>, msg: u32, data: u32) -> Seq<bool> {
    match transition_of(msg, data) {
        Some((slot, down)) => state.update(slot, down),
        None => state,
    }
}

/// The number of the extended button in a message's auxiliary data.
pub fn extended_button_index(data: u32) -> (which: u32)
    ensures
        which == extended_button(data),
{
    let which: u32 = (data >> 16) & 0xFFFF;
    assert((data >> 16) & 0xFFFF == data / 0x1_0000) by (bit_vector);
    which
}

/// Records a mouse message in the button slots. This is all that the mouse
/// hook's handler does between taking and releasing the lock.
pub fn handle_mouse_message(state: &mut [bool; 5], msg: u32, data: u32)
    ensures
        final(state)@ == after_mouse_message(old(state)@, msg, data),
{
    if msg == WM_LBUTTONDOWN {
        state[LEFT] = true;
    } else if msg == WM_LBUTTONUP {
        state[LEFT] = false;
    } else if msg == WM_RBUTTONDOWN {
        state[RIGHT] = true;
    } else if msg == WM_RBUTTONUP {
        state[RIGHT] = false;
    } else if msg == WM_MBUTTONDOWN {
        state[MIDDLE] = true;
    } else if msg == WM_MBUTTONUP {
        state[MIDDLE] = false;
    } else if msg == WM_XBUTTONDOWN {
        let which = extended_button_index(data);
        if which == 1 {
            state[X1] = true;
        } else if which == 2 {
            state[X2] = true;
        }
    } else if msg == WM_XBUTTONUP {
        let which = extended_button_index(data);
        if which == 1 {
            state[X1] = false;
        } else if which == 2 {
            state[X2] = false;
        }
    }
}

/// A message changes at most the one slot that it is about.
pub proof fn lemma_message_changes_one_slot(state: Seq<bool>, msg: u32, data: u32)
    requires
        state.len() == 5,
    ensures
        after_mouse_message(state, msg, data).len() == 5,
        forall|slot: int|
            0 <= slot < 5 ==> #[trigger] after_mouse_message(state, msg, data)[slot] == (
            match transition_of(msg, data) {
                Some((changed, down)) => if slot == changed {
                    down
                } else {
                    state[slot]
                },
                None => state[slot],
            }),
{
}

/// The button slots after a run of mouse messages, each given by its kind
/// and its auxiliary data.
pub open spec fn after_mouse_messages(state: Seq<bool>, messages: Seq<(u32, u32)>) -> Seq<bool>
    decreases messages.len(),
{
    if messages.len() == 0 {
        state
    } else {
        after_mouse_message(
            after_mouse_messages(state, messages.drop_last()),
            messages.last().0,
            messages.last().1,
        )
    }
}

/// What the last message about a slot said, if any message of the run was
/// about the slot.
pub open spec fn last_transition(messages: Seq<(u32, u32)>, slot: int) -> Option<bool>
    decreases messages.len(),
{
    if messages.len() == 0 {
        None
    } else {
        match transition_of(messages.last().0, messages.last().1) {
            Some((changed, down)) => if changed == slot {
                Some(down)
            } else {
                last_transition(messages.drop_last(), slot)
            },
            None => last_transition(messages.drop_last(), slot),
        }
    }
}

/// After any run of messages each slot holds what the last message about it
/// said, and what it held at the start if no message was about it: the last
/// event wins, slot by slot.
pub proof fn lemma_last_message_wins(state: Seq<bool>, messages: Seq<(u32, u32)>, slot: int)
    requires
        state.len() == 5,
        0 <= slot < 5,
    ensures
        after_mouse_messages(state, messages).len() == 5,
        after_mouse_messages(state, messages)[slot] == (match last_transition(messages, slot) {
            Some(down) => down,
            None => state[slot],
        }),
    decreases messages.len(),
{
    if messages.len() > 0 {
        lemma_last_message_wins(state, messages.drop_last(), slot);
    }
}

} // verus!

//! The set of keys currently held, kept in an [`IndexSet`] in the order in
//! which the keys went down.

use crate::codes::{
    VK_E, VK_LCONTROL, VK_LMENU, VK_LSHIFT, VK_Q, WM_KEYDOWN, WM_KEYUP, WM_SYSKEYDOWN, WM_SYSKEYUP,
};
use crate::combination::{modifier_priority, of_rank, ranks_ascend};
use indexmap::IndexSet;
use vstd::prelude::*;

verus! {

/// `indexmap::IndexSet`: a value of it is carried through as it is; what it
/// holds is known only through [`held_keys`].
#[verifier::external_type_specification]
#[verifier::external_body]
#[verifier::reject_recursive_types(T)]
#[verifier::reject_recursive_types(S)]
pub struct ExIndexSet<T, S>(IndexSet<T, S>);

/// The key codes that a set holds, in the set's own order.
pub uninterp spec fn held_keys(keys: IndexSet<u32>) -> Seq<u32>;

/// The held keys after `vk` went down: a key that is already held keeps its
/// place, a new one goes to the end.
pub open spec fn with_key(held: Seq<u32>, vk: u32) -> Seq<u32> {
    if held.contains(vk) {
        held
    } else {
        held.push(vk)
    }
}

/// The held keys after `vk` went up: `vk` is taken out, and the keys that
/// stay held keep their order. Without `vk` nothing changes.
pub open spec fn without_key(held: Seq<u32>, vk: u32) -> Seq<u32> {
    if held.contains(vk) {
        held.remove(held.index_of(vk))
    } else {
        held
    }
}

/// `IndexSet::new`: a set that holds nothing.
#[verifier::external_body]
pub(crate) fn empty_key_set() -> (keys: IndexSet<u32>)
    ensures
        held_keys(keys) == Seq::<u32>::empty(),
{
    IndexSet::new()
}

/// `IndexSet::len`: the number of values in the set.
#[verifier::external_body]
pub(crate) fn key_count(keys: &IndexSet<u32>) -> (n: usize)
    ensures
        n == held_keys(*keys).len(),
{
    keys.len()
}

/// `IndexSet::contains`: whether the set holds the value.
#[verifier::external_body]
pub(crate) fn holds_key(keys: &IndexSet<u32>, vk: u32) -> (held: bool)
    ensures
        held == held_keys(*keys).contains(vk),
{
    keys.contains(&vk)
}

/// `IndexSet::insert`: a value that the set lacks is added behind all
/// others and `true` is returned; one that it holds leaves the set and its
/// order as they are, with `false`. A set never holds a value twice.
#[verifier::external_body]
pub(crate) fn insert_key(keys: &mut IndexSet<u32>, vk: u32) -> (added: bool)
    ensures
        added == !held_keys(*old(keys)).contains(vk),
        held_keys(*final(keys)) == with_key(held_keys(*old(keys)), vk),
        held_keys(*final(keys)).no_duplicates(),
{
    keys.insert(vk)
}

/// `IndexSet::shift_remove`: a value that the set holds is removed, the
/// values behind it each move one place forward, in their order, and `true`
/// is returned; without it the set stays as it is, with `false`. Afterwards
/// the set does not hold the value, and it never holds a value twice.
#[verifier::external_body]
pub(crate) fn shift_remove_key(keys: &mut IndexSet<u32>, vk: u32) -> (removed: bool)
    ensures
        removed == held_keys(*old(keys)).contains(vk),
        held_keys(*final(keys)) == without_key(held_keys(*old(keys)), vk),
        !held_keys(*final(keys)).contains(vk),
        held_keys(*final(keys)).no_duplicates(),
{
    keys.shift_remove(&vk)
}

/// `IndexSet::clone`: a set with the same values in the same order.
#[verifier::external_body]
pub(crate) fn clone_key_set(keys: &IndexSet<u32>) -> (copy: IndexSet<u32>)
    ensures
        held_keys(copy) == held_keys(*keys),
{
    keys.clone()
}

/// `IndexSet::iter`: the values in the set's order.
#[verifier::external_body]
pub(crate) fn keys_in_order(keys: &IndexSet<u32>) -> (codes: Vec<u32>)
    ensures
        codes@ == held_keys(*keys),
{
    keys.iter().copied().collect()
}

/// `IndexSet::sort_by_key`, with the rank of a key in a combination's label
/// as the sort key: afterwards no value stands before one of lower rank,
/// and, the sort being stable, the values of each rank are in the order in
/// which they were before.
#[verifier::external_body]
pub(crate) fn sort_by_priority(keys: &mut IndexSet<u32>)
    ensures
        ranks_ascend(held_keys(*final(keys))),
        forall|rank: u16| #[trigger]
            of_rank(held_keys(*final(keys)), rank) == of_rank(held_keys(*old(keys)), rank),
{
    keys.sort_by_key(|&vk| modifier_priority(vk));
}

/// A key that went down is held, and every key held before still is.
pub proof fn lemma_with_key_holds(held: Seq<u32>, vk: u32)
    ensures
        with_key(held, vk).contains(vk),
        forall|other: u32| held.contains(other) ==> with_key(held, vk).contains(other),
        forall|other: u32|
            with_key(held, vk).contains(other) ==> other == vk || held.contains(other),
{
    let after = with_key(held, vk);
    if !held.contains(vk) {
        assert(after[held.len() as int] == vk);
        assert forall|other: u32| held.contains(other) implies after.contains(other) by {
            let i = held.index_of(other);
            assert(after[i] == other);
        }
    }
}

/// Which way a key moved.
#[derive(Clone, Copy, Debug, PartialEq, Eq, Structural)]
pub enum KeyDirection {
    Down,
    Up,
}

/// The direction that a keyboard message kind stands for, if it is one of
/// the four kinds that report a key going down or up.
pub open spec fn direction_of(msg: u32) -> Option<KeyDirection> {
    if msg == WM_KEYDOWN || msg == WM_SYSKEYDOWN {
        Some(KeyDirection::Down)
    } else if msg == WM_KEYUP || msg == WM_SYSKEYUP {
        Some(KeyDirection::Up)
    } else {
        None
    }
}

/// The held keys after one key event.
pub open spec fn after_event(held: Seq<u32>, vk: u32, direction: KeyDirection) -> Seq<u32> {
    match direction {
        KeyDirection::Down => with_key(held, vk),
        KeyDirection::Up => without_key(held, vk),
    }
}

/// The held keys after a keyboard message of any kind: kinds that report no
/// key movement change nothing.
pub open spec fn after_message(held: Seq<u32>, vk: u32, msg: u32) -> Seq<u32> {
    match direction_of(msg) {
        Some(direction) => after_event(held, vk, direction),
        None => held,
    }
}

/// Decodes a keyboard message kind.
pub fn key_direction(msg: u32) -> (direction: Option<KeyDirection>)
    ensures
        direction == direction_of(msg),
{
    if msg == WM_KEYDOWN || msg == WM_SYSKEYDOWN {
        Some(KeyDirection::Down)
    } else if msg == WM_KEYUP || msg == WM_SYSKEYUP {
        Some(KeyDirection::Up)
    } else {
        None
    }
}

/// Records one key event in the set of held keys.
pub fn apply_key_event(keys: &mut IndexSet<u32>, vk: u32, direction: KeyDirection)
    ensures
        held_keys(*final(keys)) == after_event(held_keys(*old(keys)), vk, direction),
        held_keys(*final(keys)).contains(vk) <==> direction == KeyDirection::Down,
        held_keys(*final(keys)).no_duplicates(),
{
    match direction {
        KeyDirection::Down => {
            insert_key(keys, vk);
            proof {
                lemma_with_key_holds(held_keys(*old(keys)), vk);
            }
        },
        KeyDirection::Up => {
            shift_remove_key(keys, vk);
        },
    }
}

/// Records a keyboard message in the set of held keys. This is all that the
/// keyboard hook's handler does between taking and releasing the lock.
pub fn handle_key_message(keys: &mut IndexSet<u32>, vk: u32, msg: u32)
    ensures
        held_keys(*final(keys)) == after_message(held_keys(*old(keys)), vk, msg),
        direction_of(msg) == Some(KeyDirection::Down) ==> held_keys(*final(keys)).contains(vk),
        direction_of(msg) == Some(KeyDirection::Up) ==> !held_keys(*final(keys)).contains(vk),
        direction_of(msg).is_some() ==> held_keys(*final(keys)).no_duplicates(),
{
    match key_direction(msg) {
        Some(direction) => apply_key_event(keys, vk, direction),
        None => {},
    }
}

/// Whether all five keys of the chord that leaves overlay mode are held.
pub open spec fn holds_disable_chord(held: Seq<u32>) -> bool {
    &&& held.contains(VK_LCONTROL)
    &&& held.contains(VK_LSHIFT)
    &&& held.contains(VK_LMENU)
    &&& held.contains(VK_Q)
    &&& held.contains(VK_E)
}

/// Whether the chord that leaves overlay mode (left Ctrl, left Shift, left
/// Alt, Q and E) is held. Other keys held with it do not matter.
pub fn is_disable_overlay_key_pressed(pressed_keys: &IndexSet<u32>) -> (pressed: bool)
    ensures
        pressed == holds_disable_chord(held_keys(*pressed_keys)),
{
    holds_key(pressed_keys, VK_LCONTROL) && holds_key(pressed_keys, VK_LSHIFT) && holds_key(
        pressed_keys,
        VK_LMENU,
    ) && holds_key(pressed_keys, VK_Q) && holds_key(pressed_keys, VK_E)
}

} // verus!

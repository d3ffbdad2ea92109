//! What holds of the held keys whatever the order of the key events.

use crate::codes::{VK_E, VK_LCONTROL, VK_LMENU, VK_LSHIFT, VK_Q};
use crate::key_set::{
    after_event, holds_disable_chord, lemma_with_key_holds, with_key, without_key, KeyDirection,
};
use vstd::prelude::*;

verus! {

/// A key that goes down while it is held changes nothing: the set has the
/// size it had, and every key the place it had.
pub proof fn lemma_second_press_changes_nothing(held: Seq<u32>, vk: u32)
    ensures
        with_key(with_key(held, vk), vk) == with_key(held, vk),
        held.contains(vk) ==> with_key(held, vk) == held,
{
    lemma_with_key_holds(held, vk);
}

/// A key that goes down leaves every key that was held where it was.
pub proof fn lemma_press_keeps_places(held: Seq<u32>, vk: u32)
    ensures
        held.len() <= with_key(held, vk).len() <= held.len() + 1,
        forall|i: int| 0 <= i < held.len() ==> with_key(held, vk)[i] == held[i],
        held.no_duplicates() ==> with_key(held, vk).no_duplicates(),
{
}

/// A key that goes up is held no more, all other keys are held as before
/// and in the order in which they were, and no key is held twice.
pub proof fn lemma_release_drops_one_key(held: Seq<u32>, vk: u32)
    requires
        held.no_duplicates(),
    ensures
        !without_key(held, vk).contains(vk),
        forall|other: u32|
            other != vk ==> (without_key(held, vk).contains(other) <==> held.contains(other)),
        without_key(held, vk).no_duplicates(),
        held.contains(vk) ==> without_key(held, vk).len() == held.len() - 1,
        forall|first: u32, second: u32|
            first != vk && second != vk && stands_before(held, first, second) ==> stands_before(
                without_key(held, vk),
                first,
                second,
            ),
{
    let after = without_key(held, vk);
    if held.contains(vk) {
        let i = held.index_of(vk);
        assert forall|j: int| 0 <= j < after.len() implies after[j] == (if j < i {
            held[j]
        } else {
            held[j + 1]
        }) by {}
        assert forall|other: u32| other != vk && held.contains(other) implies after.contains(
            other,
        ) by {
            let j = held.index_of(other);
            if j < i {
                assert(after[j] == other);
            } else {
                assert(after[j - 1] == other);
            }
        }
        assert forall|first: u32, second: u32|
            first != vk && second != vk && stands_before(
                held,
                first,
                second,
            ) implies stands_before(after, first, second) by {
            let (m, n) = choose|m: int, n: int|
                0 <= m < n < held.len() && held[m] == first && held[n] == second;
            let m_after = if m < i {
                m
            } else {
                m - 1
            };
            let n_after = if n < i {
                n
            } else {
                n - 1
            };
            assert(after[m_after] == first && after[n_after] == second);
        }
    }
}

/// Whether `first` stands somewhere before `second` in the sequence.
pub open spec fn stands_before(held: Seq<u32>, first: u32, second: u32) -> bool {
    exists|m: int, n: int| 0 <= m < n < held.len() && held[m] == first && held[n] == second
}

/// The held keys after a run of events on one key.
pub open spec fn after_events(held: Seq<u32>, vk: u32, events: Seq<KeyDirection>) -> Seq<u32>
    decreases events.len(),
{
    if events.len() == 0 {
        held
    } else {
        after_event(after_events(held, vk, events.drop_last()), vk, events.last())
    }
}

/// By how many the presses in a run of events exceed the releases, where a
/// release that answers no press is not counted.
pub open spec fn presses_outstanding(events: Seq<KeyDirection>) -> nat
    decreases events.len(),
{
    if events.len() == 0 {
        0
    } else {
        let before = presses_outstanding(events.drop_last());
        match events.last() {
            KeyDirection::Down => before + 1,
            KeyDirection::Up => if before > 0 {
                (before - 1) as nat
            } else {
                0
            },
        }
    }
}

/// After any run of events on one key, the key is held if and only if the
/// last event was a press; with no event at all it is held as before. No
/// key is ever held twice.
pub proof fn lemma_held_iff_last_event_is_press(
    held: Seq<u32>,
    vk: u32,
    events: Seq<KeyDirection>,
)
    requires
        held.no_duplicates(),
    ensures
        after_events(held, vk, events).no_duplicates(),
        events.len() > 0 ==> (after_events(held, vk, events).contains(vk) <==> events.last()
            == KeyDirection::Down),
        events.len() > 0 && events.last() == KeyDirection::Down ==> presses_outstanding(events)
            > 0,
    decreases events.len(),
{
    if events.len() > 0 {
        let before = after_events(held, vk, events.drop_last());
        lemma_held_iff_last_event_is_press(held, vk, events.drop_last());
        lemma_with_key_holds(before, vk);
        lemma_press_keeps_places(before, vk);
        lemma_release_drops_one_key(before, vk);
    }
}

/// After a run of events on a key that was not held, the key is held if and
/// only if its presses exceed its releases, releases that answer no press
/// not counted. This does not hold of a run that ends in a release and
/// still has presses outstanding, where the key went down again while it
/// was held: one release lets go of the key however often it went down.
pub proof fn lemma_held_iff_presses_outstanding(
    held: Seq<u32>,
    vk: u32,
    events: Seq<KeyDirection>,
)
    requires
        held.no_duplicates(),
        !held.contains(vk),
        events.len() > 0 && events.last() == KeyDirection::Up ==> presses_outstanding(events)
            == 0,
    ensures
        after_events(held, vk, events).contains(vk) <==> presses_outstanding(events) > 0,
{
    lemma_held_iff_last_event_is_press(held, vk, events);
}

/// Whether a code is one of the five keys of the chord that leaves overlay
/// mode.
pub open spec fn in_disable_chord(vk: u32) -> bool {
    vk == VK_LCONTROL || vk == VK_LSHIFT || vk == VK_LMENU || vk == VK_Q || vk == VK_E
}

/// The held keys after each key of `presses` went down, in that order.
pub open spec fn after_presses(held: Seq<u32>, presses: Seq<u32>) -> Seq<u32>
    decreases presses.len(),
{
    if presses.len() == 0 {
        held
    } else {
        with_key(after_presses(held, presses.drop_last()), presses.last())
    }
}

/// Pressing keys adds them to what was held and takes nothing away.
pub proof fn lemma_after_presses_holds(held: Seq<u32>, presses: Seq<u32>)
    ensures
        forall|vk: u32|
            after_presses(held, presses).contains(vk) <==> held.contains(vk) || presses.contains(
                vk,
            ),
    decreases presses.len(),
{
    if presses.len() > 0 {
        let before = after_presses(held, presses.drop_last());
        lemma_after_presses_holds(held, presses.drop_last());
        lemma_with_key_holds(before, presses.last());
        assert forall|vk: u32|
            after_presses(held, presses).contains(vk) <==> held.contains(vk) || presses.contains(
                vk,
            ) by {
            if presses.contains(vk) {
                let i = presses.index_of(vk);
                if i < presses.len() - 1 {
                    assert(presses.drop_last()[i] == vk);
                }
            }
            if presses.drop_last().contains(vk) {
                let i = presses.drop_last().index_of(vk);
                assert(presses[i] == vk);
            }
        }
    }
}

/// Once the five keys of the chord have gone down, in whatever order and
/// among whatever other keys, the chord is held; and letting go of any one
/// of the five ends it.
pub proof fn lemma_chord_held_until_one_key_goes(held: Seq<u32>, presses: Seq<u32>, gone: u32)
    requires
        held.no_duplicates(),
        presses.contains(VK_LCONTROL),
        presses.contains(VK_LSHIFT),
        presses.contains(VK_LMENU),
        presses.contains(VK_Q),
        presses.contains(VK_E),
        in_disable_chord(gone),
    ensures
        holds_disable_chord(after_presses(held, presses)),
        !holds_disable_chord(without_key(after_presses(held, presses), gone)),
{
    lemma_after_presses_holds(held, presses);
    lemma_after_presses_keep_set(held, presses);
    lemma_release_drops_one_key(after_presses(held, presses), gone);
}

/// Pressing keys never makes a set hold a key twice.
pub proof fn lemma_after_presses_keep_set(held: Seq<u32>, presses: Seq<u32>)
    requires
        held.no_duplicates(),
    ensures
        after_presses(held, presses).no_duplicates(),
    decreases presses.len(),
{
    if presses.len() > 0 {
        lemma_after_presses_keep_set(held, presses.drop_last());
        lemma_press_keeps_places(after_presses(held, presses.drop_last()), presses.last());
    }
}

} // verus!

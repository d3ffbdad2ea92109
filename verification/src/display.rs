//! What the overlay shows: the combination last displayed, refreshed from
//! the live key set once per frame, and the opacity with which it fades.

use crate::combination::{
    canonical_order, joined, key_combination_to_string, may_label_combination,
};
use crate::key_set::{
    clone_key_set, empty_key_set, held_keys, holds_disable_chord, is_disable_overlay_key_pressed,
    key_count,
};
use crate::label::named_label;
use indexmap::IndexSet;
use vstd::prelude::*;

verus! {

/// The display state of the render loop.
pub struct DisplayState {
    /// The combination on display: a copy of the live set, taken when the
    /// chord last began or grew.
    pub last_combination: IndexSet<u32>,
    /// Whether the live set was empty at the previous frame.
    pub is_key_cleared: bool,
    /// Whether the window is in click-through overlay mode.
    pub is_overlay: bool,
}

/// The display state as plain values.
pub struct DisplayModel {
    pub snapshot: Seq<u32>,
    pub cleared: bool,
    pub overlay: bool,
}

/// What the render loop has to do after a frame's refresh.
#[derive(Clone, Copy, Debug, PartialEq, Eq, Structural)]
pub struct FrameOutcome {
    /// The snapshot was taken anew: the fade starts over.
    pub refreshed: bool,
    /// The chord that leaves overlay mode was in the new snapshot: the
    /// window has to take pointer input again.
    pub leave_overlay: bool,
}

impl View for DisplayState {
    type V = DisplayModel;

    open spec fn view(&self) -> DisplayModel {
        DisplayModel {
            snapshot: held_keys(self.last_combination),
            cleared: self.is_key_cleared,
            overlay: self.is_overlay,
        }
    }
}

/// Whether a frame that sees `live` takes a new snapshot: the live set holds
/// a key, and it either holds more keys than the snapshot or follows a frame
/// that saw no key held.
pub open spec fn refreshes(state: DisplayModel, live: Seq<u32>) -> bool {
    live.len() > 0 && (live.len() > state.snapshot.len() || state.cleared)
}

/// The display state after a frame that sees `live`.
pub open spec fn after_frame(state: DisplayModel, live: Seq<u32>) -> DisplayModel {
    DisplayModel {
        snapshot: if refreshes(state, live) {
            live
        } else {
            state.snapshot
        },
        cleared: live.len() == 0,
        overlay: state.overlay && !(refreshes(state, live) && holds_disable_chord(live)),
    }
}

/// The display state after a run of frames, each seeing one live set.
pub open spec fn after_frames(state: DisplayModel, frames: Seq<Seq<u32>>) -> DisplayModel
    decreases frames.len(),
{
    if frames.len() == 0 {
        state
    } else {
        after_frame(after_frames(state, frames.drop_last()), frames.last())
    }
}

impl DisplayState {
    /// The state at start: nothing on display, not in overlay mode.
    pub fn new() -> (state: DisplayState)
        ensures
            state@.snapshot == Seq::<u32>::empty(),
            !state@.cleared,
            !state@.overlay,
    {
        DisplayState { last_combination: empty_key_set(), is_key_cleared: false, is_overlay: false }
    }

    /// One frame's refresh from the live key set.
    pub fn observe(&mut self, pressed_keys: &IndexSet<u32>) -> (outcome: FrameOutcome)
        ensures
            final(self)@ == after_frame(old(self)@, held_keys(*pressed_keys)),
            outcome.refreshed == refreshes(old(self)@, held_keys(*pressed_keys)),
            outcome.leave_overlay == (outcome.refreshed && holds_disable_chord(
                held_keys(*pressed_keys),
            )),
    {
        let mut outcome = FrameOutcome { refreshed: false, leave_overlay: false };
        let live: usize = key_count(pressed_keys);
        if live == 0 {
            self.is_key_cleared = true;
        } else {
            if live > key_count(&self.last_combination) || self.is_key_cleared {
                self.last_combination = clone_key_set(pressed_keys);
                outcome.refreshed = true;
                if is_disable_overlay_key_pressed(pressed_keys) {
                    self.is_overlay = false;
                    outcome.leave_overlay = true;
                }
            }
            self.is_key_cleared = false;
        }
        outcome
    }

    /// The label of the combination on display, which is empty where nothing
    /// is on display. The snapshot is put into canonical order on the way;
    /// it holds the keys that it held.
    pub fn current_combination_label<F: Fn(u32) -> Vec<u16>>(&mut self, layout: F) -> (text:
        String)
        requires
            forall|vk: u32| named_label(vk).is_none() ==> call_requires(layout, (vk,)),
        ensures
            final(self)@ == (DisplayModel {
                snapshot: canonical_order(old(self)@.snapshot),
                ..old(self)@
            }),
            may_label_combination(layout, final(self)@.snapshot, text@),
            old(self)@.snapshot.len() == 0 ==> text@.len() == 0,
    {
        if key_count(&self.last_combination) == 0 {
            let text = String::new();
            proof {
                let none = Seq::<Seq<char>>::empty();
                assert(canonical_order(self@.snapshot) =~= self@.snapshot);
                assert(text@ == joined(none, " + "@));
                assert(none.len() == self@.snapshot.len());
            }
            text
        } else {
            key_combination_to_string(&mut self.last_combination, layout)
        }
    }

    /// Enters click-through overlay mode.
    pub fn enter_overlay(&mut self)
        ensures
            final(self)@ == (DisplayModel { overlay: true, ..old(self)@ }),
    {
        self.is_overlay = true;
    }
}

/// Milliseconds for which a new combination is shown at full opacity.
pub const FADE_START_MS: u128 = 2000;

/// Milliseconds after which a combination has faded out.
pub const FADE_END_MS: u128 = 3000;

/// The opacity, from 0 to 255, of a combination that has been on display for
/// `elapsed_ms` milliseconds: full until the fade starts, then falling in a
/// straight line to nothing at the end of the fade.
pub open spec fn opacity_at(elapsed_ms: int) -> int {
    if elapsed_ms <= FADE_START_MS {
        255
    } else if elapsed_ms >= FADE_END_MS {
        0
    } else {
        255 * (FADE_END_MS - elapsed_ms) / 1000
    }
}

/// The opacity of the combination on display.
pub fn fade_alpha(elapsed_ms: u128) -> (alpha: u8)
    ensures
        alpha == opacity_at(elapsed_ms as int),
{
    if elapsed_ms <= FADE_START_MS {
        255
    } else if elapsed_ms >= FADE_END_MS {
        0
    } else {
        let remaining: u128 = FADE_END_MS - elapsed_ms;
        (255 * remaining / 1000) as u8
    }
}

/// Opacity never rises while a combination stays on display, and it is
/// nothing from the end of the fade on.
pub proof fn lemma_opacity_never_rises(earlier_ms: int, later_ms: int)
    requires
        0 <= earlier_ms <= later_ms,
    ensures
        0 <= opacity_at(later_ms) <= opacity_at(earlier_ms) <= 255,
        later_ms >= FADE_END_MS ==> opacity_at(later_ms) == 0,
{
}

/// Inside the fade, opacity falls strictly from one instant to another that
/// is at least four milliseconds later, and from any instant before the fade
/// to any instant inside it.
pub proof fn lemma_opacity_falls_during_fade(earlier_ms: int, later_ms: int)
    requires
        0 <= earlier_ms < later_ms <= FADE_END_MS,
        FADE_START_MS < later_ms,
        earlier_ms <= FADE_START_MS || earlier_ms + 4 <= later_ms,
    ensures
        opacity_at(later_ms) < opacity_at(earlier_ms),
{
}

/// A frame leaves the combination on display as it is unless the live set
/// holds a key and either has outgrown the snapshot or follows an empty
/// frame; how long the combination has been shown plays no part.
pub proof fn lemma_snapshot_persists(state: DisplayModel, live: Seq<u32>)
    requires
        live.len() == 0 || (live.len() <= state.snapshot.len() && !state.cleared),
    ensures
        after_frame(state, live).snapshot == state.snapshot,
{
}

/// While keys of a chord are let go one by one, the chord stays on display:
/// through any run of frames that each see a key held, but never more keys
/// than are on display, the snapshot is what it was.
pub proof fn lemma_release_keeps_display(state: DisplayModel, frames: Seq<Seq<u32>>)
    requires
        !state.cleared,
        forall|f: int|
            0 <= f < frames.len() ==> 0 < (#[trigger] frames[f]).len() <= state.snapshot.len(),
    ensures
        after_frames(state, frames).snapshot == state.snapshot,
        !after_frames(state, frames).cleared,
    decreases frames.len(),
{
    if frames.len() > 0 {
        let earlier = frames.drop_last();
        assert forall|f: int| 0 <= f < earlier.len() implies 0 < (#[trigger] earlier[f]).len()
            <= state.snapshot.len() by {
            assert(earlier[f] == frames[f]);
        }
        lemma_release_keeps_display(state, earlier);
        assert(0 < frames[frames.len() - 1].len() <= state.snapshot.len());
    }
}

/// Once every key is up, the next frame that sees a key held begins a new
/// chord: the live set goes on display whatever was there.
pub proof fn lemma_new_chord_after_empty_frame(state: DisplayModel, live: Seq<u32>)
    requires
        live.len() > 0,
    ensures
        after_frame(after_frame(state, Seq::empty()), live).snapshot == live,
        after_frame(state, Seq::empty()).snapshot == state.snapshot,
{
}

/// A chord that grows goes on display at once.
pub proof fn lemma_growing_chord_is_displayed(state: DisplayModel, live: Seq<u32>)
    requires
        live.len() > state.snapshot.len(),
    ensures
        after_frame(state, live).snapshot == live,
        refreshes(state, live),
{
}

} // verus!

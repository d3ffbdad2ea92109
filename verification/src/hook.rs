//! What a low-level input hook does with a notification: it looks at the
//! ones that carry an event, and hands every one on.

use vstd::prelude::*;

verus! {

/// The code of a notification that carries an input event.
pub const HC_ACTION: i32 = 0;

/// What the hook procedure does with one notification.
#[derive(Clone, Copy, Debug, PartialEq, Eq, Structural)]
pub struct HookStep {
    /// The notification carries an event, which goes to the handler.
    pub deliver: bool,
    /// The notification goes on to the next hook in the chain.
    pub forward: bool,
}

/// The step for a notification with the given code. The hook only watches:
/// whatever the code, the notification is handed on.
pub fn hook_step(n_code: i32) -> (step: HookStep)
    ensures
        step.deliver == (n_code == HC_ACTION),
        step.forward,
{
    HookStep { deliver: n_code == HC_ACTION, forward: true }
}

} // verus!

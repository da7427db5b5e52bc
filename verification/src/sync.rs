//! When the client sends its position to the server.

use vstd::prelude::*;

verus! {

/// Whether to send the position this frame, and whether the player counts as
/// airborne for the next frame.
#[derive(Clone, Copy, Debug, PartialEq, Eq, Structural)]
pub struct SyncDecision {
    pub send: bool,
    pub was_airborne: bool,
}

/// Decides a position sync. While airborne the position goes out once the
/// sync interval has passed; on the ground it goes out when the player has
/// just landed or has moved.
pub fn position_sync_decision(
    grounded: bool,
    was_airborne: bool,
    moved: bool,
    interval_elapsed: bool,
) -> (d: SyncDecision)
    ensures
        d.was_airborne == !grounded,
        d.send == (if !grounded {
            interval_elapsed
        } else {
            was_airborne || moved
        }),
{
    let airborne = !grounded;
    let landed = grounded && was_airborne;
    let send = if airborne && !landed {
        interval_elapsed
    } else {
        landed || moved
    };
    SyncDecision { send, was_airborne: airborne }
}

} // verus!

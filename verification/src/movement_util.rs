//! Movement rate limiting: an entity may act only when its minimum delay has
//! elapsed since its last move. Time is a millisecond count supplied by the
//! caller; a clock that went backwards counts as no time elapsed.

use vstd::prelude::*;

use crate::components::MovementSpeed;

verus! {

/// Whether the limiter lets the entity act at `now_ms`.
pub open spec fn move_allowed(speed: MovementSpeed, now_ms: u64) -> bool {
    match speed.last_move_time {
        None => true,
        Some(last) => (if now_ms >= last {
            now_ms - last
        } else {
            0
        }) >= speed.min_delay_ms,
    }
}

/// Gates one action: allows it exactly when the minimum delay has elapsed
/// since the last recorded move, recording the new time on success and
/// leaving the limiter untouched on denial.
pub fn can_move(movement_speed: &mut MovementSpeed, now_ms: u64) -> (allowed: bool)
    ensures
        allowed == move_allowed(*old(movement_speed), now_ms),
        allowed ==> *final(movement_speed) == (MovementSpeed {
            last_move_time: Some(now_ms),
            ..*old(movement_speed)
        }),
        !allowed ==> *final(movement_speed) == *old(movement_speed),
{
    match movement_speed.last_move_time {
        Some(last) => {
            let elapsed: u64 = if now_ms >= last {
                now_ms - last
            } else {
                0
            };
            if elapsed < movement_speed.min_delay_ms {
                return false;
            }
        },
        None => {},
    }
    movement_speed.last_move_time = Some(now_ms);
    true
}

} // verus!

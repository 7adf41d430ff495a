//! The shapes the desktop front end exchanges with the simulation, and the
//! play-speed limits it enforces.

pub mod ipc_types;
pub mod messages;
pub mod session;

use vstd::prelude::*;

verus! {

/// Lower bound on the play loop's generations per second.
pub const MIN_GPS: u16 = 1;

/// Upper bound on the play loop's generations per second.
pub const MAX_GPS: u16 = 240;

/// Clamps a requested generations-per-second value into the supported range.
pub fn clamp_gps(raw: u16) -> (r: u16)
    ensures
        r == if raw < MIN_GPS {
            MIN_GPS
        } else if raw > MAX_GPS {
            MAX_GPS
        } else {
            raw
        },
{
    if raw < MIN_GPS {
        MIN_GPS
    } else if raw > MAX_GPS {
        MAX_GPS
    } else {
        raw
    }
}

} // verus!

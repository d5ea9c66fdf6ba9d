//! The landing rule: what a frame's ground contact means for the ship.

use vstd::prelude::*;

verus! {

/// Result of checking the ship against the ground for one frame.
#[derive(Clone, Copy, Debug, PartialEq, Eq, Structural)]
pub enum ContactOutcome {
    /// Still flying (no ground crossing this frame).
    Flying,
    /// Safe landing on a pad.
    Landed,
    /// Crash.
    Crashed,
}

/// The measurements of a frame's contact, as truth values.
pub struct ContactCheck {
    /// The feet are below the view or below the terrain mesh.
    pub fell_out: bool,
    /// The feet or the hull are deep below the surface under them.
    pub tunneled: bool,
    /// The feet or the hull crossed the surface this frame.
    pub crossing: bool,
    /// Both feet are on the same landing pad.
    pub on_pad: bool,
    /// The ground under the two feet is level within tolerance.
    pub level: bool,
    /// Vertical and horizontal speeds are within the safe limits.
    pub slow_enough: bool,
}

/// Falling out or tunneling is always a crash; otherwise a ground crossing is a safe
/// landing exactly when both feet are on one pad, the ground is level and the ship is
/// slow enough, and a crash in every other case.
pub open spec fn contact_rule(c: ContactCheck) -> ContactOutcome {
    if c.fell_out || c.tunneled {
        ContactOutcome::Crashed
    } else if !c.crossing {
        ContactOutcome::Flying
    } else if c.on_pad && c.level && c.slow_enough {
        ContactOutcome::Landed
    } else {
        ContactOutcome::Crashed
    }
}

pub fn contact_outcome(c: &ContactCheck) -> (r: ContactOutcome)
    ensures
        r == contact_rule(*c),
        r == ContactOutcome::Landed ==> c.on_pad && c.level && c.slow_enough,
        c.fell_out || c.tunneled ==> r == ContactOutcome::Crashed,
        !c.fell_out && !c.tunneled && !c.crossing ==> r == ContactOutcome::Flying,
        !c.fell_out && !c.tunneled && c.crossing ==> r != ContactOutcome::Flying && (r
            == ContactOutcome::Landed <==> c.on_pad && c.level && c.slow_enough),
{
    if c.fell_out {
        return ContactOutcome::Crashed;
    }
    if c.tunneled {
        return ContactOutcome::Crashed;
    }
    if !c.crossing {
        return ContactOutcome::Flying;
    }
    if c.on_pad && c.level {
        if c.slow_enough {
            ContactOutcome::Landed
        } else {
            ContactOutcome::Crashed
        }
    } else {
        ContactOutcome::Crashed
    }
}

/// The landing rule: falling out or tunneling crashes; without a crossing the ship flies
/// on; once the feet or hull cross the surface the ship is never still flying, and it has
/// landed safely exactly when both feet are on one pad, the ground is level and the
/// speeds are safe, having crashed in every other case.
pub proof fn law_landing_rule(c: ContactCheck)
    ensures
        c.fell_out || c.tunneled ==> contact_rule(c) == ContactOutcome::Crashed,
        !c.fell_out && !c.tunneled && !c.crossing ==> contact_rule(c) == ContactOutcome::Flying,
        !c.fell_out && !c.tunneled && c.crossing ==> contact_rule(c) != ContactOutcome::Flying,
        !c.fell_out && !c.tunneled && c.crossing ==> (contact_rule(c) == ContactOutcome::Landed
            <==> c.on_pad && c.level && c.slow_enough),
        contact_rule(c) == ContactOutcome::Landed ==> c.crossing && c.on_pad && c.level
            && c.slow_enough && !c.fell_out && !c.tunneled,
{
}

} // verus!

//! The push state machine.
//!
//! An interaction event targeting a push-capable body sets a constant
//! push velocity when the interactor and the target sit on the same
//! integer grid row or column; diagonal displacements are ignored. The
//! velocity moves the body each tick until the movement resolver
//! rejects the whole displacement, at which point the push clears
//! itself.

use vstd::prelude::*;

use crate::math::Vec2I;
use crate::math::Vec3I;
use crate::math::POS_LIMIT;
use crate::math::DT_LIMIT_MS;

verus! {

/// The fixed push speed: one world unit (1000 milli-units) per second.
pub const PUSH_SPEED: i64 = 1000;

/// Push marker and velocity, present on a body only while it is being
/// pushed; the velocity is consumed by the movement resolver.
#[derive(Clone, Copy, Debug, PartialEq, Eq, Structural)]
pub struct WolfPush {
    pub vel: Vec2I,
}

/// A push velocity is an axis-aligned unit vector scaled by the push
/// speed, or zero while idle.
pub open spec fn push_vel_wf(v: Vec2I) -> bool {
    ||| v == (Vec2I { x: 0, y: 0 })
    ||| v == (Vec2I { x: PUSH_SPEED as int as i64, y: 0 })
    ||| v == (Vec2I { x: (-PUSH_SPEED) as i64, y: 0 })
    ||| v == (Vec2I { x: 0, y: PUSH_SPEED as int as i64 })
    ||| v == (Vec2I { x: 0, y: (-PUSH_SPEED) as i64 })
}

/// The integer grid cell of a milli-unit coordinate: truncation toward
/// zero, one cell per world unit.
pub open spec fn cell_of(x: int) -> int {
    if x >= 0 {
        x / 1000
    } else {
        -((-x) / 1000)
    }
}

/// What an interaction event sets as push velocity: the cell
/// displacement from interactor to target must lie on exactly one
/// axis; the velocity is the unit vector along that axis pointing away
/// from the interactor, scaled by the push speed.
pub open spec fn push_trigger_spec(interactor: Vec3I, target: Vec3I) -> Option<Vec2I> {
    let vx = cell_of(target.x as int) - cell_of(interactor.x as int);
    let vy = cell_of(target.y as int) - cell_of(interactor.y as int);
    if vx != 0 && vy == 0 {
        Some(
            Vec2I {
                x: if vx > 0 {
                    PUSH_SPEED as int as i64
                } else {
                    (-PUSH_SPEED) as i64
                },
                y: 0,
            },
        )
    } else if vx == 0 && vy != 0 {
        Some(
            Vec2I {
                x: 0,
                y: if vy > 0 {
                    PUSH_SPEED as int as i64
                } else {
                    (-PUSH_SPEED) as i64
                },
            },
        )
    } else {
        None
    }
}

/// What one tick of pushing adds to a coordinate: the velocity is a
/// whole axis unit per second, so `dt` milliseconds move `dt`
/// milli-units along that axis.
pub open spec fn axis_step(v: int, dt: u64) -> int {
    if v > 0 {
        dt as int
    } else if v < 0 {
        -(dt as int)
    } else {
        0
    }
}

/// The position a push moves a body to in one tick.
pub open spec fn push_apply_spec(pos: Vec3I, vel: Vec2I, dt: u64) -> Vec3I {
    Vec3I {
        x: (pos.x + axis_step(vel.x as int, dt)) as i64,
        y: (pos.y + axis_step(vel.y as int, dt)) as i64,
        z: pos.z,
    }
}

/// The integer grid cell of a coordinate.
fn cell_exec(x: i64) -> (r: i64)
    requires
        -POS_LIMIT <= x <= POS_LIMIT,
    ensures
        r == cell_of(x as int),
{
    if x >= 0 {
        ((x as u64) / 1000) as i64
    } else {
        -((((-x) as u64) / 1000) as i64)
    }
}

/// Decides what an interaction event does to a push-capable target:
/// `Some` velocity exactly for on-axis cell displacements.
pub fn push_trigger(interactor: Vec3I, target: Vec3I) -> (r: Option<Vec2I>)
    requires
        interactor.bounded_spec(POS_LIMIT),
        target.bounded_spec(POS_LIMIT),
    ensures
        r == push_trigger_spec(interactor, target),
        r matches Some(v) ==> push_vel_wf(v) && v != (Vec2I { x: 0, y: 0 }),
{
    let vx = cell_exec(target.x) - cell_exec(interactor.x);
    let vy = cell_exec(target.y) - cell_exec(interactor.y);
    if vx != 0 && vy == 0 {
        Some(
            Vec2I {
                x: if vx > 0 {
                    PUSH_SPEED
                } else {
                    -PUSH_SPEED
                },
                y: 0,
            },
        )
    } else if vx == 0 && vy != 0 {
        Some(
            Vec2I {
                x: 0,
                y: if vy > 0 {
                    PUSH_SPEED
                } else {
                    -PUSH_SPEED
                },
            },
        )
    } else {
        None
    }
}

/// Moves a pushed body by its velocity for `dt` milliseconds; the z
/// coordinate is untouched.
pub fn push_apply(pos: Vec3I, vel: Vec2I, dt: u64) -> (r: Vec3I)
    requires
        push_vel_wf(vel),
        pos.bounded_spec((2 * POS_LIMIT) as i64),
        dt <= DT_LIMIT_MS,
    ensures
        r == push_apply_spec(pos, vel, dt),
{
    let d = dt as i64;
    let x = if vel.x > 0 {
        pos.x + d
    } else if vel.x < 0 {
        pos.x - d
    } else {
        pos.x
    };
    let y = if vel.y > 0 {
        pos.y + d
    } else if vel.y < 0 {
        pos.y - d
    } else {
        pos.y
    };
    Vec3I { x, y, z: pos.z }
}

/// True when a still-pushed body gained no ground this tick: the
/// velocity is nonzero but the resolver returned it to its previous
/// position exactly. The tick driver then clears the push marker.
pub fn push_stalled(pos: Vec3I, prev: Vec3I, vel: Vec2I) -> (r: bool)
    ensures
        r <==> (vel != (Vec2I { x: 0, y: 0 }) && pos == prev),
{
    (vel.x != 0 || vel.y != 0) && pos.x == prev.x && pos.y == prev.y && pos.z == prev.z
}

} // verus!

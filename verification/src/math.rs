//! Fixed-point plane and space vectors.
//!
//! Geometry is carried in milli-units: 1000 fixed-point units per world
//! unit. Coordinates handed to the geometric routines stay within
//! `WORLD_LIMIT`, so squared distances fit an `i64` exactly.

use vstd::prelude::*;

verus! {

/// Largest coordinate magnitude the geometric routines accept, in
/// milli-units. Squares of coordinate differences under this bound fit
/// an `i64` without overflow.
pub const WORLD_LIMIT: i64 = 1_000_000_000;

/// Fixed-point units per world unit.
pub const SCALE: i64 = 1000;

/// Largest coordinate magnitude of an entity position the simulation
/// maintains, in milli-units: a thousand world units of arena.
pub const POS_LIMIT: i64 = 1_000_000;

/// Largest raw per-tick displacement the resolver accepts on each
/// axis, in milli-units.
pub const MOVE_LIMIT: i64 = 50_000;

/// Largest frame delta the tick accepts, in milliseconds.
pub const DT_LIMIT_MS: u64 = 10_000;

/// A 2D point or displacement in milli-units.
#[derive(Clone, Copy, Debug, PartialEq, Eq, Structural)]
pub struct Vec2I {
    pub x: i64,
    pub y: i64,
}

/// A 3D point in milli-units; the z coordinate is carried through the
/// 2D resolution untouched.
#[derive(Clone, Copy, Debug, PartialEq, Eq, Structural)]
pub struct Vec3I {
    pub x: i64,
    pub y: i64,
    pub z: i64,
}

impl Vec3I {
    /// True when all three coordinates are within `limit`.
    pub open spec fn bounded_spec(self, limit: i64) -> bool {
        -limit <= self.x <= limit && -limit <= self.y <= limit && -limit <= self.z <= limit
    }

    /// The 2D projection that all collision work runs on.
    pub open spec fn plane_spec(self) -> Vec2I {
        Vec2I { x: self.x, y: self.y }
    }

    /// Drops the z coordinate.
    pub fn plane(&self) -> (r: Vec2I)
        ensures
            r == self.plane_spec(),
    {
        Vec2I { x: self.x, y: self.y }
    }
}

impl Vec2I {
    /// True when both coordinates are within `limit`.
    pub open spec fn bounded_spec(self, limit: i64) -> bool {
        -limit <= self.x <= limit && -limit <= self.y <= limit
    }

    /// Coordinates small enough for exact squared-distance arithmetic.
    pub open spec fn in_world(self) -> bool {
        self.bounded_spec(WORLD_LIMIT)
    }
}

/// Magnitude of an unbounded integer.
pub open spec fn mag(x: int) -> int {
    if x < 0 {
        -x
    } else {
        x
    }
}

/// `d` is the integer square root of `x`: the largest integer whose
/// square is at most `x`.
pub open spec fn is_floor_sqrt(d: int, x: int) -> bool {
    0 <= d && d * d <= x && x < (d + 1) * (d + 1)
}

/// Squared Euclidean distance between two plane points, exactly.
pub open spec fn dist_sq_spec(a: Vec2I, b: Vec2I) -> int {
    (a.x - b.x) * (a.x - b.x) + (a.y - b.y) * (a.y - b.y)
}

/// Squared Euclidean distance between two in-world plane points.
pub fn dist_sq(a: Vec2I, b: Vec2I) -> (r: i64)
    requires
        a.in_world(),
        b.in_world(),
    ensures
        r == dist_sq_spec(a, b),
        0 <= r,
{
    let dx = a.x - b.x;
    let dy = a.y - b.y;
    proof {
        assert(0 <= dx * dx <= 4_000_000_000_000_000_000) by (nonlinear_arith)
            requires
                -2_000_000_000 <= dx <= 2_000_000_000,
        ;
        assert(0 <= dy * dy <= 4_000_000_000_000_000_000) by (nonlinear_arith)
            requires
                -2_000_000_000 <= dy <= 2_000_000_000,
        ;
    }
    dx * dx + dy * dy
}

/// Integer square root: the largest `r` with `r * r <= x`.
pub fn isqrt(x: u64) -> (r: u64)
    ensures
        r * r <= x,
        x < (r + 1) * (r + 1),
{
    let mut lo: u64 = 0;
    let mut hi: u64 = 4_294_967_296;
    while lo + 1 < hi
        invariant
            lo < hi <= 4_294_967_296,
            lo * lo <= x,
            x < hi * hi,
        decreases hi - lo,
    {
        let mid = lo + (hi - lo) / 2;
        proof {
            assert(lo < mid < hi);
            assert(mid * mid <= 4_294_967_295 * 4_294_967_295) by (nonlinear_arith)
                requires
                    0 <= mid <= 4_294_967_295,
            ;
        }
        if mid * mid <= x {
            lo = mid;
        } else {
            hi = mid;
        }
    }
    lo
}

} // verus!

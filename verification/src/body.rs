//! Collision bodies and the exact shape-vs-shape contact test.
//!
//! A body is a 2D square (`Cuboid`, given by its half-extent) or a disc
//! (`Ball`, given by its radius). The contact test reports touching or
//! penetrating pairs: a contact carries a separation distance (zero or
//! negative, in milli-units) and a per-mille unit normal pointing from
//! the first body toward the second. Overlap itself is decided exactly
//! on squared integer distances; only the reported distance and normal
//! are quantized by the integer square root.

use vstd::prelude::*;

use crate::math::Vec2I;
use crate::math::mag;
use crate::math::is_floor_sqrt;
use crate::math::dist_sq_spec;
use crate::math::dist_sq;
use crate::math::isqrt;

verus! {

/// Largest body radius or half-extent, in milli-units. Keeps any
/// overlapping pair within the resolver's broad-phase radius.
pub const RADIUS_LIMIT: i64 = 1000;

/// The closed set of collision shape kinds, dispatched explicitly.
#[derive(Clone, Copy, Debug, PartialEq, Eq, Structural)]
pub enum WolfShape {
    /// Axis-aligned square of a given half-extent.
    Cuboid,
    /// Disc of a given radius.
    Ball,
}

/// Per-entity collision attributes. `height` plays no part in the 2D
/// resolution and is carried for rendering; a disabled body is excluded
/// from collision both as mover and as obstacle.
#[derive(Clone, Copy, Debug, PartialEq, Eq, Structural)]
pub struct WolfBody {
    pub height: i64,
    pub radius: i64,
    pub shape: WolfShape,
    pub disabled: bool,
}

impl WolfBody {
    /// Radius positive and small enough for the broad phase to see
    /// every overlapping neighbor.
    pub open spec fn wf(self) -> bool {
        0 < self.radius <= RADIUS_LIMIT && 0 <= self.height
    }
}

impl Default for WolfBody {
    /// A unit-tall, half-unit-wide enabled square body.
    fn default() -> (r: WolfBody)
        ensures
            r == (WolfBody { height: 1000, radius: 500, shape: WolfShape::Cuboid, disabled: false }),
    {
        WolfBody { height: 1000, radius: 500, shape: WolfShape::Cuboid, disabled: false }
    }
}

/// An overlap report: separation distance (zero or negative) and the
/// per-mille unit normal from the first body toward the second.
#[derive(Clone, Copy, Debug, PartialEq, Eq, Structural)]
pub struct Contact {
    pub dist: i64,
    pub normal: Vec2I,
}

/// Distance from a coordinate to a centered interval of half-width `r`:
/// zero inside, the gap outside.
pub open spec fn axis_gap(d: int, r: int) -> int {
    if mag(d) > r {
        mag(d) - r
    } else {
        0
    }
}

/// +1 toward positive axis values, -1 otherwise; ties at zero go
/// positive.
pub open spec fn axis_sign(d: int) -> int {
    if d >= 0 {
        1
    } else {
        -1
    }
}

/// True when a disc of radius `r` at `c` touches or overlaps the square
/// of half-extent `h` at `b`: the squared distance from `c` to the
/// square is at most `r` squared.
pub open spec fn ball_box_overlap(c: Vec2I, r: int, b: Vec2I, h: int) -> bool {
    let gx = axis_gap(c.x - b.x, h);
    let gy = axis_gap(c.y - b.y, h);
    gx * gx + gy * gy <= r * r
}

/// Exact touching-or-overlapping test between two bodies, dispatched on
/// the shape kinds.
pub open spec fn bodies_overlap(
    sa: WolfShape,
    pa: Vec2I,
    ra: int,
    sb: WolfShape,
    pb: Vec2I,
    rb: int,
) -> bool {
    match (sa, sb) {
        (WolfShape::Ball, WolfShape::Ball) => dist_sq_spec(pa, pb) <= (ra + rb) * (ra + rb),
        (WolfShape::Cuboid, WolfShape::Cuboid) => mag(pb.x - pa.x) <= ra + rb && mag(pb.y - pa.y)
            <= ra + rb,
        (WolfShape::Ball, WolfShape::Cuboid) => ball_box_overlap(pa, ra, pb, rb),
        (WolfShape::Cuboid, WolfShape::Ball) => ball_box_overlap(pb, rb, pa, ra),
    }
}

/// A component of the per-mille direction of `delta` under a norm `d`,
/// rounded toward zero.
pub open spec fn scaled_dir(delta: int, d: int) -> int {
    if delta >= 0 {
        (delta * 1000) / d
    } else {
        -(((-delta) * 1000) / d)
    }
}

/// Nonnegative numbers order as their squares do.
proof fn lemma_sq_le(a: int, b: int)
    requires
        0 <= a,
        0 <= b,
        a * a <= b * b,
    ensures
        a <= b,
{
    assert(a <= b) by (nonlinear_arith)
        requires
            0 <= a,
            0 <= b,
            a * a <= b * b,
    ;
}

/// Nonnegative numbers order strictly as their squares do.
proof fn lemma_sq_lt(a: int, b: int)
    requires
        0 <= a,
        0 <= b,
        a * a < b * b,
    ensures
        a < b,
{
    assert(a < b) by (nonlinear_arith)
        requires
            0 <= a,
            0 <= b,
            a * a < b * b,
    ;
}

/// A component's square never exceeds the squared norm.
proof fn lemma_comp_le_norm(dx: int, dy: int)
    ensures
        mag(dx) * mag(dx) <= dx * dx + dy * dy,
        mag(dy) * mag(dy) <= dx * dx + dy * dy,
{
    assert(mag(dx) * mag(dx) <= dx * dx + dy * dy && mag(dy) * mag(dy) <= dx * dx + dy * dy)
        by (nonlinear_arith);
}

/// Multiplying by minus the axis sign flips exactly for nonnegative
/// arguments.
proof fn lemma_sign_mul(s: int, q: int)
    ensures
        -axis_sign(s) * q == (if s >= 0 {
            -q
        } else {
            q
        }),
{
    if s >= 0 {
        assert(-axis_sign(s) * q == -q) by (nonlinear_arith)
            requires
                axis_sign(s) == 1,
        ;
    } else {
        assert(-axis_sign(s) * q == q) by (nonlinear_arith)
            requires
                axis_sign(s) == -1,
        ;
    }
}

/// The scaled direction of a component never exceeds per-mille one.
proof fn lemma_scaled_dir_bounded(delta: int, d: int)
    requires
        0 < d,
        mag(delta) <= d,
    ensures
        -1000 <= scaled_dir(delta, d) <= 1000,
{
    assert((mag(delta) * 1000) / d <= 1000) by (nonlinear_arith)
        requires
            0 < d,
            0 <= mag(delta) <= d,
    ;
    assert(0 <= (mag(delta) * 1000) / d) by (nonlinear_arith)
        requires
            0 < d,
            0 <= mag(delta),
    ;
}

/// Absolute value of an in-range machine integer.
fn abs64(v: i64) -> (r: i64)
    requires
        v > i64::MIN,
    ensures
        r == mag(v as int),
{
    if v < 0 {
        -v
    } else {
        v
    }
}

/// The per-mille direction component of `delta` under norm `d`,
/// rounded toward zero.
pub(crate) fn scaled_dir_exec(delta: i64, d: i64) -> (r: i64)
    requires
        0 < d <= 3_000_000_000,
        mag(delta as int) <= d,
    ensures
        r == scaled_dir(delta as int, d as int),
        -1000 <= r <= 1000,
{
    proof {
        lemma_scaled_dir_bounded(delta as int, d as int);
    }
    let a = abs64(delta);
    proof {
        assert((a * 1000) / (d as int) <= 1000 && 0 <= (a * 1000) / (d as int))
            by (nonlinear_arith)
            requires
                0 < d,
                0 <= a <= d,
        ;
    }
    let q = ((a as u64) * 1000 / (d as u64)) as i64;
    if delta >= 0 {
        q
    } else {
        -q
    }
}

/// The normal the disc-vs-disc test reports under a center distance of
/// norm `d`: the scaled center difference, or +x for coincident
/// centers.
pub open spec fn ball_normal_spec(pa: Vec2I, pb: Vec2I, d: int) -> Vec2I {
    if d > 0 {
        Vec2I {
            x: scaled_dir(pb.x - pa.x, d) as i64,
            y: scaled_dir(pb.y - pa.y, d) as i64,
        }
    } else {
        Vec2I { x: 1000, y: 0 }
    }
}

/// Disc vs disc: a contact exactly when the center distance is at most
/// the radius sum; the reported distance is the integer-rounded center
/// distance minus the radius sum.
pub fn contact_ball_ball(pa: Vec2I, ra: i64, pb: Vec2I, rb: i64) -> (r: Option<Contact>)
    requires
        pa.in_world(),
        pb.in_world(),
        0 < ra <= RADIUS_LIMIT,
        0 < rb <= RADIUS_LIMIT,
    ensures
        r.is_some() <==> dist_sq_spec(pa, pb) <= (ra + rb) * (ra + rb),
        r matches Some(c) ==> {
            &&& -(ra + rb) <= c.dist <= 0
            &&& c.normal.bounded_spec(1000)
            &&& exists|d: int|
                {
                    &&& #[trigger] is_floor_sqrt(d, dist_sq_spec(pa, pb))
                    &&& c.dist == d - (ra + rb)
                    &&& c.normal == ball_normal_spec(pa, pb, d)
                }
        },
{
    let d2 = dist_sq(pa, pb);
    let rsum = ra + rb;
    proof {
        assert(0 < rsum * rsum <= 4_000_000) by (nonlinear_arith)
            requires
                0 < rsum <= 2000,
        ;
    }
    if d2 <= rsum * rsum {
        let du = isqrt(d2 as u64);
        proof {
            assert((du as int) * (du as int) <= d2 as int);
            assert((d2 as int) < ((du as int) + 1) * ((du as int) + 1));
            lemma_sq_le(du as int, 3_000_000_000);
        }
        let d = du as i64;
        proof {
            lemma_sq_le(d as int, rsum as int);
        }
        let normal: Vec2I = if d > 0 {
            let dx = pb.x - pa.x;
            let dy = pb.y - pa.y;
            proof {
                lemma_comp_le_norm(dx as int, dy as int);
                assert((dx as int) * (dx as int) + (dy as int) * (dy as int) == dist_sq_spec(
                    pa,
                    pb,
                )) by (nonlinear_arith)
                    requires
                        dx == pb.x - pa.x,
                        dy == pb.y - pa.y,
                ;
                lemma_sq_lt(mag(dx as int), d as int + 1);
                lemma_sq_lt(mag(dy as int), d as int + 1);
            }
            Vec2I { x: scaled_dir_exec(dx, d), y: scaled_dir_exec(dy, d) }
        } else {
            Vec2I { x: 1000, y: 0 }
        };
        proof {
            assert(d * d <= dist_sq_spec(pa, pb));
            assert(dist_sq_spec(pa, pb) < (d + 1) * (d + 1));
            assert(is_floor_sqrt(d as int, dist_sq_spec(pa, pb)));
            assert(normal == ball_normal_spec(pa, pb, d as int));
        }
        Some(Contact { dist: d - rsum, normal })
    } else {
        None
    }
}

/// The contact the square-vs-square test reports for an overlapping
/// pair: separation is minus the smaller axis overlap, the normal
/// points along that axis from the first square toward the second
/// (ties go to the x axis, a zero center difference counts positive).
pub open spec fn box_box_contact_spec(pa: Vec2I, ra: int, pb: Vec2I, rb: int) -> Contact {
    let dx = pb.x - pa.x;
    let dy = pb.y - pa.y;
    let ox = (ra + rb) - mag(dx);
    let oy = (ra + rb) - mag(dy);
    if ox <= oy {
        Contact { dist: (-ox) as i64, normal: Vec2I { x: (1000 * axis_sign(dx)) as i64, y: 0 } }
    } else {
        Contact { dist: (-oy) as i64, normal: Vec2I { x: 0, y: (1000 * axis_sign(dy)) as i64 } }
    }
}

/// Square vs square: a contact exactly when the axis distances both
/// fall short of the half-extent sum.
pub fn contact_box_box(pa: Vec2I, ra: i64, pb: Vec2I, rb: i64) -> (r: Option<Contact>)
    requires
        pa.in_world(),
        pb.in_world(),
        0 < ra <= RADIUS_LIMIT,
        0 < rb <= RADIUS_LIMIT,
    ensures
        r.is_some() <==> bodies_overlap(
            WolfShape::Cuboid,
            pa,
            ra as int,
            WolfShape::Cuboid,
            pb,
            rb as int,
        ),
        r matches Some(c) ==> {
            &&& c == box_box_contact_spec(pa, ra as int, pb, rb as int)
            &&& -(ra + rb) <= c.dist <= 0
            &&& c.normal.bounded_spec(1000)
        },
{
    let dx = pb.x - pa.x;
    let dy = pb.y - pa.y;
    let rsum = ra + rb;
    let ox = rsum - abs64(dx);
    let oy = rsum - abs64(dy);
    if ox >= 0 && oy >= 0 {
        if ox <= oy {
            let sx: i64 = if dx >= 0 {
                1000
            } else {
                -1000
            };
            Some(Contact { dist: -ox, normal: Vec2I { x: sx, y: 0 } })
        } else {
            let sy: i64 = if dy >= 0 {
                1000
            } else {
                -1000
            };
            Some(Contact { dist: -oy, normal: Vec2I { x: 0, y: sy } })
        }
    } else {
        None
    }
}

/// The contact reported for a disc whose center lies on or inside the
/// square: penetration is the disc radius plus the clearance to the
/// nearest face, and the normal points from the disc center toward the
/// square's inside along that face's axis.
pub open spec fn ball_box_inside_contact_spec(c: Vec2I, r: int, b: Vec2I, h: int) -> Contact {
    let dx = c.x - b.x;
    let dy = c.y - b.y;
    let fx = h - mag(dx);
    let fy = h - mag(dy);
    if fx <= fy {
        Contact {
            dist: (-(r + fx)) as i64,
            normal: Vec2I { x: (-1000 * axis_sign(dx)) as i64, y: 0 },
        }
    } else {
        Contact {
            dist: (-(r + fy)) as i64,
            normal: Vec2I { x: 0, y: (-1000 * axis_sign(dy)) as i64 },
        }
    }
}

/// The normal reported for a disc outside the square under a
/// center-to-square distance of norm `d`: the scaled direction from
/// the disc center to the nearest point of the square.
pub open spec fn ball_box_outside_normal_spec(c: Vec2I, b: Vec2I, h: int, d: int) -> Vec2I {
    let gx = axis_gap(c.x - b.x, h);
    let gy = axis_gap(c.y - b.y, h);
    Vec2I {
        x: (-axis_sign(c.x - b.x) * ((gx * 1000) / d)) as i64,
        y: (-axis_sign(c.y - b.y) * ((gy * 1000) / d)) as i64,
    }
}

/// Disc vs square, normal pointing from the disc toward the square: a
/// contact exactly when the disc reaches the square.
pub fn contact_ball_box(c: Vec2I, r: i64, b: Vec2I, h: i64) -> (res: Option<Contact>)
    requires
        c.in_world(),
        b.in_world(),
        0 < r <= RADIUS_LIMIT,
        0 < h <= RADIUS_LIMIT,
    ensures
        res.is_some() <==> ball_box_overlap(c, r as int, b, h as int),
        res matches Some(ct) ==> {
            &&& -(r + h) <= ct.dist <= 0
            &&& ct.normal.bounded_spec(1000)
        },
        res matches Some(ct) ==> axis_gap(c.x - b.x, h as int) + axis_gap(c.y - b.y, h as int) > 0
            ==> exists|d: int|
            {
                &&& #[trigger] is_floor_sqrt(
                    d,
                    axis_gap(c.x - b.x, h as int) * axis_gap(c.x - b.x, h as int) + axis_gap(
                        c.y - b.y,
                        h as int,
                    ) * axis_gap(c.y - b.y, h as int),
                )
                &&& ct.dist == d - r
                &&& ct.normal == ball_box_outside_normal_spec(c, b, h as int, d)
            },
        res matches Some(ct) ==> axis_gap(c.x - b.x, h as int) + axis_gap(c.y - b.y, h as int) == 0
            ==> ct == ball_box_inside_contact_spec(c, r as int, b, h as int),
{
    let dx = c.x - b.x;
    let dy = c.y - b.y;
    let adx = abs64(dx);
    let ady = abs64(dy);
    let gx = if adx > h {
        adx - h
    } else {
        0
    };
    let gy = if ady > h {
        ady - h
    } else {
        0
    };
    proof {
        assert(gx == axis_gap(dx as int, h as int));
        assert(gy == axis_gap(dy as int, h as int));
        assert(0 <= gx * gx <= 4_000_000_000_000_000_000) by (nonlinear_arith)
            requires
                0 <= gx <= 2_000_000_000,
        ;
        assert(0 <= gy * gy <= 4_000_000_000_000_000_000) by (nonlinear_arith)
            requires
                0 <= gy <= 2_000_000_000,
        ;
    }
    proof {
        assert(0 < r * r <= 4_000_000) by (nonlinear_arith)
            requires
                0 < r <= 2000,
        ;
    }
    let g2 = gx * gx + gy * gy;
    if g2 > r * r {
        return None;
    }
    if g2 > 0 {
        let du = isqrt(g2 as u64);
        proof {
            assert((du as int) * (du as int) <= g2 as int);
            assert((g2 as int) < ((du as int) + 1) * ((du as int) + 1));
            lemma_sq_le(du as int, 3_000_000_000);
        }
        let d = du as i64;
        proof {
            lemma_sq_le(d as int, r as int);
            lemma_comp_le_norm(gx as int, gy as int);
            lemma_sq_lt(gx as int, d as int + 1);
            lemma_sq_lt(gy as int, d as int + 1);
            lemma_scaled_dir_bounded(gx as int, d as int);
            lemma_scaled_dir_bounded(gy as int, d as int);
            assert((gx * 1000) / (d as int) <= 1000 && 0 <= (gx * 1000) / (d as int)
                && (gy * 1000) / (d as int) <= 1000 && 0 <= (gy * 1000) / (d as int))
                by (nonlinear_arith)
                requires
                    0 < d,
                    0 <= gx <= d,
                    0 <= gy <= d,
            ;
        }
        let qx = ((gx as u64) * 1000 / (d as u64)) as i64;
        let qy = ((gy as u64) * 1000 / (d as u64)) as i64;
        proof {
            assert(qx == ((gx as int) * 1000) / (d as int));
            assert(qy == ((gy as int) * 1000) / (d as int));
        }
        let nx: i64 = if dx >= 0 {
            -qx
        } else {
            qx
        };
        let ny: i64 = if dy >= 0 {
            -qy
        } else {
            qy
        };
        proof {
            assert(d * d <= g2);
            assert(g2 < (d + 1) * (d + 1));
            assert(is_floor_sqrt(
                d as int,
                axis_gap(c.x - b.x, h as int) * axis_gap(c.x - b.x, h as int) + axis_gap(
                    c.y - b.y,
                    h as int,
                ) * axis_gap(c.y - b.y, h as int),
            ));
            assert(gx > 0 || gy > 0) by (nonlinear_arith)
                requires
                    0 <= gx,
                    0 <= gy,
                    gx * gx + gy * gy > 0,
            ;
            assert(gx == axis_gap(c.x - b.x, h as int));
            assert(gy == axis_gap(c.y - b.y, h as int));
            lemma_sign_mul(c.x - b.x, ((gx as int) * 1000) / (d as int));
            lemma_sign_mul(c.y - b.y, ((gy as int) * 1000) / (d as int));
            assert(Vec2I { x: nx, y: ny } == ball_box_outside_normal_spec(c, b, h as int, d as int));
        }
        Some(Contact { dist: d - r, normal: Vec2I { x: nx, y: ny } })
    } else {
        proof {
            assert(gx == 0 && gy == 0) by (nonlinear_arith)
                requires
                    0 <= gx,
                    0 <= gy,
                    gx * gx + gy * gy == 0,
            ;
        }
        let fx = h - adx;
        let fy = h - ady;
        if fx <= fy {
            let nx: i64 = if dx >= 0 {
                -1000
            } else {
                1000
            };
            Some(Contact { dist: -(r + fx), normal: Vec2I { x: nx, y: 0 } })
        } else {
            let ny: i64 = if dy >= 0 {
                -1000
            } else {
                1000
            };
            Some(Contact { dist: -(r + fy), normal: Vec2I { x: 0, y: ny } })
        }
    }
}

/// Exact contact test between two bodies at the given plane positions:
/// reports touching or penetrating pairs, with the separation distance
/// and a per-mille normal pointing from the first body toward the
/// second.
pub fn contact(a: &WolfBody, pa: Vec2I, b: &WolfBody, pb: Vec2I) -> (r: Option<Contact>)
    requires
        a.wf(),
        b.wf(),
        pa.in_world(),
        pb.in_world(),
    ensures
        r.is_some() <==> bodies_overlap(
            a.shape,
            pa,
            a.radius as int,
            b.shape,
            pb,
            b.radius as int,
        ),
        r matches Some(c) ==> {
            &&& -(a.radius + b.radius) <= c.dist <= 0
            &&& c.normal.bounded_spec(1000)
        },
{
    match (a.shape, b.shape) {
        (WolfShape::Ball, WolfShape::Ball) => contact_ball_ball(pa, a.radius, pb, b.radius),
        (WolfShape::Cuboid, WolfShape::Cuboid) => contact_box_box(pa, a.radius, pb, b.radius),
        (WolfShape::Ball, WolfShape::Cuboid) => contact_ball_box(pa, a.radius, pb, b.radius),
        (WolfShape::Cuboid, WolfShape::Ball) => {
            match contact_ball_box(pb, b.radius, pa, a.radius) {
                Some(c) => Some(
                    Contact { dist: c.dist, normal: Vec2I { x: -c.normal.x, y: -c.normal.y } },
                ),
                None => None,
            }
        },
    }
}

} // verus!

//! Interaction events and the exact ray-vs-square test.
//!
//! The scanner casts a 2D ray of bounded length from an interactor
//! along its facing. A body is hit when some point `o + t*d`, for a
//! rational `t` between 0 and 1, lies within the body's square; the
//! test decides that exactly in integer arithmetic by intersecting the
//! per-axis slab intervals.

use vstd::prelude::*;

use crate::body::WolfShape;
use crate::math::Vec2I;
use crate::math::mag;
use crate::math::dist_sq;

verus! {

/// One interaction: `interactor` hit `entity` with its ray this tick.
/// Events live for a single tick and are consumed independently by the
/// door and push machines.
#[derive(Clone, Copy, Debug, PartialEq, Eq, Structural)]
pub struct WolfInteractEvent {
    pub interactor: u64,
    pub entity: u64,
}

/// One axis of the containment test at the rational ray parameter
/// `n/m`: the point's offset from the square center stays within `h`.
/// `a` is the center's offset from the ray origin and `dc` the ray
/// direction component, so the condition is `|dc*(n/m) - a| <= h`
/// scaled by `m`.
pub open spec fn axis_meets(a: int, dc: int, h: int, n: int, m: int) -> bool {
    mag(dc * n - a * m) <= h * m
}

/// The point `o + (n/m)*d` lies within the square of half-extent `h`
/// centered at `c`.
pub open spec fn hits_at(o: Vec2I, d: Vec2I, c: Vec2I, h: int, n: int, m: int) -> bool {
    axis_meets(c.x - o.x, d.x as int, h, n, m) && axis_meets(c.y - o.y, d.y as int, h, n, m)
}

/// The ray from `o` along `d`, truncated at parameter 1, meets the
/// square of half-extent `h` at `c`: some rational parameter between 0
/// and 1 lands inside it.
pub open spec fn ray_hits_spec(o: Vec2I, d: Vec2I, c: Vec2I, h: int) -> bool {
    exists|n: int, m: int| 0 < m && 0 <= n <= m && #[trigger] hits_at(o, d, c, h, n, m)
}

/// Positive denominator of the axis slab interval.
pub open spec fn slab_den(dc: int) -> int {
    if dc >= 0 {
        dc
    } else {
        -dc
    }
}

/// Scaled lower end of the axis slab interval: the parameter `t`
/// satisfies the axis exactly when `slab_lo <= t * slab_den <= slab_hi`.
pub open spec fn slab_lo(a: int, dc: int, h: int) -> int {
    if dc > 0 {
        a - h
    } else {
        -a - h
    }
}

/// Scaled upper end of the axis slab interval.
pub open spec fn slab_hi(a: int, dc: int, h: int) -> int {
    if dc > 0 {
        a + h
    } else {
        -a + h
    }
}

/// An axis whose direction component vanishes is met only when the
/// origin already lies within the slab.
proof fn lemma_axis0_infeasible(a: int, h: int, n: int, m: int)
    requires
        0 < m,
        mag(a) > h,
    ensures
        !axis_meets(a, 0, h, n, m),
{
    assert(!(mag(0 * n - a * m) <= h * m)) by (nonlinear_arith)
        requires
            0 < m,
            mag(a) > h,
    ;
}

/// Meeting an axis pins the scaled parameter into the slab interval.
proof fn lemma_axis_to_slab(a: int, dc: int, h: int, n: int, m: int)
    requires
        0 < m,
        dc != 0,
        axis_meets(a, dc, h, n, m),
    ensures
        slab_lo(a, dc, h) * m <= n * slab_den(dc),
        n * slab_den(dc) <= slab_hi(a, dc, h) * m,
{
    if dc > 0 {
        assert((a - h) * m <= n * dc && n * dc <= (a + h) * m) by (nonlinear_arith)
            requires
                0 < m,
                mag(dc * n - a * m) <= h * m,
        ;
    } else {
        assert((-a - h) * m <= n * (-dc) && n * (-dc) <= (-a + h) * m) by (nonlinear_arith)
            requires
                0 < m,
                mag(dc * n - a * m) <= h * m,
        ;
    }
}

/// A scaled parameter inside the slab interval meets the axis.
proof fn lemma_slab_to_axis(a: int, dc: int, h: int, n: int, m: int)
    requires
        0 < m,
        dc != 0,
        slab_lo(a, dc, h) * m <= n * slab_den(dc),
        n * slab_den(dc) <= slab_hi(a, dc, h) * m,
    ensures
        axis_meets(a, dc, h, n, m),
{
    if dc > 0 {
        assert(mag(dc * n - a * m) <= h * m) by (nonlinear_arith)
            requires
                0 < m,
                (a - h) * m <= n * dc,
                n * dc <= (a + h) * m,
        ;
    } else {
        assert(mag(dc * n - a * m) <= h * m) by (nonlinear_arith)
            requires
                0 < m,
                (-a - h) * m <= n * (-dc),
                n * (-dc) <= (-a + h) * m,
        ;
    }
}

/// No parameter at most 1 reaches a slab whose lower end lies beyond
/// the denominator.
proof fn lemma_lo_gt_den_infeasible(a: int, dc: int, h: int, n: int, m: int)
    requires
        0 < m,
        0 <= n <= m,
        dc != 0,
        slab_lo(a, dc, h) > slab_den(dc),
    ensures
        !axis_meets(a, dc, h, n, m),
{
    if axis_meets(a, dc, h, n, m) {
        lemma_axis_to_slab(a, dc, h, n, m);
        assert(false) by (nonlinear_arith)
            requires
                0 < m,
                0 <= n <= m,
                0 < slab_den(dc),
                slab_lo(a, dc, h) > slab_den(dc),
                slab_lo(a, dc, h) * m <= n * slab_den(dc),
        ;
    }
}

/// No nonnegative parameter reaches a slab that ends below zero.
proof fn lemma_hi_neg_infeasible(a: int, dc: int, h: int, n: int, m: int)
    requires
        0 < m,
        0 <= n <= m,
        dc != 0,
        slab_hi(a, dc, h) < 0,
    ensures
        !axis_meets(a, dc, h, n, m),
{
    if axis_meets(a, dc, h, n, m) {
        lemma_axis_to_slab(a, dc, h, n, m);
        assert(false) by (nonlinear_arith)
            requires
                0 < m,
                0 <= n,
                0 < slab_den(dc),
                slab_hi(a, dc, h) < 0,
                n * slab_den(dc) <= slab_hi(a, dc, h) * m,
        ;
    }
}

/// An axis with a vanishing direction component is met at every
/// parameter once the origin lies within the slab.
proof fn lemma_axis0_feasible(a: int, h: int, n: int, m: int)
    requires
        0 < m,
        mag(a) <= h,
    ensures
        axis_meets(a, 0, h, n, m),
{
    assert(mag(0 * n - a * m) <= h * m) by (nonlinear_arith)
        requires
            0 < m,
            mag(a) <= h,
    ;
}

/// Two slabs whose intervals do not intersect cannot both be met by
/// one parameter.
proof fn lemma_pair_infeasible(
    a1: int,
    dc1: int,
    a2: int,
    dc2: int,
    h: int,
    n: int,
    m: int,
)
    requires
        0 < m,
        0 <= n <= m,
        dc1 != 0,
        dc2 != 0,
        slab_lo(a1, dc1, h) * slab_den(dc2) > slab_hi(a2, dc2, h) * slab_den(dc1),
    ensures
        !(axis_meets(a1, dc1, h, n, m) && axis_meets(a2, dc2, h, n, m)),
{
    if axis_meets(a1, dc1, h, n, m) && axis_meets(a2, dc2, h, n, m) {
        lemma_axis_to_slab(a1, dc1, h, n, m);
        lemma_axis_to_slab(a2, dc2, h, n, m);
        assert(false) by (nonlinear_arith)
            requires
                0 < m,
                0 < slab_den(dc1),
                0 < slab_den(dc2),
                slab_lo(a1, dc1, h) * m <= n * slab_den(dc1),
                n * slab_den(dc2) <= slab_hi(a2, dc2, h) * m,
                slab_lo(a1, dc1, h) * slab_den(dc2) > slab_hi(a2, dc2, h) * slab_den(dc1),
        ;
    }
}

/// Decides exactly whether the ray from `o` along `d`, truncated at
/// parameter 1, meets the square of half-extent `h` at `c`.
pub fn ray_hits_box(o: Vec2I, d: Vec2I, c: Vec2I, h: i64) -> (r: bool)
    requires
        o.in_world(),
        c.in_world(),
        d.bounded_spec(1000),
        0 < h <= 1_000_000,
    ensures
        r == ray_hits_spec(o, d, c, h as int),
{
    let ax = c.x - o.x;
    let ay = c.y - o.y;
    let hh = h;
    if d.x == 0 && (ax > hh || ax < -hh) {
        proof {
            assert forall|n: int, m: int|
                0 < m && 0 <= n <= m implies !hits_at(o, d, c, h as int, n, m) by {
                lemma_axis0_infeasible(ax as int, h as int, n, m);
            }
        }
        return false;
    }
    if d.y == 0 && (ay > hh || ay < -hh) {
        proof {
            assert forall|n: int, m: int|
                0 < m && 0 <= n <= m implies !hits_at(o, d, c, h as int, n, m) by {
                lemma_axis0_infeasible(ay as int, h as int, n, m);
            }
        }
        return false;
    }
    let denx = if d.x >= 0 {
        d.x
    } else {
        -d.x
    };
    let lox = if d.x > 0 {
        ax - hh
    } else {
        -ax - hh
    };
    let hix = if d.x > 0 {
        ax + hh
    } else {
        -ax + hh
    };
    let deny = if d.y >= 0 {
        d.y
    } else {
        -d.y
    };
    let loy = if d.y > 0 {
        ay - hh
    } else {
        -ay - hh
    };
    let hiy = if d.y > 0 {
        ay + hh
    } else {
        -ay + hh
    };
    proof {
        assert(denx == slab_den(d.x as int) && lox == slab_lo(ax as int, d.x as int, h as int)
            && hix == slab_hi(ax as int, d.x as int, h as int));
        assert(deny == slab_den(d.y as int) && loy == slab_lo(ay as int, d.y as int, h as int)
            && hiy == slab_hi(ay as int, d.y as int, h as int));
    }
    if d.x != 0 && (lox > denx || hix < 0) {
        proof {
            assert forall|n: int, m: int|
                0 < m && 0 <= n <= m implies !hits_at(o, d, c, h as int, n, m) by {
                if lox > denx {
                    lemma_lo_gt_den_infeasible(ax as int, d.x as int, h as int, n, m);
                } else {
                    lemma_hi_neg_infeasible(ax as int, d.x as int, h as int, n, m);
                }
            }
        }
        return false;
    }
    if d.y != 0 && (loy > deny || hiy < 0) {
        proof {
            assert forall|n: int, m: int|
                0 < m && 0 <= n <= m implies !hits_at(o, d, c, h as int, n, m) by {
                if loy > deny {
                    lemma_lo_gt_den_infeasible(ay as int, d.y as int, h as int, n, m);
                } else {
                    lemma_hi_neg_infeasible(ay as int, d.y as int, h as int, n, m);
                }
            }
        }
        return false;
    }
    if d.x != 0 && d.y != 0 {
        proof {
            assert(mag(lox * deny) <= 4_000_000_000_000 && mag(hiy * denx) <= 4_000_000_000_000
                && mag(loy * denx) <= 4_000_000_000_000 && mag(hix * deny)
                <= 4_000_000_000_000) by (nonlinear_arith)
                requires
                    -4_000_000_000 <= lox <= 4_000_000_000,
                    -4_000_000_000 <= hix <= 4_000_000_000,
                    -4_000_000_000 <= loy <= 4_000_000_000,
                    -4_000_000_000 <= hiy <= 4_000_000_000,
                    0 <= denx <= 1000,
                    0 <= deny <= 1000,
            ;
        }
        if lox * deny > hiy * denx {
            proof {
                assert forall|n: int, m: int|
                    0 < m && 0 <= n <= m implies !hits_at(o, d, c, h as int, n, m) by {
                    lemma_pair_infeasible(
                        ax as int,
                        d.x as int,
                        ay as int,
                        d.y as int,
                        h as int,
                        n,
                        m,
                    );
                }
            }
            return false;
        }
        if loy * denx > hix * deny {
            proof {
                assert forall|n: int, m: int|
                    0 < m && 0 <= n <= m implies !hits_at(o, d, c, h as int, n, m) by {
                    lemma_pair_infeasible(
                        ay as int,
                        d.y as int,
                        ax as int,
                        d.x as int,
                        h as int,
                        n,
                        m,
                    );
                }
            }
            return false;
        }
    }
    proof {
        let hi = h as int;
        if d.x == 0 && d.y == 0 {
            lemma_axis0_feasible(ax as int, hi, 0, 1);
            lemma_axis0_feasible(ay as int, hi, 0, 1);
            assert(hits_at(o, d, c, hi, 0, 1));
        } else if d.x != 0 && d.y == 0 {
            if lox >= 0 {
                assert(lox * denx <= hix * denx) by (nonlinear_arith)
                    requires
                        lox <= hix,
                        denx > 0,
                ;
                lemma_slab_to_axis(ax as int, d.x as int, hi, lox as int, denx as int);
                lemma_axis0_feasible(ay as int, hi, lox as int, denx as int);
                assert(hits_at(o, d, c, hi, lox as int, denx as int));
                assert(0 < denx as int && 0 <= lox as int <= denx as int);
            } else {
                assert(0 * denx == 0) by (nonlinear_arith);
                lemma_slab_to_axis(ax as int, d.x as int, hi, 0, 1);
                lemma_axis0_feasible(ay as int, hi, 0, 1);
                assert(hits_at(o, d, c, hi, 0, 1));
            }
        } else if d.x == 0 && d.y != 0 {
            if loy >= 0 {
                assert(loy * deny <= hiy * deny) by (nonlinear_arith)
                    requires
                        loy <= hiy,
                        deny > 0,
                ;
                lemma_slab_to_axis(ay as int, d.y as int, hi, loy as int, deny as int);
                lemma_axis0_feasible(ax as int, hi, loy as int, deny as int);
                assert(hits_at(o, d, c, hi, loy as int, deny as int));
            } else {
                assert(0 * deny == 0) by (nonlinear_arith);
                lemma_slab_to_axis(ay as int, d.y as int, hi, 0, 1);
                lemma_axis0_feasible(ax as int, hi, 0, 1);
                assert(hits_at(o, d, c, hi, 0, 1));
            }
        } else {
            if lox * deny >= loy * denx {
                if lox >= 0 {
                    assert(lox * denx <= hix * denx) by (nonlinear_arith)
                        requires
                            lox <= hix,
                            denx > 0,
                    ;
                    lemma_slab_to_axis(ax as int, d.x as int, hi, lox as int, denx as int);
                    lemma_slab_to_axis(ay as int, d.y as int, hi, lox as int, denx as int);
                    assert(hits_at(o, d, c, hi, lox as int, denx as int));
                } else {
                    assert(0 * denx == 0 && 0 * deny == 0) by (nonlinear_arith);
                    assert(loy <= 0) by (nonlinear_arith)
                        requires
                            loy * denx <= lox * deny,
                            lox < 0,
                            denx > 0,
                            deny > 0,
                    ;
                    lemma_slab_to_axis(ax as int, d.x as int, hi, 0, 1);
                    lemma_slab_to_axis(ay as int, d.y as int, hi, 0, 1);
                    assert(hits_at(o, d, c, hi, 0, 1));
                }
            } else {
                if loy >= 0 {
                    assert(loy * deny <= hiy * deny) by (nonlinear_arith)
                        requires
                            loy <= hiy,
                            deny > 0,
                    ;
                    lemma_slab_to_axis(ay as int, d.y as int, hi, loy as int, deny as int);
                    lemma_slab_to_axis(ax as int, d.x as int, hi, loy as int, deny as int);
                    assert(hits_at(o, d, c, hi, loy as int, deny as int));
                } else {
                    assert(0 * denx == 0 && 0 * deny == 0) by (nonlinear_arith);
                    assert(lox <= 0) by (nonlinear_arith)
                        requires
                            lox * deny <= loy * denx,
                            loy < 0,
                            denx > 0,
                            deny > 0,
                    ;
                    lemma_slab_to_axis(ax as int, d.x as int, hi, 0, 1);
                    lemma_slab_to_axis(ay as int, d.y as int, hi, 0, 1);
                    assert(hits_at(o, d, c, hi, 0, 1));
                }
            }
        }
    }
    true
}

/// The point `o + (n/m)*d` lies within the disc of radius `r` at `c`,
/// stated scaled by `m`.
pub open spec fn circle_meets_at(o: Vec2I, d: Vec2I, c: Vec2I, r: int, n: int, m: int) -> bool {
    ((o.x - c.x) * m + d.x * n) * ((o.x - c.x) * m + d.x * n) + ((o.y - c.y) * m + d.y * n) * ((
    o.y - c.y) * m + d.y * n) <= (r * m) * (r * m)
}

/// The ray from `o` along `d`, truncated at parameter 1, meets the
/// disc of radius `r` at `c`: some rational parameter between 0 and 1
/// lands inside it.
pub open spec fn ray_hits_circle_spec(o: Vec2I, d: Vec2I, c: Vec2I, r: int) -> bool {
    exists|n: int, m: int| 0 < m && 0 <= n <= m && #[trigger] circle_meets_at(o, d, c, r, n, m)
}


/// Binomial square over opaque factors.
proof fn lemma_binom(p: int, q: int)
    ensures
        (p + q) * (p + q) == p * p + 2 * (p * q) + q * q,
{
    assert((p + q) * (p + q) == p * p + 2 * (p * q) + q * q) by (nonlinear_arith);
}

/// Monomial regrouping of a four-factor product.
proof fn lemma_mono4(x: int, y: int, z: int, w: int)
    ensures
        (x * y) * (z * w) == (x * z) * (y * w),
{
    assert((x * y) * (z * w) == (x * z) * (y * w)) by (nonlinear_arith);
}

/// Right distribution over opaque summands.
proof fn lemma_distrib(x: int, y: int, z: int)
    ensures
        (x + y) * z == x * z + y * z,
{
    assert((x + y) * z == x * z + y * z) by (nonlinear_arith);
}

/// Product reassociation.
proof fn lemma_assoc(x: int, y: int, z: int)
    ensures
        x * (y * z) == (x * y) * z,
{
    assert(x * (y * z) == (x * y) * z) by (nonlinear_arith);
}

/// The scaled squared distance factors through the square difference.
proof fn lemma_quad_factor(a: int, b: int, cc: int, n: int, m: int)
    ensures
        a * (n * n) + b * (n * m) + cc * (m * m) - ((a + b + cc) * (m * m)) == (n - m) * (a * (n
            + m) + b * m),
{
    lemma_distrib(a * (n + m), b * m, n - m);
    assert((n + m) * (n - m) == n * n - m * m) by (nonlinear_arith);
    lemma_assoc(a, n + m, n - m);
    assert(a * (n * n - m * m) == a * (n * n) - a * (m * m)) by (nonlinear_arith);
    assert((b * m) * (n - m) == b * (n * m) - b * (m * m)) by (nonlinear_arith);
    lemma_distrib(a, b + cc, m * m);
    lemma_distrib(b, cc, m * m);
    assert((a * (n + m)) * (n - m) == a * ((n + m) * (n - m)));
}

/// Left distribution over three opaque summands.
proof fn lemma_distrib3(a: int, x: int, y: int, z: int)
    ensures
        a * (x + y + z) == a * x + a * y + a * z,
{
    assert(a * (x + y + z) == a * x + a * y + a * z) by (nonlinear_arith);
}

/// Four times the leading coefficient times the quadratic completes
/// the square.
proof fn lemma_quad_square(a: int, b: int, cc: int, n: int, m: int)
    ensures
        4 * (a * (a * (n * n) + b * (n * m) + cc * (m * m))) == (2 * (a * n) + b * m) * (2 * (a
            * n) + b * m) + (4 * (a * cc) - b * b) * (m * m),
{
    lemma_binom(2 * (a * n), b * m);
    assert((2 * (a * n)) * (2 * (a * n)) == 4 * ((a * n) * (a * n))) by (nonlinear_arith);
    lemma_mono4(a, n, a, n);
    assert((2 * (a * n)) * (b * m) == 2 * ((a * n) * (b * m))) by (nonlinear_arith);
    lemma_mono4(a, n, b, m);
    lemma_mono4(b, m, b, m);
    lemma_distrib(4 * (a * cc), -(b * b), m * m);
    assert((-(b * b)) * (m * m) == -((b * b) * (m * m))) by (nonlinear_arith);
    lemma_assoc(a, cc, m * m);
    assert((4 * (a * cc)) * (m * m) == 4 * ((a * cc) * (m * m))) by (nonlinear_arith);
    lemma_distrib3(a, a * (n * n), b * (n * m), cc * (m * m));
    assert(a * (a * (n * n)) == (a * a) * (n * n)) by {
        lemma_assoc(a, a, n * n);
    }
    assert(a * (b * (n * m)) == (a * b) * (n * m)) by {
        lemma_assoc(a, b, n * m);
    }
    assert(a * (cc * (m * m)) == (a * cc) * (m * m)) by {
        lemma_assoc(a, cc, m * m);
    }
    assert((a * a) * (n * n) == (a * n) * (a * n)) by {
        lemma_mono4(a, a, n, n);
    }
    assert((a * b) * (n * m) == (a * n) * (b * m)) by {
        lemma_mono4(a, b, n, m);
    }
    assert((b * b) * (m * m) == (b * m) * (b * m)) by {
        lemma_mono4(b, b, m, m);
    }
    assert(a * (a * (n * n) + b * (n * m) + cc * (m * m)) == (a * n) * (a * n) + (a * n) * (b * m)
        + (a * cc) * (m * m)) by (nonlinear_arith)
        requires
            a * (a * (n * n)) == (a * n) * (a * n),
            a * (b * (n * m)) == (a * n) * (b * m),
            a * (cc * (m * m)) == (a * cc) * (m * m),
    ;
}

/// The scaled squared distance from the disc center at parameter
/// `n/m` expands to the quadratic in the ray coefficients.
proof fn lemma_circle_quadratic(ox: int, oy: int, dx: int, dy: int, n: int, m: int)
    ensures
        (ox * m + dx * n) * (ox * m + dx * n) + (oy * m + dy * n) * (oy * m + dy * n) == (dx * dx
            + dy * dy) * (n * n) + (2 * (dx * ox + dy * oy)) * (n * m) + (ox * ox + oy * oy) * (m
            * m),
{
    lemma_binom(ox * m, dx * n);
    lemma_binom(oy * m, dy * n);
    lemma_mono4(ox, m, ox, m);
    lemma_mono4(ox, m, dx, n);
    lemma_mono4(dx, n, dx, n);
    lemma_mono4(oy, m, oy, m);
    lemma_mono4(oy, m, dy, n);
    lemma_mono4(dy, n, dy, n);
    lemma_distrib(dx * dx, dy * dy, n * n);
    lemma_distrib(dx * ox, dy * oy, n * m);
    assert((2 * (dx * ox + dy * oy)) * (n * m) == 2 * ((dx * ox + dy * oy) * (n * m)))
        by (nonlinear_arith);
    lemma_distrib(ox * ox, oy * oy, m * m);
    assert((ox * m) * (dx * n) == (dx * ox) * (n * m)) by {
        lemma_mono4(ox, m, dx, n);
        assert((ox * dx) * (m * n) == (dx * ox) * (n * m));
    }
    assert((oy * m) * (dy * n) == (dy * oy) * (n * m)) by {
        lemma_mono4(oy, m, dy, n);
        assert((oy * dy) * (m * n) == (dy * oy) * (n * m));
    }
}

/// With a nonnegative linear coefficient, the squared distance never
/// drops below its value at the ray origin.
proof fn lemma_circle_b_nonneg(ox: int, oy: int, dx: int, dy: int, r: int, n: int, m: int)
    requires
        0 < m,
        0 <= n,
        2 * (dx * ox + dy * oy) >= 0,
        ox * ox + oy * oy > r * r,
    ensures
        !((ox * m + dx * n) * (ox * m + dx * n) + (oy * m + dy * n) * (oy * m + dy * n) <= (r * m)
            * (r * m)),
{
    lemma_circle_quadratic(ox, oy, dx, dy, n, m);
    let a = dx * dx + dy * dy;
    let b = 2 * (dx * ox + dy * oy);
    let cc = ox * ox + oy * oy;
    assert(a >= 0) by (nonlinear_arith)
        requires
            a == dx * dx + dy * dy,
    ;
    assert(a * (n * n) >= 0) by (nonlinear_arith)
        requires
            a >= 0,
    ;
    assert(b * (n * m) >= 0) by (nonlinear_arith)
        requires
            b >= 0,
            n >= 0,
            m > 0,
    ;
    assert(cc * (m * m) > (r * r) * (m * m)) by (nonlinear_arith)
        requires
            cc > r * r,
            m > 0,
    ;
    assert((r * m) * (r * m) == (r * r) * (m * m)) by (nonlinear_arith);
}

/// With the minimum beyond the segment end, the squared distance never
/// drops below its value at the segment end.
proof fn lemma_circle_min_beyond_end(ox: int, oy: int, dx: int, dy: int, r: int, n: int, m: int)
    requires
        0 < m,
        0 <= n <= m,
        2 * (dx * ox + dy * oy) < 0,
        -(2 * (dx * ox + dy * oy)) >= 2 * (dx * dx + dy * dy),
        (dx * dx + dy * dy) + 2 * (dx * ox + dy * oy) + (ox * ox + oy * oy) > r * r,
    ensures
        !((ox * m + dx * n) * (ox * m + dx * n) + (oy * m + dy * n) * (oy * m + dy * n) <= (r * m)
            * (r * m)),
{
    lemma_circle_quadratic(ox, oy, dx, dy, n, m);
    let a = dx * dx + dy * dy;
    let b = 2 * (dx * ox + dy * oy);
    let cc = ox * ox + oy * oy;
    assert(a >= 0) by (nonlinear_arith)
        requires
            a == dx * dx + dy * dy,
    ;
    lemma_quad_factor(a, b, cc, n, m);
    assert(a * (n + m) + b * m <= m * (2 * a + b)) by (nonlinear_arith)
        requires
            n <= m,
            a >= 0,
            0 < m,
    ;
    assert(m * (2 * a + b) <= 0) by (nonlinear_arith)
        requires
            2 * a + b <= 0,
            m > 0,
    ;
    assert((n - m) * (a * (n + m) + b * m) >= 0) by (nonlinear_arith)
        requires
            n - m <= 0,
            a * (n + m) + b * m <= 0,
    ;
    assert((a + b + cc) * (m * m) > (r * r) * (m * m)) by (nonlinear_arith)
        requires
            a + b + cc > r * r,
            m > 0,
    ;
    assert((r * m) * (r * m) == (r * r) * (m * m)) by (nonlinear_arith);
}

/// With an interior minimum above the radius, no parameter reaches the
/// disc.
proof fn lemma_circle_interior_high(ox: int, oy: int, dx: int, dy: int, r: int, n: int, m: int)
    requires
        0 < m,
        0 <= n <= m,
        2 * (dx * ox + dy * oy) < 0,
        4 * (dx * dx + dy * dy) * ((ox * ox + oy * oy) - r * r) > (2 * (dx * ox + dy * oy)) * (2
            * (dx * ox + dy * oy)),
    ensures
        !((ox * m + dx * n) * (ox * m + dx * n) + (oy * m + dy * n) * (oy * m + dy * n) <= (r * m)
            * (r * m)),
{
    lemma_circle_quadratic(ox, oy, dx, dy, n, m);
    let a = dx * dx + dy * dy;
    let b = 2 * (dx * ox + dy * oy);
    let cc = ox * ox + oy * oy;
    let v = a * (n * n) + b * (n * m) + cc * (m * m);
    assert(a > 0) by (nonlinear_arith)
        requires
            b < 0,
            4 * a * (cc - r * r) > b * b,
            a == dx * dx + dy * dy,
            b == 2 * (dx * ox + dy * oy),
    ;
    lemma_quad_square(a, b, cc, n, m);
    assert(4 * (a * v) == (2 * (a * n) + b * m) * (2 * (a * n) + b * m) + (4 * (a * cc) - b * b)
        * (m * m));
    assert((2 * (a * n) + b * m) * (2 * (a * n) + b * m) >= 0) by (nonlinear_arith);
    assert((4 * (a * cc) - b * b) * (m * m) > (4 * (a * (r * r))) * (m * m)) by (nonlinear_arith)
        requires
            4 * a * (cc - r * r) > b * b,
            m > 0,
            a * cc == a * cc,
    ;
    assert((4 * (a * (r * r))) * (m * m) == 4 * (a * ((r * r) * (m * m)))) by (nonlinear_arith);
    assert(4 * (a * v) > 4 * (a * ((r * r) * (m * m)))) by (nonlinear_arith)
        requires
            4 * (a * v) >= (2 * (a * n) + b * m) * (2 * (a * n) + b * m) + (4 * (a * cc) - b * b)
                * (m * m),
            (2 * (a * n) + b * m) * (2 * (a * n) + b * m) >= 0,
            (4 * (a * cc) - b * b) * (m * m) > (4 * (a * (r * r))) * (m * m),
            (4 * (a * (r * r))) * (m * m) == 4 * (a * ((r * r) * (m * m))),
    ;
    assert(v > (r * r) * (m * m)) by (nonlinear_arith)
        requires
            4 * (a * v) > 4 * (a * ((r * r) * (m * m))),
            a > 0,
    ;
    assert((r * m) * (r * m) == (r * r) * (m * m)) by (nonlinear_arith);
}

/// Decides exactly whether the ray from `o` along `d`, truncated at
/// parameter 1, meets the disc of radius `r` at `c`: the quadratic
/// squared distance along the ray is minimized exactly over the
/// rational parameters of the segment.
#[verifier::rlimit(100)]
pub fn ray_hits_circle(o: Vec2I, d: Vec2I, c: Vec2I, r: i64) -> (hit: bool)
    requires
        o.in_world(),
        c.in_world(),
        d.bounded_spec(1000),
        0 < r <= 1_000_000,
    ensures
        hit == ray_hits_circle_spec(o, d, c, r as int),
{
    let ox = o.x - c.x;
    let oy = o.y - c.y;
    proof {
        assert(0 <= d.x * d.x <= 1_000_000 && 0 <= d.y * d.y <= 1_000_000 && -2_000_000_000_000
            <= d.x * ox <= 2_000_000_000_000 && -2_000_000_000_000 <= d.y * oy
            <= 2_000_000_000_000) by (nonlinear_arith)
            requires
                -1000 <= d.x <= 1000,
                -1000 <= d.y <= 1000,
                -2_000_000_000 <= ox <= 2_000_000_000,
                -2_000_000_000 <= oy <= 2_000_000_000,
        ;
    }
    let a = d.x * d.x + d.y * d.y;
    let b = 2 * (d.x * ox + d.y * oy);
    let cc = dist_sq(o, c);
    proof {
        assert(cc == ox * ox + oy * oy) by (nonlinear_arith)
            requires
                cc == (o.x - c.x) * (o.x - c.x) + (o.y - c.y) * (o.y - c.y),
                ox == o.x - c.x,
                oy == o.y - c.y,
        ;
        assert(0 <= cc <= 8_000_000_000_000_000_000) by (nonlinear_arith)
            requires
                cc == ox * ox + oy * oy,
                -2_000_000_000 <= ox <= 2_000_000_000,
                -2_000_000_000 <= oy <= 2_000_000_000,
        ;
        assert(0 < r * r <= 1_000_000_000_000) by (nonlinear_arith)
            requires
                0 < r <= 1_000_000,
        ;
    }
    let rr = r * r;
    if cc <= rr {
        proof {
            assert(circle_meets_at(o, d, c, r as int, 0, 1)) by {
                lemma_circle_quadratic(ox as int, oy as int, d.x as int, d.y as int, 0, 1);
                assert((r as int * 1) * (r as int * 1) == r * r) by (nonlinear_arith);
            }
        }
        return true;
    }
    let f1 = a + b + cc;
    if f1 <= rr {
        proof {
            assert(circle_meets_at(o, d, c, r as int, 1, 1)) by {
                lemma_circle_quadratic(ox as int, oy as int, d.x as int, d.y as int, 1, 1);
                assert((r as int * 1) * (r as int * 1) == r * r) by (nonlinear_arith);
            }
        }
        return true;
    }
    if b < 0 && -b < 2 * a {
        proof {
            assert(0 <= (4 * a) * (cc - rr) <= 64_000_000_000_000_000_000_000_000)
                by (nonlinear_arith)
                requires
                    0 <= 4 * a <= 8_000_000,
                    0 < cc - rr <= 8_000_000_000_000_000_000,
            ;
            assert(0 <= b * b <= 100_000_000_000_000_000_000_000_000) by (nonlinear_arith)
                requires
                    -10_000_000_000_000 <= b <= 0,
            ;
        }
        let a4 = 4 * a;
        let lhs: i128 = (a4 as i128) * ((cc - rr) as i128);
        let rhs: i128 = (b as i128) * (b as i128);
        proof {
            assert(lhs == (4 * a) * ((cc - rr) as int) && rhs == (b as int) * (b as int));
        }
        if lhs <= rhs {
            proof {
                let ai = a as int;
                let bi = b as int;
                let ni = -bi;
                let mi = 2 * ai;
                assert(ai > 0);
                assert(0 <= ni <= mi);
                assert(circle_meets_at(o, d, c, r as int, ni, mi)) by {
                    lemma_circle_quadratic(ox as int, oy as int, d.x as int, d.y as int, ni, mi);
                    assert(ai * (ni * ni) + bi * (ni * mi) + (cc as int) * (mi * mi) <= ((
                    r as int) * mi) * ((r as int) * mi)) by (nonlinear_arith)
                        requires
                            ai > 0,
                            ni == -bi,
                            mi == 2 * ai,
                            bi < 0,
                            4 * ai * (cc - r * r) <= bi * bi,
                            cc == cc as int,
                    ;
                }
            }
            return true;
        }
        proof {
            assert forall|n: int, m: int|
                0 < m && 0 <= n <= m implies !circle_meets_at(o, d, c, r as int, n, m) by {
                lemma_circle_interior_high(
                    ox as int,
                    oy as int,
                    d.x as int,
                    d.y as int,
                    r as int,
                    n,
                    m,
                );
            }
        }
        return false;
    }
    proof {
        assert forall|n: int, m: int|
            0 < m && 0 <= n <= m implies !circle_meets_at(o, d, c, r as int, n, m) by {
            if b >= 0 {
                lemma_circle_b_nonneg(ox as int, oy as int, d.x as int, d.y as int, r as int, n, m);
            } else {
                lemma_circle_min_beyond_end(
                    ox as int,
                    oy as int,
                    d.x as int,
                    d.y as int,
                    r as int,
                    n,
                    m,
                );
            }
        }
    }
    false
}

/// The ray meets the target's shape at its indexed position: a square
/// of the body's half-extent, or a disc of its radius, by the shape
/// kind.
pub open spec fn ray_hits_shape_spec(
    o: Vec2I,
    d: Vec2I,
    c: Vec2I,
    shape: WolfShape,
    r: int,
) -> bool {
    match shape {
        WolfShape::Cuboid => ray_hits_spec(o, d, c, r),
        WolfShape::Ball => ray_hits_circle_spec(o, d, c, r),
    }
}

/// Exact ray-vs-shape test, dispatched on the shape kind.
pub fn ray_hits_shape(o: Vec2I, d: Vec2I, c: Vec2I, shape: WolfShape, r: i64) -> (hit: bool)
    requires
        o.in_world(),
        c.in_world(),
        d.bounded_spec(1000),
        0 < r <= 1_000_000,
    ensures
        hit == ray_hits_shape_spec(o, d, c, shape, r as int),
{
    match shape {
        WolfShape::Cuboid => ray_hits_box(o, d, c, r),
        WolfShape::Ball => ray_hits_circle(o, d, c, r),
    }
}

} // verus!

//! The movement resolver.
//!
//! Each body's raw per-tick displacement (current transform minus
//! previous transform, projected to the plane) is sub-stepped and
//! resolved against neighbors found through the spatial index: at each
//! candidate position every touching or penetrating contact is
//! collected, the deepest one pushes the candidate out along its
//! normal, and the test repeats up to a fixed retry bound. If contacts
//! remain after the bound, the last candidate stands; the residual
//! overlap is tolerated rather than an error.

use vstd::prelude::*;

use crate::body::Contact;
use crate::body::RADIUS_LIMIT;
use crate::body::bodies_overlap;
use crate::body::contact;
use crate::grid::WolfGrid;
use crate::grid::in_radius;
use crate::math::Vec2I;
use crate::math::Vec3I;
use crate::math::mag;
use crate::math::dist_sq_spec;
use crate::world::WolfActor;
use crate::world::find_actor_index;

verus! {

/// Broad-phase query radius around a candidate position, milli-units.
pub const BROAD_RADIUS: i64 = 4000;

/// Longest sub-step of a displacement, milli-units.
pub const MAX_STEP: i64 = 100;

/// Retry bound of the push-out loop within one sub-step.
pub const RETRY_LIMIT: usize = 5;

/// Actor ids are pairwise distinct.
pub open spec fn actor_ids_unique(actors: Seq<WolfActor>) -> bool {
    forall|i: int, j: int| 0 <= i < j < actors.len() ==> actors[i].id != actors[j].id
}

/// With distinct ids, equal ids mean equal indices.
pub proof fn lemma_same_id_same_index(actors: Seq<WolfActor>, j1: int, j2: int)
    requires
        actor_ids_unique(actors),
        0 <= j1 < actors.len(),
        0 <= j2 < actors.len(),
        actors[j1].id == actors[j2].id,
    ensures
        j1 == j2,
{
    if j1 < j2 {
        assert(actors[j1].id != actors[j2].id);
    } else if j2 < j1 {
        assert(actors[j2].id != actors[j1].id);
    }
}

/// Every body an actor set carries is well-formed.
pub open spec fn bodies_wf(actors: Seq<WolfActor>) -> bool {
    forall|j: int|
        0 <= j < actors.len() ==> ((#[trigger] actors[j]).body matches Option::Some(b) ==> b.wf())
}

/// The actor at index `j` obstructs the actor at index `i` standing at
/// `e`: it is a different entity, carries an enabled body, is present
/// in the index, and its shape at its indexed position overlaps the
/// mover's shape at `e`.
pub open spec fn blocks(
    actors: Seq<WolfActor>,
    gm: Map<u64, Vec2I>,
    i: int,
    e: Vec2I,
    j: int,
) -> bool {
    &&& 0 <= j < actors.len()
    &&& actors[j].id != actors[i].id
    &&& actors[j].body is Some
    &&& !actors[j].body->Some_0.disabled
    &&& gm.contains_key(actors[j].id)
    &&& bodies_overlap(
        actors[i].body->Some_0.shape,
        e,
        actors[i].body->Some_0.radius as int,
        actors[j].body->Some_0.shape,
        gm[actors[j].id],
        actors[j].body->Some_0.radius as int,
    )
}

/// No enabled indexed body other than the mover overlaps the mover's
/// shape at `e`.
pub open spec fn clear_at(actors: Seq<WolfActor>, gm: Map<u64, Vec2I>, i: int, e: Vec2I) -> bool {
    forall|j: int| !(#[trigger] blocks(actors, gm, i, e, j))
}

/// Overlap is symmetric in the two bodies.
pub proof fn lemma_overlap_symm(
    sa: crate::body::WolfShape,
    pa: Vec2I,
    ra: int,
    sb: crate::body::WolfShape,
    pb: Vec2I,
    rb: int,
)
    ensures
        bodies_overlap(sa, pa, ra, sb, pb, rb) == bodies_overlap(sb, pb, rb, sa, pa, ra),
{
    assert(dist_sq_spec(pa, pb) == dist_sq_spec(pb, pa)) by (nonlinear_arith);
    assert(mag(pb.x - pa.x) == mag(pa.x - pb.x));
    assert(mag(pb.y - pa.y) == mag(pa.y - pb.y));
}

/// Bodies within the radius limit that overlap sit within the
/// broad-phase radius of each other.
pub proof fn lemma_overlap_within_broad(
    sa: crate::body::WolfShape,
    pa: Vec2I,
    ra: int,
    sb: crate::body::WolfShape,
    pb: Vec2I,
    rb: int,
)
    requires
        0 < ra <= RADIUS_LIMIT,
        0 < rb <= RADIUS_LIMIT,
        bodies_overlap(sa, pa, ra, sb, pb, rb),
    ensures
        in_radius(pb, pa, BROAD_RADIUS),
{
    let dx = pb.x - pa.x;
    let dy = pb.y - pa.y;
    match (sa, sb) {
        (crate::body::WolfShape::Ball, crate::body::WolfShape::Ball) => {
            assert(dist_sq_spec(pa, pb) <= (ra + rb) * (ra + rb));
            assert((ra + rb) * (ra + rb) <= 4_000_000) by (nonlinear_arith)
                requires
                    0 < ra + rb <= 2000,
            ;
            assert(dist_sq_spec(pb, pa) == dist_sq_spec(pa, pb)) by (nonlinear_arith);
        },
        (crate::body::WolfShape::Cuboid, crate::body::WolfShape::Cuboid) => {
            assert(dist_sq_spec(pb, pa) <= 16_000_000) by (nonlinear_arith)
                requires
                    mag(pb.x - pa.x) <= 2000,
                    mag(pb.y - pa.y) <= 2000,
            ;
        },
        (crate::body::WolfShape::Ball, crate::body::WolfShape::Cuboid) => {
            lemma_gap_overlap_close(pa, ra, pb, rb);
        },
        (crate::body::WolfShape::Cuboid, crate::body::WolfShape::Ball) => {
            lemma_gap_overlap_close(pb, rb, pa, ra);
            assert(dist_sq_spec(pa, pb) == dist_sq_spec(pb, pa)) by (nonlinear_arith);
        },
    }
}

/// A disc that reaches a square stays within the broad-phase radius of
/// its center.
proof fn lemma_gap_overlap_close(c: Vec2I, r: int, b: Vec2I, h: int)
    requires
        0 < r <= RADIUS_LIMIT,
        0 < h <= RADIUS_LIMIT,
        crate::body::ball_box_overlap(c, r, b, h),
    ensures
        dist_sq_spec(b, c) <= BROAD_RADIUS * BROAD_RADIUS,
        dist_sq_spec(c, b) <= BROAD_RADIUS * BROAD_RADIUS,
{
    let gx = crate::body::axis_gap(c.x - b.x, h);
    let gy = crate::body::axis_gap(c.y - b.y, h);
    assert(gx <= r && gy <= r) by (nonlinear_arith)
        requires
            0 <= gx,
            0 <= gy,
            gx * gx + gy * gy <= r * r,
            0 < r,
    ;
    assert(mag(c.x - b.x) <= gx + h && mag(c.y - b.y) <= gy + h);
    assert(dist_sq_spec(b, c) <= 16_000_000 && dist_sq_spec(c, b) <= 16_000_000)
        by (nonlinear_arith)
        requires
            mag(c.x - b.x) <= 2000,
            mag(c.y - b.y) <= 2000,
    ;
}

/// Collects every contact between the mover's shape at `e` and the
/// enabled indexed bodies of other actors: empty exactly when the
/// candidate position is clear. A disabled mover collects nothing and
/// moves freely.
#[verifier::rlimit(60)]
pub fn collect_contacts(actors: &Vec<WolfActor>, i: usize, e: Vec2I, grid: &WolfGrid) -> (cs: Vec<
    Contact,
>)
    requires
        grid.wf(),
        e.in_world(),
        i < actors@.len(),
        actors@[i as int].body is Some,
        bodies_wf(actors@),
        actor_ids_unique(actors@),
    ensures
        !actors@[i as int].body->Some_0.disabled ==> (cs@.len() == 0 <==> clear_at(
            actors@,
            grid@,
            i as int,
            e,
        )),
        actors@[i as int].body->Some_0.disabled ==> cs@.len() == 0,
        forall|k: int|
            0 <= k < cs@.len() ==> {
                &&& -2000 <= (#[trigger] cs@[k]).dist <= 0
                &&& cs@[k].normal.bounded_spec(1000)
            },
{
    let my = actors[i].body.unwrap();
    let mut cs: Vec<Contact> = Vec::new();
    if my.disabled {
        return cs;
    }
    let my_id = actors[i].id;
    let rs = grid.query_around(e, BROAD_RADIUS);
    let m = rs.len();
    let mut q: usize = 0;
    while q < m
        invariant
            grid.wf(),
            e.in_world(),
            i < actors@.len(),
            actors@[i as int].body is Some,
            my == actors@[i as int].body->Some_0,
            my.wf(),
            !my.disabled,
            my_id == actors@[i as int].id,
            bodies_wf(actors@),
            actor_ids_unique(actors@),
            m == rs@.len(),
            q <= m,
            forall|x: int| 0 <= x < rs@.len() ==> {
                &&& grid@.contains_key((#[trigger] rs@[x]).0)
                &&& grid@[rs@[x].0] == rs@[x].1
                &&& in_radius(rs@[x].1, e, BROAD_RADIUS)
            },
            forall|id: u64|
                grid@.contains_key(id) && in_radius(grid@[id], e, BROAD_RADIUS) ==> exists|x: int|
                    0 <= x < rs@.len() && rs@[x] == (id, grid@[id]),
            cs@.len() > 0 ==> exists|j: int| #[trigger] blocks(actors@, grid@, i as int, e, j),
            forall|j: int|
                #[trigger] blocks(actors@, grid@, i as int, e, j) && (exists|x: int|
                    0 <= x < q && (#[trigger] rs@[x]).0 == actors@[j].id) ==> cs@.len() > 0,
            forall|k: int|
                0 <= k < cs@.len() ==> {
                    &&& -2000 <= (#[trigger] cs@[k]).dist <= 0
                    &&& cs@[k].normal.bounded_spec(1000)
                },
        decreases m - q,
    {
        let (oid, opos) = rs[q];
        if oid != my_id {
            if let Some(j) = find_actor_index(actors, oid) {
                let ob = actors[j].body;
                if let Some(ob) = ob {
                    if !ob.disabled {
                        proof {
                            assert(actors@[j as int].body matches Option::Some(b) && b.wf());
                            grid.lemma_wf_positions(oid);
                        }
                        let c = contact(&my, e, &ob, opos);
                        if let Some(c) = c {
                            cs.push(c);
                            proof {
                                assert(bodies_overlap(
                                    my.shape,
                                    e,
                                    my.radius as int,
                                    ob.shape,
                                    opos,
                                    ob.radius as int,
                                ));
                                assert(grid@[actors@[j as int].id] == opos);
                                assert(blocks(actors@, grid@, i as int, e, j as int));
                            }
                        } else {
                            proof {
                                assert forall|j2: int|
                                    #[trigger] blocks(actors@, grid@, i as int, e, j2) && (
                                    exists|x: int|
                                        0 <= x < q + 1 && (#[trigger] rs@[x]).0
                                            == actors@[j2].id) implies cs@.len() > 0 by {
                                    let x = choose|x: int|
                                        0 <= x < q + 1 && (#[trigger] rs@[x]).0 == actors@[j2].id;
                                    if x == q {
                                        assert(actors@[j2].id == oid);
                                        assert(actors@[j as int].id == oid);
                                        lemma_same_id_same_index(actors@, j2, j as int);
                                        assert(false);
                                    }
                                };
                            }
                        }
                    } else {
                        proof {
                            assert forall|j2: int|
                                #[trigger] blocks(actors@, grid@, i as int, e, j2) && (
                                exists|x: int|
                                    0 <= x < q + 1 && (#[trigger] rs@[x]).0 == actors@[j2].id)
                                implies cs@.len() > 0 by {
                                let x = choose|x: int|
                                    0 <= x < q + 1 && (#[trigger] rs@[x]).0 == actors@[j2].id;
                                if x == q {
                                    lemma_same_id_same_index(actors@, j2, j as int);
                                    assert(false);
                                }
                            };
                        }
                    }
                } else {
                    proof {
                        assert forall|j2: int|
                            #[trigger] blocks(actors@, grid@, i as int, e, j2) && (exists|x: int|
                                0 <= x < q + 1 && (#[trigger] rs@[x]).0 == actors@[j2].id)
                            implies cs@.len() > 0 by {
                            let x = choose|x: int|
                                0 <= x < q + 1 && (#[trigger] rs@[x]).0 == actors@[j2].id;
                            if x == q {
                                lemma_same_id_same_index(actors@, j2, j as int);
                                assert(false);
                            }
                        };
                    }
                }
            } else {
                proof {
                    assert forall|j2: int|
                        #[trigger] blocks(actors@, grid@, i as int, e, j2) && (exists|x: int|
                            0 <= x < q + 1 && (#[trigger] rs@[x]).0 == actors@[j2].id)
                        implies cs@.len() > 0 by {
                        let x = choose|x: int|
                            0 <= x < q + 1 && (#[trigger] rs@[x]).0 == actors@[j2].id;
                        if x == q {
                            assert(actors@[j2].id == oid);
                            assert(false);
                        }
                    };
                }
            }
        } else {
            proof {
                assert forall|j2: int|
                    #[trigger] blocks(actors@, grid@, i as int, e, j2) && (exists|x: int|
                        0 <= x < q + 1 && (#[trigger] rs@[x]).0 == actors@[j2].id)
                    implies cs@.len() > 0 by {
                    let x = choose|x: int|
                        0 <= x < q + 1 && (#[trigger] rs@[x]).0 == actors@[j2].id;
                    if x == q {
                        assert(actors@[j2].id == my_id);
                        assert(false);
                    }
                };
            }
        }
        q += 1;
    }
    proof {
        if cs@.len() == 0 {
            assert forall|j: int| !(#[trigger] blocks(actors@, grid@, i as int, e, j)) by {
                if blocks(actors@, grid@, i as int, e, j) {
                    lemma_overlap_within_broad(
                        actors@[i as int].body->Some_0.shape,
                        e,
                        actors@[i as int].body->Some_0.radius as int,
                        actors@[j].body->Some_0.shape,
                        grid@[actors@[j].id],
                        actors@[j].body->Some_0.radius as int,
                    );
                    let x = choose|x: int|
                        0 <= x < rs@.len() && rs@[x] == (actors@[j].id, grid@[actors@[j].id]);
                    assert(rs@[x].0 == actors@[j].id);
                    assert(false);
                }
            };
        }
    }
    cs
}

/// The deepest contact of a nonempty collection: minimal (most
/// negative) separation distance.
pub fn min_contact(cs: &Vec<Contact>) -> (r: Contact)
    requires
        cs@.len() > 0,
        forall|k: int|
            0 <= k < cs@.len() ==> {
                &&& -2000 <= (#[trigger] cs@[k]).dist <= 0
                &&& cs@[k].normal.bounded_spec(1000)
            },
    ensures
        -2000 <= r.dist <= 0,
        r.normal.bounded_spec(1000),
        forall|k: int| 0 <= k < cs@.len() ==> r.dist <= (#[trigger] cs@[k]).dist,
{
    let n = cs.len();
    let mut best = cs[0];
    let mut k: usize = 1;
    while k < n
        invariant
            n == cs@.len(),
            1 <= k <= n,
            forall|x: int|
                0 <= x < cs@.len() ==> {
                    &&& -2000 <= (#[trigger] cs@[x]).dist <= 0
                    &&& cs@[x].normal.bounded_spec(1000)
                },
            -2000 <= best.dist <= 0,
            best.normal.bounded_spec(1000),
            forall|x: int| 0 <= x < k ==> best.dist <= (#[trigger] cs@[x]).dist,
        decreases n - k,
    {
        if cs[k].dist < best.dist {
            best = cs[k];
        }
        k += 1;
    }
    best
}

/// A per-mille direction component times a step length, rounded toward
/// zero: at most the step in magnitude.
fn mul_dir(a: i64, s: i64) -> (r: i64)
    requires
        -1000 <= a <= 1000,
        0 <= s <= MAX_STEP,
    ensures
        -s <= r <= s,
{
    let m = if a >= 0 {
        a
    } else {
        -a
    };
    proof {
        assert(0 <= m * s <= 100_000) by (nonlinear_arith)
            requires
                0 <= m <= 1000,
                0 <= s <= 100,
        ;
        assert((m * s) / 1000 <= s && 0 <= (m * s) / 1000) by (nonlinear_arith)
            requires
                0 <= m <= 1000,
                0 <= s,
        ;
    }
    let q = (((m as u64) * (s as u64)) / 1000) as i64;
    if a >= 0 {
        q
    } else {
        -q
    }
}

/// One component of the push-out vector: the contact normal component
/// times the separation distance, scaled by the separation margin of
/// 1.2, rounded toward zero. Bounded by 2400 milli-units.
fn pushback_comp(n: i64, dist: i64) -> (r: i64)
    requires
        -1000 <= n <= 1000,
        -2000 <= dist <= 0,
    ensures
        -2400 <= r <= 2400,
{
    let m = if n >= 0 {
        n
    } else {
        -n
    };
    let d = -dist;
    proof {
        assert(0 <= m * d <= 2_000_000) by (nonlinear_arith)
            requires
                0 <= m <= 1000,
                0 <= d <= 2000,
        ;
        assert(((m * d) * 12) / 10_000 <= 2400 && 0 <= ((m * d) * 12) / 10_000)
            by (nonlinear_arith)
            requires
                0 <= m <= 1000,
                0 <= d <= 2000,
        ;
    }
    let q = ((((m as u64) * (d as u64)) * 12) / 10_000) as i64;
    if n >= 0 {
        -q
    } else {
        q
    }
}

/// Resolves one actor's raw displacement into a collision-respecting
/// plane position. The displacement is cut into sub-steps of at most
/// `MAX_STEP`; at each sub-step the deepest contact pushes the
/// candidate out along its normal, up to `RETRY_LIMIT` tries, after
/// which the last candidate stands (soft failure, residual overlap
/// tolerated). The flag is definitive: it is set exactly when the
/// mover is enabled and its final position, tested once more against
/// the index, is clear of every enabled neighbor.
#[verifier::rlimit(100)]
pub fn resolve_move(actors: &Vec<WolfActor>, i: usize, grid: &WolfGrid) -> (r: (Vec2I, bool))
    requires
        grid.wf(),
        i < actors@.len(),
        actors@[i as int].body is Some,
        bodies_wf(actors@),
        actor_ids_unique(actors@),
        actors@[i as int].prev.bounded_spec(crate::math::POS_LIMIT),
        actors@[i as int].pos.plane_spec() != actors@[i as int].prev.plane_spec(),
        -crate::math::MOVE_LIMIT <= actors@[i as int].pos.x - actors@[i as int].prev.x
            <= crate::math::MOVE_LIMIT,
        -crate::math::MOVE_LIMIT <= actors@[i as int].pos.y - actors@[i as int].prev.y
            <= crate::math::MOVE_LIMIT,
    ensures
        r.0.in_world(),
        r.1 == (!actors@[i as int].body->Some_0.disabled && clear_at(
            actors@,
            grid@,
            i as int,
            r.0,
        )),
{
    let p0 = actors[i].prev.plane();
    let p1 = actors[i].pos.plane();
    let dx = p1.x - p0.x;
    let dy = p1.y - p0.y;
    let my_disabled = actors[i].body.unwrap().disabled;
    proof {
        assert(0 <= dx * dx <= 2_500_000_000 && 0 <= dy * dy <= 2_500_000_000)
            by (nonlinear_arith)
            requires
                -50_000 <= dx <= 50_000,
                -50_000 <= dy <= 50_000,
        ;
    }
    let d2 = dx * dx + dy * dy;
    proof {
        assert(d2 >= 1) by (nonlinear_arith)
            requires
                d2 == dx * dx + dy * dy,
                dx != 0 || dy != 0,
        ;
    }
    let vu = crate::math::isqrt(d2 as u64);
    proof {
        assert((vu as int) * (vu as int) <= d2 as int);
        assert((d2 as int) < ((vu as int) + 1) * ((vu as int) + 1));
        assert(vu as int <= 71_000) by (nonlinear_arith)
            requires
                (vu as int) * (vu as int) <= 5_000_000_000,
                0 <= vu as int,
        ;
    }
    let vl0 = vu as i64;
    proof {
        assert(vl0 >= 1) by (nonlinear_arith)
            requires
                d2 >= 1,
                (d2 as int) < ((vl0 as int) + 1) * ((vl0 as int) + 1),
                vl0 >= 0,
        ;
        assert(dx * dx <= d2 && dy * dy <= d2) by (nonlinear_arith)
            requires
                d2 == dx * dx + dy * dy,
        ;
        assert(mag(dx as int) <= vl0 && mag(dy as int) <= vl0) by (nonlinear_arith)
            requires
                dx * dx <= d2,
                dy * dy <= d2,
                (d2 as int) < ((vl0 as int) + 1) * ((vl0 as int) + 1),
                0 <= vl0,
        ;
    }
    let dirx = crate::body::scaled_dir_exec(dx, vl0);
    let diry = crate::body::scaled_dir_exec(dy, vl0);
    let mut vl = vl0;
    let mut nt = p0;
    while vl > 0
        invariant
            grid.wf(),
            i < actors@.len(),
            actors@[i as int].body is Some,
            my_disabled == actors@[i as int].body->Some_0.disabled,
            bodies_wf(actors@),
            actor_ids_unique(actors@),
            1 <= vl0 <= 71_000,
            0 <= vl <= vl0,
            -1000 <= dirx <= 1000,
            -1000 <= diry <= 1000,
            -1_000_000 - (vl0 - vl) * 12_101 <= nt.x <= 1_000_000 + (vl0 - vl) * 12_101,
            -1_000_000 - (vl0 - vl) * 12_101 <= nt.y <= 1_000_000 + (vl0 - vl) * 12_101,
        decreases vl,
    {
        let step = if vl < MAX_STEP {
            vl
        } else {
            MAX_STEP
        };
        let ghost vlb = vl as int;
        let ghost ntb = nt;
        vl = vl - step;
        let mut vx = mul_dir(dirx, step);
        let mut vy = mul_dir(diry, step);
        let mut retry = true;
        let mut tries: usize = 0;
        while retry && tries < RETRY_LIMIT
            invariant
                grid.wf(),
                i < actors@.len(),
                actors@[i as int].body is Some,
                my_disabled == actors@[i as int].body->Some_0.disabled,
                bodies_wf(actors@),
                actor_ids_unique(actors@),
                1 <= step <= MAX_STEP,
                tries <= RETRY_LIMIT,
                -1_000_000 - 71_000 * 12_101 <= ntb.x <= 1_000_000 + 71_000 * 12_101,
                -1_000_000 - 71_000 * 12_101 <= ntb.y <= 1_000_000 + 71_000 * 12_101,
                -(step + tries * 2400) <= nt.x - ntb.x <= step + tries * 2400,
                -(step + tries * 2400) <= nt.y - ntb.y <= step + tries * 2400,
                tries == 0 ==> nt == ntb && -step <= vx <= step && -step <= vy <= step,
                tries >= 1 ==> vx == 0 && vy == 0,
                !retry ==> my_disabled || clear_at(actors@, grid@, i as int, nt),
            decreases RETRY_LIMIT - tries,
        {
            tries = tries + 1;
            let e = Vec2I { x: nt.x + vx, y: nt.y + vy };
            let cs = collect_contacts(actors, i, e, grid);
            if cs.len() > 0 {
                let c = min_contact(&cs);
                vx = vx + pushback_comp(c.normal.x, c.dist);
                vy = vy + pushback_comp(c.normal.y, c.dist);
            } else {
                retry = false;
            }
            nt = Vec2I { x: nt.x + vx, y: nt.y + vy };
            proof {
                if !retry {
                    assert(nt == e);
                }
            }
            vx = 0;
            vy = 0;
        }
        proof {
            assert(12_000 <= 12_100 * step);
            assert((vl0 - vlb) * 12_101 + 12_101 * step == (vl0 - vl) * 12_101)
                by (nonlinear_arith)
                requires
                    vl == vlb - step,
        ;
        }
    }
    proof {
        assert((vl0 - vl) * 12_101 <= 71_000 * 12_101) by (nonlinear_arith)
            requires
                vl0 - vl <= 71_000,
                0 <= vl0 - vl,
        ;
    }
    let cs = collect_contacts(actors, i, nt, grid);
    (nt, !my_disabled && cs.len() == 0)
}

/// The whole world is ready for resolution: indices and components
/// well-formed, and every raw displacement within the per-tick bound.
pub open spec fn pre_resolve(w: crate::world::WolfWorld) -> bool {
    &&& w.grid.wf()
    &&& actor_ids_unique(w.actors@)
    &&& bodies_wf(w.actors@)
    &&& forall|i: int|
        0 <= i < w.actors@.len() ==> {
            let a = #[trigger] w.actors@[i];
            &&& a.prev.bounded_spec(crate::math::POS_LIMIT)
            &&& -crate::math::POS_LIMIT <= a.pos.z <= crate::math::POS_LIMIT
            &&& -crate::math::MOVE_LIMIT <= a.pos.x - a.prev.x <= crate::math::MOVE_LIMIT
            &&& -crate::math::MOVE_LIMIT <= a.pos.y - a.prev.y <= crate::math::MOVE_LIMIT
            &&& (a.body is None ==> a.pos.bounded_spec(crate::math::POS_LIMIT))
            &&& a.facing.bounded_spec(1000)
            &&& (a.door matches Option::Some(d) ==> crate::door::door_wf(d))
            &&& (a.push matches Option::Some(p) ==> crate::push::push_vel_wf(p.vel))
        }
}

/// The plane projection of the position changed this tick.
pub open spec fn plane_moved(a: WolfActor) -> bool {
    a.pos.plane_spec() != a.prev.plane_spec()
}

/// What resolution leaves behind for the entry at index `i`: an
/// unmoved or bodiless entity keeps its position and is unflagged; a
/// resolved one keeps its incoming z and stays within the arena; a
/// flagged one carries an enabled body and stands in the index at its
/// final plane position.
pub open spec fn resolved_entry(
    wold: crate::world::WolfWorld,
    w: crate::world::WolfWorld,
    flags: Seq<bool>,
    i: int,
) -> bool {
    &&& (!plane_moved(wold.actors@[i]) || wold.actors@[i].body is None ==> w.actors@[i].pos
        == wold.actors@[i].pos && !flags[i])
    &&& (plane_moved(wold.actors@[i]) && wold.actors@[i].body is Some ==> w.actors@[i].pos.z
        == wold.actors@[i].pos.z)
    &&& w.actors@[i].pos.bounded_spec(crate::math::POS_LIMIT)
    &&& (flags[i] ==> wold.actors@[i].body is Some && !wold.actors@[i].body->Some_0.disabled)
    &&& (flags[i] ==> w.grid@.contains_key(w.actors@[i].id) && w.grid@[w.actors@[i].id]
        == w.actors@[i].pos.plane_spec())
}

/// Two flagged entries do not overlap.
pub open spec fn resolved_separated(w: crate::world::WolfWorld, flags: Seq<bool>, i1: int, i2: int) -> bool {
    flags[i1] && flags[i2] ==> !bodies_overlap(
        w.actors@[i1].body->Some_0.shape,
        w.actors@[i1].pos.plane_spec(),
        w.actors@[i1].body->Some_0.radius as int,
        w.actors@[i2].body->Some_0.shape,
        w.actors@[i2].pos.plane_spec(),
        w.actors@[i2].body->Some_0.radius as int,
    )
}

/// Every actor's id stands in the index at its previous plane
/// position; the state the tick's rebuild leaves, since the shadow
/// snapshot and the rebuild both run before any movement.
pub open spec fn grid_matches_prev(w: crate::world::WolfWorld) -> bool {
    forall|j: int|
        0 <= j < w.actors@.len() ==> {
            &&& w.grid@.contains_key((#[trigger] w.actors@[j]).id)
            &&& w.grid@[w.actors@[j].id] == w.actors@[j].prev.plane_spec()
        }
}

/// The actor at `j` is an enabled stationary obstacle: it carries an
/// enabled body and its raw displacement is zero.
pub open spec fn still_obstacle(wold: crate::world::WolfWorld, j: int) -> bool {
    &&& wold.actors@[j].body is Some
    &&& !wold.actors@[j].body->Some_0.disabled
    &&& !plane_moved(wold.actors@[j])
}

/// A flagged mover does not overlap a stationary enabled obstacle.
pub open spec fn resolved_clear_of_still(
    wold: crate::world::WolfWorld,
    w: crate::world::WolfWorld,
    flags: Seq<bool>,
    i: int,
    j: int,
) -> bool {
    flags[i] && still_obstacle(wold, j) ==> !bodies_overlap(
        w.actors@[i].body->Some_0.shape,
        w.actors@[i].pos.plane_spec(),
        w.actors@[i].body->Some_0.radius as int,
        w.actors@[j].body->Some_0.shape,
        w.actors@[j].pos.plane_spec(),
        w.actors@[j].body->Some_0.radius as int,
    )
}

/// Identity agreement shorthand for the flag-equality proof.
pub open spec fn same_identity_here(a: WolfActor, b: WolfActor) -> bool {
    crate::world::same_identity(a, b)
}

/// The plane position the mover at index `i` saw for the actor at
/// index `j` when it was resolved: already-resolved movers stand at
/// their committed position, everyone else at the previous-transform
/// position the tick's rebuild indexed.
pub open spec fn seen_plane(
    wold: crate::world::WolfWorld,
    wnew: crate::world::WolfWorld,
    i: int,
    j: int,
) -> Vec2I {
    if j < i && plane_moved(wold.actors@[j]) && wold.actors@[j].body is Some {
        wnew.actors@[j].pos.plane_spec()
    } else {
        wold.actors@[j].prev.plane_spec()
    }
}

/// The actor at `j` obstructed the mover at `i` at its final position.
pub open spec fn blocks_seen(
    wold: crate::world::WolfWorld,
    wnew: crate::world::WolfWorld,
    i: int,
    j: int,
) -> bool {
    &&& 0 <= j < wold.actors@.len()
    &&& wold.actors@[j].id != wold.actors@[i].id
    &&& wold.actors@[j].body is Some
    &&& !wold.actors@[j].body->Some_0.disabled
    &&& bodies_overlap(
        wold.actors@[i].body->Some_0.shape,
        wnew.actors@[i].pos.plane_spec(),
        wold.actors@[i].body->Some_0.radius as int,
        wold.actors@[j].body->Some_0.shape,
        seen_plane(wold, wnew, i, j),
        wold.actors@[j].body->Some_0.radius as int,
    )
}

/// Exactly when the flag is set: the entity moved, carries an enabled
/// body, and its final position is clear of every other enabled body
/// at the position the mover saw for it.
pub open spec fn flag_spec(
    wold: crate::world::WolfWorld,
    wnew: crate::world::WolfWorld,
    i: int,
) -> bool {
    &&& plane_moved(wold.actors@[i])
    &&& wold.actors@[i].body is Some
    &&& !wold.actors@[i].body->Some_0.disabled
    &&& (forall|j: int| !(#[trigger] blocks_seen(wold, wnew, i, j)))
}

/// Resolves every body in storage order and commits each result into
/// the transform (keeping the previous z) and into the spatial index
/// before the next body runs: later bodies see already-resolved
/// neighbors. The returned flags are definitive: a flag is set exactly
/// when the body moved, is enabled, and its final position is clear of
/// every other enabled body at the position the mover saw for it; any
/// two flagged bodies, and a flagged body and any stationary enabled
/// one, end the tick without overlap.
#[verifier::rlimit(100)]
pub fn resolve_all(w: &mut crate::world::WolfWorld) -> (flags: Vec<bool>)
    requires
        pre_resolve(*old(w)),
        grid_matches_prev(*old(w)),
    ensures
        flags@.len() == old(w).actors@.len(),
        final(w).actors@.len() == old(w).actors@.len(),
        final(w).wf(),
        forall|i: int|
            0 <= i < old(w).actors@.len() ==> {
                &&& crate::world::same_identity(
                    #[trigger] final(w).actors@[i],
                    old(w).actors@[i],
                )
                &&& final(w).actors@[i].prev == old(w).actors@[i].prev
                &&& final(w).actors@[i].body == old(w).actors@[i].body
                &&& final(w).actors@[i].door == old(w).actors@[i].door
                &&& final(w).actors@[i].push == old(w).actors@[i].push
            },
        forall|i: int|
            0 <= i < old(w).actors@.len() ==> #[trigger] resolved_entry(
                *old(w),
                *final(w),
                flags@,
                i,
            ),
        forall|i1: int, i2: int|
            0 <= i1 < old(w).actors@.len() && 0 <= i2 < old(w).actors@.len() && i1 != i2
                ==> #[trigger] resolved_separated(*final(w), flags@, i1, i2),
        forall|i: int, j: int|
            0 <= i < old(w).actors@.len() && 0 <= j < old(w).actors@.len() && i != j
                ==> #[trigger] resolved_clear_of_still(*old(w), *final(w), flags@, i, j),
        forall|i: int|
            0 <= i < old(w).actors@.len() ==> flags@[i] == #[trigger] flag_spec(
                *old(w),
                *final(w),
                i,
            ),
        forall|j: int|
            0 <= j < old(w).actors@.len() ==> {
                &&& final(w).grid@.contains_key((#[trigger] final(w).actors@[j]).id)
                &&& (plane_moved(old(w).actors@[j]) && old(w).actors@[j].body is Some
                    ==> final(w).grid@[final(w).actors@[j].id]
                    == final(w).actors@[j].pos.plane_spec())
                &&& (!(plane_moved(old(w).actors@[j]) && old(w).actors@[j].body is Some)
                    ==> final(w).grid@[final(w).actors@[j].id]
                    == old(w).actors@[j].prev.plane_spec())
            },
{
    let n = w.actors.len();
    let mut flags: Vec<bool> = Vec::new();
    let mut idx: usize = 0;
    while idx < n
        invariant
            pre_resolve(*old(w)),
            n == w.actors@.len() == old(w).actors@.len(),
            idx <= n,
            flags@.len() == idx,
            w.grid.wf(),
            forall|i: int|
                0 <= i < n ==> {
                    &&& crate::world::same_identity(#[trigger] w.actors@[i], old(w).actors@[i])
                    &&& w.actors@[i].prev == old(w).actors@[i].prev
                    &&& w.actors@[i].body == old(w).actors@[i].body
                    &&& w.actors@[i].door == old(w).actors@[i].door
                    &&& w.actors@[i].push == old(w).actors@[i].push
                },
            forall|i: int| idx <= i < n ==> #[trigger] w.actors@[i] == old(w).actors@[i],
            actor_ids_unique(w.actors@),
            bodies_wf(w.actors@),
            forall|i: int|
                0 <= i < idx ==> #[trigger] resolved_entry(*old(w), *w, flags@, i),
            forall|i1: int, i2: int|
                0 <= i1 < idx && 0 <= i2 < idx && i1 != i2 ==> #[trigger] resolved_separated(
                    *w,
                    flags@,
                    i1,
                    i2,
                ),
            forall|j: int|
                0 <= j < n ==> {
                    &&& w.grid@.contains_key((#[trigger] w.actors@[j]).id)
                    &&& (!(j < idx && plane_moved(old(w).actors@[j]) && old(w).actors@[j].body
                        is Some) ==> w.grid@[w.actors@[j].id]
                        == old(w).actors@[j].prev.plane_spec())
                    &&& (j < idx && plane_moved(old(w).actors@[j]) && old(w).actors@[j].body
                        is Some ==> w.grid@[w.actors@[j].id] == w.actors@[j].pos.plane_spec())
                },
            forall|i: int, j: int|
                0 <= i < idx && 0 <= j < n && i != j ==> #[trigger] resolved_clear_of_still(
                    *old(w),
                    *w,
                    flags@,
                    i,
                    j,
                ),
            forall|i: int|
                0 <= i < idx ==> flags@[i] == #[trigger] flag_spec(*old(w), *w, i),
        decreases n - idx,
    {
        proof {
            assert(w.actors@[idx as int] == old(w).actors@[idx as int]);
        }
        let ghost ws = *w;
        let ghost flags_s = flags@;
        let has_body = w.actors[idx].body.is_some();
        let p0 = w.actors[idx].prev.plane();
        let p1 = w.actors[idx].pos.plane();
        if !has_body || (p0.x == p1.x && p0.y == p1.y) {
            flags.push(false);
            proof {
                assert(resolved_entry(*old(w), *w, flags@, idx as int));
                assert forall|i: int| 0 <= i < idx + 1 implies #[trigger] resolved_entry(
                    *old(w),
                    *w,
                    flags@,
                    i,
                ) by {
                    if i < idx {
                        assert(flags@[i] == flags_s[i]);
                        assert(resolved_entry(*old(w), ws, flags_s, i));
                    }
                };
                assert forall|i1: int, i2: int|
                    0 <= i1 < idx + 1 && 0 <= i2 < idx + 1 && i1 != i2
                        implies #[trigger] resolved_separated(*w, flags@, i1, i2) by {
                    if i1 < idx && i2 < idx {
                        assert(resolved_separated(ws, flags_s, i1, i2));
                        assert(flags@[i1] == flags_s[i1] && flags@[i2] == flags_s[i2]);
                    } else {
                        assert(!flags@[idx as int]);
                    }
                };
                assert forall|i: int, j: int|
                    0 <= i < idx + 1 && 0 <= j < n && i != j
                        implies #[trigger] resolved_clear_of_still(*old(w), *w, flags@, i, j) by {
                    if i < idx {
                        assert(resolved_clear_of_still(*old(w), ws, flags_s, i, j));
                        assert(flags@[i] == flags_s[i]);
                        assert(w.actors@[i] == ws.actors@[i] && w.actors@[j] == ws.actors@[j]);
                    } else {
                        assert(!flags@[idx as int]);
                    }
                };
                assert forall|i2: int|
                    0 <= i2 < idx + 1 implies flags@[i2] == #[trigger] flag_spec(
                    *old(w),
                    *w,
                    i2,
                ) by {
                    if i2 < idx {
                        assert(flags@[i2] == flags_s[i2]);
                        assert(flags_s[i2] == flag_spec(*old(w), ws, i2));
                        assert(w.actors@ == ws.actors@);
                    } else {
                        assert(!flags@[idx as int]);
                        assert(!flag_spec(*old(w), *w, idx as int));
                    }
                };
            }
        } else {
            let (np, clean) = resolve_move(&w.actors, idx, &w.grid);
            let id = w.actors[idx].id;
            let pz = w.actors[idx].pos.z;
            let ok = np.x >= -crate::math::POS_LIMIT && np.x <= crate::math::POS_LIMIT && np.y
                >= -crate::math::POS_LIMIT && np.y <= crate::math::POS_LIMIT;
            let committed: Vec2I = if ok {
                np
            } else {
                p0
            };
            let flag = if ok {
                clean
            } else {
                let disabled = w.actors[idx].body.unwrap().disabled;
                let cs2 = collect_contacts(&w.actors, idx, p0, &w.grid);
                !disabled && cs2.len() == 0
            };
            w.actors[idx].pos = Vec3I { x: committed.x, y: committed.y, z: pz };
            w.grid.insert_or_replace(id, committed);
            flags.push(flag);
            proof {
                assert(w.actors@[idx as int].pos.plane_spec() == committed);
                assert(w.grid@[id] == committed);
                assert(resolved_entry(*old(w), *w, flags@, idx as int));
                assert forall|i: int| 0 <= i < idx + 1 implies #[trigger] resolved_entry(
                    *old(w),
                    *w,
                    flags@,
                    i,
                ) by {
                    if i < idx {
                        assert(flags@[i] == flags_s[i]);
                        assert(resolved_entry(*old(w), ws, flags_s, i));
                        assert(w.actors@[i] == ws.actors@[i]);
                        if flags_s[i] {
                            assert(ws.actors@[i].id != id) by {
                                if ws.actors@[i].id == ws.actors@[idx as int].id {
                                    lemma_same_id_same_index(ws.actors@, i, idx as int);
                                }
                            }
                            assert(w.grid@.contains_key(w.actors@[i].id));
                            assert(w.grid@[w.actors@[i].id] == ws.grid@[ws.actors@[i].id]);
                        }
                    }
                };
                assert forall|i1: int, i2: int|
                    0 <= i1 < idx + 1 && 0 <= i2 < idx + 1 && i1 != i2
                        implies #[trigger] resolved_separated(*w, flags@, i1, i2) by {
                    if i1 < idx && i2 < idx {
                        assert(resolved_separated(ws, flags_s, i1, i2));
                        assert(flags@[i1] == flags_s[i1] && flags@[i2] == flags_s[i2]);
                        assert(w.actors@[i1] == ws.actors@[i1] && w.actors@[i2] == ws.actors@[i2]);
                    } else if flag && (i1 == idx || i2 == idx) {
                        let j = if i1 == idx {
                            i2
                        } else {
                            i1
                        };
                        if flags@[j] {
                            assert(flags_s[j] == flags@[j]);
                            assert(resolved_entry(*old(w), ws, flags_s, j));
                            assert(w.actors@[j] == ws.actors@[j]);
                            assert(ws.actors@[j].id != id) by {
                                if ws.actors@[j].id == ws.actors@[idx as int].id {
                                    lemma_same_id_same_index(ws.actors@, j, idx as int);
                                }
                            }
                            assert(clear_at(ws.actors@, ws.grid@, idx as int, committed));
                            assert(!blocks(ws.actors@, ws.grid@, idx as int, committed, j));
                            assert(ws.grid@.contains_key(ws.actors@[j].id));
                            assert(ws.grid@[ws.actors@[j].id] == ws.actors@[j].pos.plane_spec());
                            assert(!bodies_overlap(
                                ws.actors@[idx as int].body->Some_0.shape,
                                committed,
                                ws.actors@[idx as int].body->Some_0.radius as int,
                                ws.actors@[j].body->Some_0.shape,
                                ws.actors@[j].pos.plane_spec(),
                                ws.actors@[j].body->Some_0.radius as int,
                            ));
                            lemma_overlap_symm(
                                ws.actors@[idx as int].body->Some_0.shape,
                                committed,
                                ws.actors@[idx as int].body->Some_0.radius as int,
                                ws.actors@[j].body->Some_0.shape,
                                ws.actors@[j].pos.plane_spec(),
                                ws.actors@[j].body->Some_0.radius as int,
                            );
                            assert(w.actors@[idx as int].pos.plane_spec() == committed);
                        }
                    } else {
                        assert(!flags@[idx as int] || (i1 != idx && i2 != idx));
                    }
                };
                assert forall|i2: int|
                    0 <= i2 < idx + 1 implies flags@[i2] == #[trigger] flag_spec(
                    *old(w),
                    *w,
                    i2,
                ) by {
                    if i2 < idx {
                        assert(flags@[i2] == flags_s[i2]);
                        assert(flags_s[i2] == flag_spec(*old(w), ws, i2));
                        assert(w.actors@[i2] == ws.actors@[i2]);
                        assert forall|j: int|
                            blocks_seen(*old(w), *w, i2, j) == blocks_seen(
                            *old(w),
                            ws,
                            i2,
                            j,
                        ) by {
                            if 0 <= j < i2 {
                                assert(w.actors@[j] == ws.actors@[j]);
                            }
                        };
                        if flag_spec(*old(w), ws, i2) && !flag_spec(*old(w), *w, i2) {
                            let jj = choose|jj: int| blocks_seen(*old(w), *w, i2, jj);
                            assert(blocks_seen(*old(w), ws, i2, jj));
                            assert(false);
                        }
                        if !flag_spec(*old(w), ws, i2) && flag_spec(*old(w), *w, i2) {
                            let jj = choose|jj: int| blocks_seen(*old(w), ws, i2, jj);
                            assert(blocks_seen(*old(w), *w, i2, jj));
                            assert(false);
                        }
                    } else {
                        assert(plane_moved(old(w).actors@[idx as int]));
                        assert(old(w).actors@[idx as int].body is Some);
                        assert forall|j: int|
                            blocks(ws.actors@, ws.grid@, idx as int, committed, j) == blocks_seen(
                            *old(w),
                            *w,
                            idx as int,
                            j,
                        ) by {
                            if 0 <= j < n {
                                assert(same_identity_here(ws.actors@[j], old(w).actors@[j]));
                                assert(ws.grid@.contains_key(ws.actors@[j].id));
                                if j < idx && plane_moved(old(w).actors@[j]) && old(
                                    w,
                                ).actors@[j].body is Some {
                                    assert(ws.grid@[ws.actors@[j].id]
                                        == ws.actors@[j].pos.plane_spec());
                                    assert(w.actors@[j] == ws.actors@[j]);
                                } else {
                                    assert(ws.grid@[ws.actors@[j].id]
                                        == old(w).actors@[j].prev.plane_spec());
                                }
                                assert(w.actors@[idx as int].pos.plane_spec() == committed);
                            }
                        };
                        assert(flags@[idx as int] == (!old(
                            w,
                        ).actors@[idx as int].body->Some_0.disabled && clear_at(
                            ws.actors@,
                            ws.grid@,
                            idx as int,
                            committed,
                        )));
                        if flags@[idx as int] != flag_spec(*old(w), *w, idx as int) {
                            if flags@[idx as int] {
                                assert forall|j: int|
                                    !(#[trigger] blocks_seen(*old(w), *w, idx as int, j)) by {
                                    assert(!blocks(ws.actors@, ws.grid@, idx as int, committed, j));
                                };
                                assert(false);
                            } else {
                                if flag_spec(*old(w), *w, idx as int) {
                                    assert forall|j: int|
                                        !(#[trigger] blocks(
                                        ws.actors@,
                                        ws.grid@,
                                        idx as int,
                                        committed,
                                        j,
                                    )) by {
                                        assert(!blocks_seen(*old(w), *w, idx as int, j));
                                    };
                                    assert(clear_at(ws.actors@, ws.grid@, idx as int, committed));
                                    assert(false);
                                }
                            }
                        }
                    }
                };
                assert forall|i: int, j: int|
                    0 <= i < idx + 1 && 0 <= j < n && i != j
                        implies #[trigger] resolved_clear_of_still(*old(w), *w, flags@, i, j) by {
                    if i < idx {
                        assert(resolved_clear_of_still(*old(w), ws, flags_s, i, j));
                        assert(flags_s[i] == flags@[i]);
                        assert(w.actors@[i] == ws.actors@[i]);
                        if j != idx {
                            assert(w.actors@[j] == ws.actors@[j]);
                        } else {
                            assert(!still_obstacle(*old(w), j));
                        }
                    } else {
                        if flags@[idx as int] && still_obstacle(*old(w), j) {
                            assert(clear_at(ws.actors@, ws.grid@, idx as int, committed));
                            assert(!blocks(ws.actors@, ws.grid@, idx as int, committed, j));
                            assert(ws.actors@[j].id != id) by {
                                if ws.actors@[j].id == ws.actors@[idx as int].id {
                                    lemma_same_id_same_index(ws.actors@, j, idx as int);
                                }
                            }
                            assert(ws.grid@.contains_key(ws.actors@[j].id));
                            assert(ws.grid@[ws.actors@[j].id]
                                == old(w).actors@[j].prev.plane_spec());
                            assert(w.actors@[j] == ws.actors@[j]);
                            assert(w.actors@[j].pos.plane_spec()
                                == old(w).actors@[j].prev.plane_spec()) by {
                                if j < idx {
                                    assert(resolved_entry(*old(w), ws, flags_s, j));
                                    assert(ws.actors@[j].pos == old(w).actors@[j].pos);
                                } else {
                                    assert(ws.actors@[j] == old(w).actors@[j]);
                                }
                            }
                            assert(!bodies_overlap(
                                ws.actors@[idx as int].body->Some_0.shape,
                                committed,
                                ws.actors@[idx as int].body->Some_0.radius as int,
                                ws.actors@[j].body->Some_0.shape,
                                ws.grid@[ws.actors@[j].id],
                                ws.actors@[j].body->Some_0.radius as int,
                            ));
                            assert(w.actors@[idx as int].pos.plane_spec() == committed);
                        }
                    }
                };
            }
        }
        idx += 1;
    }
    proof {
        assert forall|i: int|
            0 <= i < w.actors@.len() implies crate::world::actor_wf(#[trigger] w.actors@[i]) by {
            assert(resolved_entry(*old(w), *w, flags@, i));
            assert(w.actors@[i].prev == old(w).actors@[i].prev);
        };
    }
    flags
}

/// A circular body left flagged by the resolver ends the tick with its
/// center strictly farther from a stationary enabled disc than the sum
/// of their radii.
pub proof fn lemma_flagged_ball_clear_of_still_ball(
    wold: crate::world::WolfWorld,
    w: crate::world::WolfWorld,
    flags: Seq<bool>,
    i: int,
    j: int,
)
    requires
        0 <= i < w.actors@.len(),
        0 <= j < w.actors@.len(),
        i != j,
        flags[i],
        still_obstacle(wold, j),
        resolved_clear_of_still(wold, w, flags, i, j),
        w.actors@[i].body matches Option::Some(b1) && b1.shape is Ball,
        w.actors@[j].body matches Option::Some(b2) && b2.shape is Ball,
    ensures
        dist_sq_spec(w.actors@[i].pos.plane_spec(), w.actors@[j].pos.plane_spec()) > (
        w.actors@[i].body->Some_0.radius + w.actors@[j].body->Some_0.radius) * (
        w.actors@[i].body->Some_0.radius + w.actors@[j].body->Some_0.radius),
{
}

/// Two circular bodies both left flagged by the resolver end the tick
/// with their centers strictly farther apart than the sum of their
/// radii: resolved enabled discs never interpenetrate.
pub proof fn lemma_flagged_balls_apart(
    w: crate::world::WolfWorld,
    flags: Seq<bool>,
    i1: int,
    i2: int,
)
    requires
        0 <= i1 < w.actors@.len(),
        0 <= i2 < w.actors@.len(),
        i1 != i2,
        flags[i1],
        flags[i2],
        resolved_separated(w, flags, i1, i2),
        w.actors@[i1].body matches Option::Some(b1) && b1.shape is Ball,
        w.actors@[i2].body matches Option::Some(b2) && b2.shape is Ball,
    ensures
        dist_sq_spec(w.actors@[i1].pos.plane_spec(), w.actors@[i2].pos.plane_spec()) > (
        w.actors@[i1].body->Some_0.radius + w.actors@[i2].body->Some_0.radius) * (
        w.actors@[i1].body->Some_0.radius + w.actors@[i2].body->Some_0.radius),
{
}

} // verus!

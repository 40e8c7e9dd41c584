//! The simulation world and the per-tick pipeline.
//!
//! A `WolfWorld` owns the entity set and the spatial index and runs the
//! fixed per-tick order: snapshot previous transforms, rebuild the
//! index, apply the host's movement input, scan interactions, apply
//! pushes, resolve movement, clear stalled pushes, and advance doors.

use vstd::prelude::*;

use crate::body::WolfBody;
use crate::door::DoorState;
use crate::grid::WolfGrid;
use crate::grid::in_radius;
use crate::interact::WolfInteractEvent;
use crate::interact::ray_hits_shape_spec;
use crate::interact::ray_hits_shape;
use crate::math::Vec2I;
use crate::math::Vec3I;
use crate::math::POS_LIMIT;
use crate::push::WolfPush;
use crate::push::push_vel_wf;

verus! {

/// Largest host move of a position per axis and tick, in milli-units;
/// leaves room for the push displacement under the raw-displacement
/// bound the resolver accepts.
pub const EXT_MOVE_LIMIT: i64 = 40_000;

/// One simulated entity: identity, transform, previous-transform
/// shadow, facing, tags, and the optional body, door and push state.
#[derive(Clone, Debug)]
pub struct WolfActor {
    /// Host entity id; unique within a world.
    pub id: u64,
    /// Authoritative position, milli-units.
    pub pos: Vec3I,
    /// Shadow copy of the position at the start of the tick; written
    /// once per tick before any movement logic runs.
    pub prev: Vec3I,
    /// Plane facing direction in per-mille, drives the interaction ray.
    pub facing: Vec2I,
    /// Interactor: casts the interaction ray.
    pub camera: bool,
    /// Valid target for the interaction ray.
    pub interact: bool,
    /// May receive a push velocity from an interaction.
    pub pushable: bool,
    pub body: Option<WolfBody>,
    pub door: Option<DoorState>,
    pub push: Option<WolfPush>,
}

/// Per-entity well-formedness: transform within the arena, facing a
/// per-mille vector, and every owned component well-formed.
pub open spec fn actor_wf(a: WolfActor) -> bool {
    &&& a.pos.bounded_spec(POS_LIMIT)
    &&& a.prev.bounded_spec(POS_LIMIT)
    &&& a.facing.bounded_spec(1000)
    &&& (a.body matches Option::Some(b) ==> b.wf())
    &&& (a.door matches Option::Some(d) ==> crate::door::door_wf(d))
    &&& (a.push matches Option::Some(p) ==> push_vel_wf(p.vel))
}

/// The simulation world: the entity set and the spatial index, owned
/// exclusively by the tick pipeline.
pub struct WolfWorld {
    pub actors: Vec<WolfActor>,
    pub grid: WolfGrid,
}

impl WolfWorld {
    /// Entity ids are unique.
    pub open spec fn ids_unique(self) -> bool {
        forall|i: int, j: int|
            0 <= i < j < self.actors@.len() ==> self.actors@[i].id != self.actors@[j].id
    }

    /// World well-formedness between ticks.
    pub open spec fn wf(self) -> bool {
        &&& self.grid.wf()
        &&& self.ids_unique()
        &&& forall|i: int| 0 <= i < self.actors@.len() ==> actor_wf(#[trigger] self.actors@[i])
    }

    /// An empty world.
    pub fn new() -> (r: WolfWorld)
        ensures
            r.wf(),
            r.actors@.len() == 0,
    {
        WolfWorld { actors: Vec::new(), grid: WolfGrid::new() }
    }

    /// Adds an entity. Returns false, leaving the world unchanged,
    /// when the entity is malformed (transform outside the arena,
    /// facing beyond per-mille scale, bad body radius or timer, or a
    /// non-axis push velocity) or its id is already taken.
    pub fn spawn(&mut self, actor: WolfActor) -> (r: bool)
        requires
            old(self).wf(),
        ensures
            final(self).wf(),
            r <==> (actor_wf(actor) && (forall|j: int|
                0 <= j < old(self).actors@.len() ==> (#[trigger] old(self).actors@[j]).id
                    != actor.id)),
            r ==> final(self).actors@ == old(self).actors@.push(actor),
            !r ==> final(self).actors@ == old(self).actors@,
            final(self).grid == old(self).grid,
    {
        let ok_pos = actor.pos.x >= -POS_LIMIT && actor.pos.x <= POS_LIMIT && actor.pos.y
            >= -POS_LIMIT && actor.pos.y <= POS_LIMIT && actor.pos.z >= -POS_LIMIT && actor.pos.z
            <= POS_LIMIT;
        let ok_prev = actor.prev.x >= -POS_LIMIT && actor.prev.x <= POS_LIMIT && actor.prev.y
            >= -POS_LIMIT && actor.prev.y <= POS_LIMIT && actor.prev.z >= -POS_LIMIT
            && actor.prev.z <= POS_LIMIT;
        let ok_facing = actor.facing.x >= -1000 && actor.facing.x <= 1000 && actor.facing.y
            >= -1000 && actor.facing.y <= 1000;
        let ok_body = match &actor.body {
            Some(b) => 0 < b.radius && b.radius <= crate::body::RADIUS_LIMIT && b.height >= 0,
            None => true,
        };
        let ok_door = match &actor.door {
            Some(d) => match d {
                crate::door::DoorState::Closed => true,
                crate::door::DoorState::Closing { closing } => closing.current <= closing.start
                    && closing.start <= crate::timer::TIMER_LIMIT_MS,
                crate::door::DoorState::Opening { opening } => opening.current <= opening.start
                    && opening.start <= crate::timer::TIMER_LIMIT_MS,
                crate::door::DoorState::Open { auto_close_timer } => auto_close_timer.current
                    <= auto_close_timer.start && auto_close_timer.start
                    <= crate::timer::TIMER_LIMIT_MS,
            },
            None => true,
        };
        let ok_push = match &actor.push {
            Some(p) => (p.vel.x == 0 && p.vel.y == 0) || (p.vel.x == crate::push::PUSH_SPEED
                && p.vel.y == 0) || (p.vel.x == -crate::push::PUSH_SPEED && p.vel.y == 0) || (
            p.vel.x == 0 && p.vel.y == crate::push::PUSH_SPEED) || (p.vel.x == 0 && p.vel.y
                == -crate::push::PUSH_SPEED),
            None => true,
        };
        let fresh = match find_actor_index(&self.actors, actor.id) {
            Some(_) => false,
            None => true,
        };
        if ok_pos && ok_prev && ok_facing && ok_body && ok_door && ok_push && fresh {
            proof {
                assert(actor_wf(actor));
                let t = self.actors@.push(actor);
                assert(forall|k: int| 0 <= k < self.actors@.len() ==> t[k] == self.actors@[k]);
                assert(t[self.actors@.len() as int] == actor);
            }
            self.actors.push(actor);
            true
        } else {
            proof {
                if actor_wf(actor) && (forall|j: int|
                    0 <= j < self.actors@.len() ==> (#[trigger] self.actors@[j]).id != actor.id) {
                    assert(ok_pos && ok_prev && ok_facing && ok_body && ok_door && ok_push);
                    assert(fresh);
                    assert(false);
                }
            }
            false
        }
    }
}

/// Two actors agree on everything but transform and component state:
/// identity, tags and facing.
pub open spec fn same_identity(a: WolfActor, b: WolfActor) -> bool {
    &&& a.id == b.id
    &&& a.facing == b.facing
    &&& a.camera == b.camera
    &&& a.interact == b.interact
    &&& a.pushable == b.pushable
}

/// Writes the previous-transform shadow: every actor's `prev` becomes
/// its current position; nothing else changes.
pub fn snapshot_prev(w: &mut WolfWorld)
    ensures
        final(w).actors@.len() == old(w).actors@.len(),
        forall|i: int|
            0 <= i < old(w).actors@.len() ==> final(w).actors@[i] == (WolfActor {
                prev: old(w).actors@[i].pos,
                ..old(w).actors@[i]
            }),
        final(w).grid == old(w).grid,
{
    let n = w.actors.len();
    let mut i: usize = 0;
    while i < n
        invariant
            n == w.actors@.len(),
            i <= n,
            w.grid == old(w).grid,
            forall|k: int|
                0 <= k < i ==> w.actors@[k] == (WolfActor {
                    prev: old(w).actors@[k].pos,
                    ..old(w).actors@[k]
                }),
            forall|k: int| i <= k < n ==> w.actors@[k] == old(w).actors@[k],
        decreases n - i,
    {
        let p = w.actors[i].pos;
        w.actors[i].prev = p;
        i += 1;
    }
}

/// Rebuilds the spatial index from current positions: afterwards the
/// index holds exactly one entry per actor, at its current plane
/// position.
pub fn rebuild_grid(w: &mut WolfWorld)
    requires
        old(w).wf(),
    ensures
        final(w).actors == old(w).actors,
        final(w).wf(),
        forall|i: int|
            0 <= i < final(w).actors@.len() ==> {
                &&& final(w).grid@.contains_key((#[trigger] final(w).actors@[i]).id)
                &&& final(w).grid@[final(w).actors@[i].id] == final(w).actors@[i].pos.plane_spec()
            },
        forall|id: u64|
            final(w).grid@.contains_key(id) ==> exists|i: int|
                0 <= i < final(w).actors@.len() && (#[trigger] final(w).actors@[i]).id == id,
{
    w.grid.clear();
    let n = w.actors.len();
    let mut i: usize = 0;
    while i < n
        invariant
            old(w).wf(),
            w.actors == old(w).actors,
            w.grid.wf(),
            n == w.actors@.len(),
            i <= n,
            forall|k: int|
                0 <= k < i ==> {
                    &&& w.grid@.contains_key((#[trigger] w.actors@[k]).id)
                    &&& w.grid@[w.actors@[k].id] == w.actors@[k].pos.plane_spec()
                },
            forall|id: u64|
                w.grid@.contains_key(id) ==> exists|k: int|
                    0 <= k < i && (#[trigger] w.actors@[k]).id == id,
        decreases n - i,
    {
        let a = &w.actors[i];
        let p = a.pos.plane();
        proof {
            assert(actor_wf(w.actors@[i as int]));
        }
        let id = a.id;
        w.grid.insert_or_replace(id, p);
        i += 1;
    }
}

/// Index of the actor carrying `id`, if any.
pub fn find_actor_index(actors: &Vec<WolfActor>, id: u64) -> (r: Option<usize>)
    ensures
        r matches Option::Some(i) ==> i < actors@.len() && actors@[i as int].id == id,
        r is None ==> forall|j: int| 0 <= j < actors@.len() ==> (#[trigger] actors@[j]).id != id,
{
    let n = actors.len();
    let mut i: usize = 0;
    while i < n
        invariant
            n == actors@.len(),
            i <= n,
            forall|j: int| 0 <= j < i ==> (#[trigger] actors@[j]).id != id,
        decreases n - i,
    {
        if actors[i].id == id {
            return Some(i);
        }
        i += 1;
    }
    None
}

/// A host move entry is admissible for an actor: the desired position
/// stays in the arena and jumps at most the per-tick move limit from
/// the actor's previous-transform shadow on each plane axis.
pub open spec fn move_admissible(a: WolfActor, t: Vec3I) -> bool {
    &&& t.bounded_spec(POS_LIMIT)
    &&& -EXT_MOVE_LIMIT <= t.x - a.prev.x <= EXT_MOVE_LIMIT
    &&& -EXT_MOVE_LIMIT <= t.y - a.prev.y <= EXT_MOVE_LIMIT
}

/// The position the host's move input leaves an actor at: the last
/// admissible entry naming it wins; with none, the position stands.
pub open spec fn target_after_moves(a: WolfActor, moves: Seq<(u64, Vec3I)>) -> Vec3I
    decreases moves.len(),
{
    if moves.len() == 0 {
        a.pos
    } else if moves.last().0 == a.id && move_admissible(a, moves.last().1) {
        moves.last().1
    } else {
        target_after_moves(a, moves.drop_last())
    }
}

/// With no entry naming the actor, the moves leave its position alone.
pub proof fn lemma_no_move_keeps(a: WolfActor, moves: Seq<(u64, Vec3I)>)
    requires
        no_move_for(moves, a.id),
    ensures
        target_after_moves(a, moves) == a.pos,
    decreases moves.len(),
{
    if moves.len() > 0 {
        assert(moves[moves.len() - 1].0 != a.id);
        assert(no_move_for(moves.drop_last(), a.id));
        lemma_no_move_keeps(a, moves.drop_last());
    }
}

/// The moved-to position is the old one or an admissible target.
pub proof fn lemma_target_admissible(a: WolfActor, moves: Seq<(u64, Vec3I)>)
    ensures
        target_after_moves(a, moves) == a.pos || move_admissible(a, target_after_moves(a, moves)),
    decreases moves.len(),
{
    if moves.len() > 0 {
        lemma_target_admissible(a, moves.drop_last());
    }
}

/// Applies the host's movement input in order: each entry names an
/// entity and a desired position, and every admissible entry naming an
/// existing entity is applied, the last one winning. Entries naming a
/// missing entity, leaving the arena, or jumping beyond the per-tick
/// move limit are ignored.
pub fn apply_moves(w: &mut WolfWorld, moves: &Vec<(u64, Vec3I)>)
    requires
        old(w).wf(),
    ensures
        final(w).wf(),
        final(w).grid == old(w).grid,
        final(w).actors@.len() == old(w).actors@.len(),
        forall|i: int|
            0 <= i < old(w).actors@.len() ==> {
                &&& same_identity(#[trigger] final(w).actors@[i], old(w).actors@[i])
                &&& final(w).actors@[i].prev == old(w).actors@[i].prev
                &&& final(w).actors@[i].body == old(w).actors@[i].body
                &&& final(w).actors@[i].door == old(w).actors@[i].door
                &&& final(w).actors@[i].push == old(w).actors@[i].push
                &&& final(w).actors@[i].pos == target_after_moves(old(w).actors@[i], moves@)
            },
{
    let nm = moves.len();
    let mut k: usize = 0;
    while k < nm
        invariant
            old(w).wf(),
            nm == moves@.len(),
            k <= nm,
            w.grid == old(w).grid,
            w.wf(),
            w.actors@.len() == old(w).actors@.len(),
            forall|i: int|
                0 <= i < old(w).actors@.len() ==> {
                    &&& same_identity(#[trigger] w.actors@[i], old(w).actors@[i])
                    &&& w.actors@[i].prev == old(w).actors@[i].prev
                    &&& w.actors@[i].body == old(w).actors@[i].body
                    &&& w.actors@[i].door == old(w).actors@[i].door
                    &&& w.actors@[i].push == old(w).actors@[i].push
                    &&& w.actors@[i].pos == target_after_moves(
                        old(w).actors@[i],
                        moves@.take(k as int),
                    )
                },
        decreases nm - k,
    {
        let (id, target) = moves[k];
        let ghost ws = *w;
        if let Some(i) = find_actor_index(&w.actors, id) {
            proof {
                assert(actor_wf(w.actors@[i as int]));
            }
            let cur = w.actors[i].prev;
            let ok = target.x >= -POS_LIMIT && target.x <= POS_LIMIT && target.y >= -POS_LIMIT
                && target.y <= POS_LIMIT && target.z >= -POS_LIMIT && target.z <= POS_LIMIT
                && target.x - cur.x <= EXT_MOVE_LIMIT && target.x - cur.x >= -EXT_MOVE_LIMIT
                && target.y - cur.y <= EXT_MOVE_LIMIT && target.y - cur.y >= -EXT_MOVE_LIMIT;
            if ok {
                proof {
                    assert(move_admissible(old(w).actors@[i as int], target));
                }
                w.actors[i].pos = target;
            }
        }
        proof {
            assert(moves@.take(k + 1).drop_last() =~= moves@.take(k as int));
            assert(moves@.take(k + 1).last() == moves@[k as int]);
            assert forall|i: int| 0 <= i < old(w).actors@.len() implies w.actors@[i].pos
                == target_after_moves(old(w).actors@[i], moves@.take(k + 1)) by {
                assert(ws.actors@[i].pos == target_after_moves(
                    old(w).actors@[i],
                    moves@.take(k as int),
                ));
                if moves@[k as int].0 == old(w).actors@[i].id && move_admissible(
                    old(w).actors@[i],
                    moves@[k as int].1,
                ) {
                    assert(w.actors@[i].pos == moves@[k as int].1);
                } else {
                    assert(w.actors@[i].pos == ws.actors@[i].pos);
                }
            };
        }
        k += 1;
    }
    proof {
        assert(moves@.take(nm as int) =~= moves@);
    }
}

/// Broad-phase radius of the interaction scan, in milli-units.
pub const INTERACT_QUERY_RADIUS: i64 = 2000;

/// The camera at index `ci` hits the interactable at index `tj`: the
/// target is tagged, carries a body, sits in the index within the
/// broad-phase radius of the camera, and the camera's bounded ray
/// meets the target's square at its indexed position.
pub open spec fn scan_hit(actors: Seq<WolfActor>, gm: Map<u64, Vec2I>, ci: int, tj: int) -> bool {
    &&& 0 <= ci < actors.len()
    &&& 0 <= tj < actors.len()
    &&& actors[ci].camera
    &&& actors[tj].interact
    &&& !actors[tj].camera
    &&& actors[tj].body is Some
    &&& gm.contains_key(actors[tj].id)
    &&& in_radius(gm[actors[tj].id], actors[ci].pos.plane_spec(), INTERACT_QUERY_RADIUS)
    &&& ray_hits_shape_spec(
        actors[ci].pos.plane_spec(),
        actors[ci].facing,
        gm[actors[tj].id],
        actors[tj].body->Some_0.shape,
        actors[tj].body->Some_0.radius as int,
    )
}

/// Translates the edge-triggered interact input into this tick's
/// events: on the pressed edge, one event per camera-and-hit-target
/// pair, in scan order; multiple hits along one ray all emit, with no
/// nearest-hit selection, and each pair emits at most once.
/// The event a camera-target index pair emits.
pub open spec fn hit_event(actors: Seq<WolfActor>, a: int, b: int) -> WolfInteractEvent {
    WolfInteractEvent { interactor: actors[a].id, entity: actors[b].id }
}

/// The event records a real hit of some camera below `below` on some
/// target.
pub open spec fn event_sound(
    actors: Seq<WolfActor>,
    gm: Map<u64, Vec2I>,
    below: int,
    e: WolfInteractEvent,
) -> bool {
    exists|a: int, b: int| 0 <= a < below && #[trigger] scan_hit(actors, gm, a, b) && e
        == hit_event(actors, a, b)
}

/// The event records a hit of the camera at index `ci`.
pub open spec fn camera_event_sound(
    actors: Seq<WolfActor>,
    gm: Map<u64, Vec2I>,
    ci: int,
    e: WolfInteractEvent,
) -> bool {
    exists|b: int| #[trigger] scan_hit(actors, gm, ci, b) && e == hit_event(actors, ci, b)
}

/// The event stands somewhere in `evs[lo..hi]`.
pub open spec fn event_emitted(
    evs: Seq<WolfInteractEvent>,
    lo: int,
    hi: int,
    e: WolfInteractEvent,
) -> bool {
    exists|k: int| lo <= k <= hi - 1 && evs[k] == e
}

/// Emits the events of one camera: one per hit target, appended in
/// scan order, each target at most once, interactor always this
/// camera's id.
#[verifier::rlimit(60)]
fn scan_camera(w: &WolfWorld, ci: usize, ev: &mut Vec<WolfInteractEvent>)
    requires
        w.wf(),
        ci < w.actors@.len(),
        w.actors@[ci as int].camera,
    ensures
        old(ev)@.len() <= final(ev)@.len(),
        forall|k: int| 0 <= k < old(ev)@.len() ==> final(ev)@[k] == old(ev)@[k],
        forall|k: int|
            old(ev)@.len() <= k < final(ev)@.len() ==> camera_event_sound(
                w.actors@,
                w.grid@,
                ci as int,
                #[trigger] final(ev)@[k],
            ),
        forall|k: int|
            old(ev)@.len() <= k < final(ev)@.len() ==> (#[trigger] final(ev)@[k]).interactor
                == w.actors@[ci as int].id,
        forall|b: int|
            #[trigger] scan_hit(w.actors@, w.grid@, ci as int, b) ==> event_emitted(
                final(ev)@,
                old(ev)@.len() as int,
                final(ev)@.len() as int,
                hit_event(w.actors@, ci as int, b),
            ),
        forall|k1: int, k2: int|
            old(ev)@.len() <= k1 < k2 < final(ev)@.len() ==> final(ev)@[k1] != final(ev)@[k2],
{
    proof {
        assert(actor_wf(w.actors@[ci as int]));
    }
    let cam_id = w.actors[ci].id;
    let o = w.actors[ci].pos.plane();
    let dir = w.actors[ci].facing;
    let rs = w.grid.query_around(o, INTERACT_QUERY_RADIUS);
    let m = rs.len();
    let ghost n0 = ev@.len() as int;
    let mut q: usize = 0;
    while q < m
        invariant
            w.wf(),
            ci < w.actors@.len(),
            w.actors@[ci as int].camera,
            cam_id == w.actors@[ci as int].id,
            o == w.actors@[ci as int].pos.plane_spec(),
            dir == w.actors@[ci as int].facing,
            m == rs@.len(),
            q <= m,
            n0 == old(ev)@.len(),
            forall|x: int| 0 <= x < rs@.len() ==> {
                &&& w.grid@.contains_key((#[trigger] rs@[x]).0)
                &&& w.grid@[rs@[x].0] == rs@[x].1
                &&& in_radius(rs@[x].1, o, INTERACT_QUERY_RADIUS)
            },
            forall|id: u64|
                w.grid@.contains_key(id) && in_radius(w.grid@[id], o, INTERACT_QUERY_RADIUS)
                    ==> exists|x: int| 0 <= x < rs@.len() && rs@[x] == (id, w.grid@[id]),
            crate::grid::ids_distinct(rs@),
            n0 <= ev@.len(),
            forall|k: int| 0 <= k < n0 ==> ev@[k] == old(ev)@[k],
            forall|k: int|
                n0 <= k < ev@.len() ==> camera_event_sound(
                    w.actors@,
                    w.grid@,
                    ci as int,
                    #[trigger] ev@[k],
                ),
            forall|k: int|
                n0 <= k < ev@.len() ==> (#[trigger] ev@[k]).interactor == cam_id,
            forall|k: int|
                n0 <= k < ev@.len() ==> exists|x: int|
                    0 <= x < q && (#[trigger] rs@[x]).0 == (#[trigger] ev@[k]).entity,
            forall|b: int|
                #[trigger] scan_hit(w.actors@, w.grid@, ci as int, b) && (exists|x: int|
                    0 <= x < q && (#[trigger] rs@[x]).0 == w.actors@[b].id) ==> event_emitted(
                    ev@,
                    n0,
                    ev@.len() as int,
                    hit_event(w.actors@, ci as int, b),
                ),
            forall|k1: int, k2: int| n0 <= k1 < k2 < ev@.len() ==> ev@[k1] != ev@[k2],
        decreases m - q,
    {
        let (tid, tpos) = rs[q];
        if let Some(tj) = find_actor_index(&w.actors, tid) {
            proof {
                assert(actor_wf(w.actors@[tj as int]));
            }
            let hit = if w.actors[tj].interact && !w.actors[tj].camera {
                match &w.actors[tj].body {
                    Some(b) => {
                        proof {
                            w.grid.lemma_wf_positions(tid);
                        }
                        ray_hits_shape(o, dir, tpos, b.shape, b.radius)
                    },
                    None => false,
                }
            } else {
                false
            };
            if hit {
                proof {
                    assert(scan_hit(w.actors@, w.grid@, ci as int, tj as int));
                }
                let ghost evb = ev@;
                ev.push(WolfInteractEvent { interactor: cam_id, entity: tid });
                proof {
                    let ke = evb.len() as int;
                    assert(ev@[ke] == hit_event(w.actors@, ci as int, tj as int));
                    assert(camera_event_sound(w.actors@, w.grid@, ci as int, ev@[ke]));
                    assert forall|k: int| n0 <= k < ev@.len() implies camera_event_sound(
                        w.actors@,
                        w.grid@,
                        ci as int,
                        #[trigger] ev@[k],
                    ) by {
                        if k < ke {
                            assert(ev@[k] == evb[k]);
                            assert(camera_event_sound(w.actors@, w.grid@, ci as int, evb[k]));
                        }
                    };
                    assert forall|k: int| n0 <= k < ev@.len() implies exists|x: int|
                        0 <= x < q + 1 && (#[trigger] rs@[x]).0 == (#[trigger] ev@[k]).entity by {
                        if k < ke {
                            let x = choose|x: int|
                                0 <= x < q && (#[trigger] rs@[x]).0 == evb[k].entity;
                            assert(0 <= x < q + 1 && rs@[x].0 == ev@[k].entity);
                        } else {
                            assert(rs@[q as int].0 == ev@[k].entity);
                        }
                    };
                    assert forall|b: int|
                        #[trigger] scan_hit(w.actors@, w.grid@, ci as int, b) && (exists|x: int|
                            0 <= x < q + 1 && (#[trigger] rs@[x]).0 == w.actors@[b].id)
                            implies event_emitted(
                        ev@,
                        n0,
                        ev@.len() as int,
                        hit_event(w.actors@, ci as int, b),
                    ) by {
                        let x = choose|x: int|
                            0 <= x < q + 1 && (#[trigger] rs@[x]).0 == w.actors@[b].id;
                        if x < q {
                            assert(event_emitted(evb, n0, evb.len() as int, hit_event(
                                w.actors@,
                                ci as int,
                                b,
                            )));
                            let k = choose|k: int|
                                n0 <= k <= evb.len() - 1 && evb[k] == hit_event(
                                    w.actors@,
                                    ci as int,
                                    b,
                                );
                            assert(ev@[k] == hit_event(w.actors@, ci as int, b));
                            assert(n0 <= k <= ev@.len() - 1);
                        } else {
                            assert(w.actors@[b].id == tid);
                            assert(ev@[ke] == hit_event(w.actors@, ci as int, b));
                        }
                    };
                    assert forall|k1: int, k2: int|
                        n0 <= k1 < k2 < ev@.len() implies ev@[k1] != ev@[k2] by {
                        if k2 == ke {
                            let x = choose|x: int|
                                0 <= x < q && (#[trigger] rs@[x]).0 == evb[k1].entity;
                            assert(rs@[x].0 != rs@[q as int].0);
                        }
                    };
                }
            } else {
                proof {
                    assert forall|b: int|
                        #[trigger] scan_hit(w.actors@, w.grid@, ci as int, b) && (exists|x: int|
                            0 <= x < q + 1 && (#[trigger] rs@[x]).0 == w.actors@[b].id)
                            implies event_emitted(
                        ev@,
                        n0,
                        ev@.len() as int,
                        hit_event(w.actors@, ci as int, b),
                    ) by {
                        let x = choose|x: int|
                            0 <= x < q + 1 && (#[trigger] rs@[x]).0 == w.actors@[b].id;
                        if x == q {
                            assert(w.actors@[b].id == tid);
                            assert(w.actors@[tj as int].id == tid);
                            assert(b == tj as int);
                            assert(false);
                        }
                    };
                }
            }
        } else {
            proof {
                assert forall|b: int|
                    #[trigger] scan_hit(w.actors@, w.grid@, ci as int, b) && (exists|x: int|
                        0 <= x < q + 1 && (#[trigger] rs@[x]).0 == w.actors@[b].id)
                        implies event_emitted(
                    ev@,
                    n0,
                    ev@.len() as int,
                    hit_event(w.actors@, ci as int, b),
                ) by {
                    let x = choose|x: int|
                        0 <= x < q + 1 && (#[trigger] rs@[x]).0 == w.actors@[b].id;
                    if x == q {
                        assert(w.actors@[b].id == tid);
                        assert(false);
                    }
                };
            }
        }
        q += 1;
    }
    proof {
        assert forall|b: int|
            #[trigger] scan_hit(w.actors@, w.grid@, ci as int, b) implies event_emitted(
            ev@,
            n0,
            ev@.len() as int,
            hit_event(w.actors@, ci as int, b),
        ) by {
            assert(w.grid@.contains_key(w.actors@[b].id));
            assert(in_radius(w.grid@[w.actors@[b].id], o, INTERACT_QUERY_RADIUS));
            let x = choose|x: int|
                0 <= x < rs@.len() && rs@[x] == (w.actors@[b].id, w.grid@[w.actors@[b].id]);
            assert(rs@[x].0 == w.actors@[b].id);
        };
    }
}

/// Translates the edge-triggered interact input into this tick's
/// events: on the pressed edge, one event per camera-and-hit-target
/// pair, in scan order; multiple hits along one ray all emit, with no
/// nearest-hit selection, and each pair emits at most once.
#[verifier::rlimit(60)]
pub fn scan_interactions(w: &WolfWorld, pressed: bool) -> (ev: Vec<WolfInteractEvent>)
    requires
        w.wf(),
    ensures
        !pressed ==> ev@.len() == 0,
        forall|k: int|
            0 <= k < ev@.len() ==> event_sound(
                w.actors@,
                w.grid@,
                w.actors@.len() as int,
                #[trigger] ev@[k],
            ),
        pressed ==> forall|a: int, b: int|
            #[trigger] scan_hit(w.actors@, w.grid@, a, b) ==> event_emitted(
                ev@,
                0,
                ev@.len() as int,
                hit_event(w.actors@, a, b),
            ),
        forall|k1: int, k2: int| 0 <= k1 < k2 < ev@.len() ==> ev@[k1] != ev@[k2],
{
    let mut ev: Vec<WolfInteractEvent> = Vec::new();
    if !pressed {
        return ev;
    }
    let n = w.actors.len();
    let mut ci: usize = 0;
    while ci < n
        invariant
            w.wf(),
            n == w.actors@.len(),
            ci <= n,
            forall|k: int|
                0 <= k < ev@.len() ==> event_sound(
                    w.actors@,
                    w.grid@,
                    ci as int,
                    #[trigger] ev@[k],
                ),
            forall|a: int, b: int|
                0 <= a < ci && #[trigger] scan_hit(w.actors@, w.grid@, a, b) ==> event_emitted(
                    ev@,
                    0,
                    ev@.len() as int,
                    hit_event(w.actors@, a, b),
                ),
            forall|k1: int, k2: int| 0 <= k1 < k2 < ev@.len() ==> ev@[k1] != ev@[k2],
        decreases n - ci,
    {
        if w.actors[ci].camera {
            let ghost evb = ev@;
            scan_camera(w, ci, &mut ev);
            proof {
                assert forall|k: int| 0 <= k < ev@.len() implies event_sound(
                    w.actors@,
                    w.grid@,
                    ci + 1,
                    #[trigger] ev@[k],
                ) by {
                    if k < evb.len() {
                        assert(ev@[k] == evb[k]);
                        let (a, b) = choose|a: int, b: int|
                            0 <= a < ci && #[trigger] scan_hit(w.actors@, w.grid@, a, b)
                                && evb[k] == hit_event(w.actors@, a, b);
                        assert(0 <= a < ci + 1 && scan_hit(w.actors@, w.grid@, a, b) && ev@[k]
                            == hit_event(w.actors@, a, b));
                    } else {
                        let b = choose|b: int|
                            #[trigger] scan_hit(w.actors@, w.grid@, ci as int, b) && ev@[k]
                                == hit_event(w.actors@, ci as int, b);
                        assert(0 <= (ci as int) < ci + 1 && scan_hit(
                            w.actors@,
                            w.grid@,
                            ci as int,
                            b,
                        ) && ev@[k] == hit_event(w.actors@, ci as int, b));
                    }
                };
                assert forall|a: int, b: int|
                    0 <= a < ci + 1 && #[trigger] scan_hit(w.actors@, w.grid@, a, b)
                        implies event_emitted(ev@, 0, ev@.len() as int, hit_event(
                    w.actors@,
                    a,
                    b,
                )) by {
                    if a < ci {
                        let k = choose|k: int|
                            0 <= k <= evb.len() - 1 && evb[k] == hit_event(w.actors@, a, b);
                        assert(ev@[k] == hit_event(w.actors@, a, b));
                    } else {
                        let k = choose|k: int|
                            evb.len() <= k <= ev@.len() - 1 && ev@[k] == hit_event(
                                w.actors@,
                                ci as int,
                                b,
                            );
                        assert(0 <= k <= ev@.len() - 1);
                    }
                };
                assert forall|k1: int, k2: int|
                    0 <= k1 < k2 < ev@.len() implies ev@[k1] != ev@[k2] by {
                    if k1 < evb.len() && evb.len() <= k2 {
                        let (a, b) = choose|a: int, b: int|
                            0 <= a < ci && #[trigger] scan_hit(w.actors@, w.grid@, a, b)
                                && evb[k1] == hit_event(w.actors@, a, b);
                        assert(w.actors@[a].id != w.actors@[ci as int].id);
                        assert(ev@[k1].interactor != ev@[k2].interactor);
                    }
                };
            }
        }
        ci += 1;
    }
    ev
}

/// Radius of the door occupancy query, milli-units: wide enough that
/// any two overlapping footprint tolerance boxes put the occupant
/// within it (the diagonal bound is 980 times the square root of two,
/// under 1386).
pub const DOOR_QUERY_RADIUS: i64 = 1400;

/// Half-extent of the door footprint tolerance box, milli-units.
pub const DOOR_TOLERANCE: i64 = 490;

/// Some other entity with a body stands on the door footprint: the two
/// tolerance boxes of half-extent `DOOR_TOLERANCE` around the door and
/// around the occupant's indexed position intersect, boundary
/// included. Disabled bodies block too.
pub open spec fn door_blocked_spec(
    actors: Seq<WolfActor>,
    gm: Map<u64, Vec2I>,
    i: int,
) -> bool {
    exists|j: int|
        {
            &&& 0 <= j < actors.len()
            &&& (#[trigger] actors[j]).id != actors[i].id
            &&& actors[j].body is Some
            &&& gm.contains_key(actors[j].id)
            &&& crate::math::mag(gm[actors[j].id].x - actors[i].pos.x) <= 2 * DOOR_TOLERANCE
            &&& crate::math::mag(gm[actors[j].id].y - actors[i].pos.y) <= 2 * DOOR_TOLERANCE
        }
}

/// Overlapping footprint boxes put the occupant inside the occupancy
/// query radius.
proof fn lemma_footprint_within_query(p: Vec2I, q: Vec2I)
    requires
        crate::math::mag(q.x - p.x) <= 2 * DOOR_TOLERANCE,
        crate::math::mag(q.y - p.y) <= 2 * DOOR_TOLERANCE,
    ensures
        in_radius(q, p, DOOR_QUERY_RADIUS),
{
    assert(crate::math::dist_sq_spec(q, p) <= DOOR_QUERY_RADIUS * DOOR_QUERY_RADIUS)
        by (nonlinear_arith)
        requires
            crate::math::mag(q.x - p.x) <= 980,
            crate::math::mag(q.y - p.y) <= 980,
    ;
}

/// Decides door occupancy exactly.
#[verifier::rlimit(60)]
fn door_blocked(w: &WolfWorld, i: usize) -> (r: bool)
    requires
        w.wf(),
        i < w.actors@.len(),
    ensures
        r == door_blocked_spec(w.actors@, w.grid@, i as int),
{
    let p = w.actors[i].pos.plane();
    let my_id = w.actors[i].id;
    proof {
        assert(actor_wf(w.actors@[i as int]));
    }
    let rs = w.grid.query_around(p, DOOR_QUERY_RADIUS);
    let m = rs.len();
    let mut q: usize = 0;
    let mut blocked = false;
    while q < m
        invariant
            w.wf(),
            i < w.actors@.len(),
            p == w.actors@[i as int].pos.plane_spec(),
            my_id == w.actors@[i as int].id,
            m == rs@.len(),
            q <= m,
            forall|x: int| 0 <= x < rs@.len() ==> {
                &&& w.grid@.contains_key((#[trigger] rs@[x]).0)
                &&& w.grid@[rs@[x].0] == rs@[x].1
                &&& in_radius(rs@[x].1, p, DOOR_QUERY_RADIUS)
            },
            forall|id: u64|
                w.grid@.contains_key(id) && in_radius(w.grid@[id], p, DOOR_QUERY_RADIUS)
                    ==> exists|x: int| 0 <= x < rs@.len() && rs@[x] == (id, w.grid@[id]),
            blocked ==> door_blocked_spec(w.actors@, w.grid@, i as int),
            !blocked ==> forall|j: int|
                !({
                    &&& 0 <= j < w.actors@.len()
                    &&& (#[trigger] w.actors@[j]).id != my_id
                    &&& w.actors@[j].body is Some
                    &&& w.grid@.contains_key(w.actors@[j].id)
                    &&& crate::math::mag(w.grid@[w.actors@[j].id].x - w.actors@[i as int].pos.x)
                        <= 2 * DOOR_TOLERANCE
                    &&& crate::math::mag(w.grid@[w.actors@[j].id].y - w.actors@[i as int].pos.y)
                        <= 2 * DOOR_TOLERANCE
                    &&& (exists|x: int| 0 <= x < q && (#[trigger] rs@[x]).0 == w.actors@[j].id)
                }),
        decreases m - q,
    {
        if !blocked {
            let (oid, opos) = rs[q];
            if oid != my_id {
                if let Some(j) = find_actor_index(&w.actors, oid) {
                    if w.actors[j].body.is_some() {
                        proof {
                            w.grid.lemma_wf_positions(oid);
                            assert(actor_wf(w.actors@[i as int]));
                        }
                        let dxa = if opos.x >= p.x {
                            opos.x - p.x
                        } else {
                            p.x - opos.x
                        };
                        let dya = if opos.y >= p.y {
                            opos.y - p.y
                        } else {
                            p.y - opos.y
                        };
                        if dxa <= 2 * DOOR_TOLERANCE && dya <= 2 * DOOR_TOLERANCE {
                            blocked = true;
                            proof {
                                assert(w.grid@[w.actors@[j as int].id] == opos);
                                assert(w.actors@[i as int].pos.plane_spec().x
                                    == w.actors@[i as int].pos.x);
                            }
                        }
                    }
                }
            }
        }
        q += 1;
    }
    proof {
        if !blocked {
            if door_blocked_spec(w.actors@, w.grid@, i as int) {
                let j = choose|j: int|
                    {
                        &&& 0 <= j < w.actors@.len()
                        &&& (#[trigger] w.actors@[j]).id != w.actors@[i as int].id
                        &&& w.actors@[j].body is Some
                        &&& w.grid@.contains_key(w.actors@[j].id)
                        &&& crate::math::mag(
                            w.grid@[w.actors@[j].id].x - w.actors@[i as int].pos.x,
                        ) <= 2 * DOOR_TOLERANCE
                        &&& crate::math::mag(
                            w.grid@[w.actors@[j].id].y - w.actors@[i as int].pos.y,
                        ) <= 2 * DOOR_TOLERANCE
                    };
                lemma_footprint_within_query(
                    w.actors@[i as int].pos.plane_spec(),
                    w.grid@[w.actors@[j].id],
                );
                let x = choose|x: int|
                    0 <= x < rs@.len() && rs@[x] == (w.actors@[j].id, w.grid@[w.actors@[j].id]);
                assert(rs@[x].0 == w.actors@[j].id);
                assert(false);
            }
        }
    }
    blocked
}

/// Some event of this tick targets the entity.
pub open spec fn event_targets(events: Seq<WolfInteractEvent>, id: u64) -> bool {
    exists|k: int| 0 <= k < events.len() && (#[trigger] events[k]).entity == id
}

/// True when some event targets `id`.
fn any_event_for(events: &Vec<WolfInteractEvent>, id: u64) -> (r: bool)
    ensures
        r == event_targets(events@, id),
{
    let n = events.len();
    let mut k: usize = 0;
    while k < n
        invariant
            n == events@.len(),
            k <= n,
            forall|x: int| 0 <= x < k ==> (#[trigger] events@[x]).entity != id,
        decreases n - k,
    {
        if events[k].entity == id {
            return true;
        }
        k += 1;
    }
    false
}

/// Occupancy is decided by ids, body presence, positions and the index
/// alone, so it transfers between states that agree on those.
proof fn lemma_blocked_equiv(
    a1: Seq<WolfActor>,
    gm1: Map<u64, Vec2I>,
    a2: Seq<WolfActor>,
    gm2: Map<u64, Vec2I>,
    i: int,
)
    requires
        a1.len() == a2.len(),
        gm1 == gm2,
        0 <= i < a1.len(),
        forall|j: int|
            0 <= j < a1.len() ==> {
                &&& (#[trigger] a1[j]).id == a2[j].id
                &&& (a1[j].body is Some <==> a2[j].body is Some)
                &&& a1[j].pos == a2[j].pos
            },
    ensures
        door_blocked_spec(a1, gm1, i) == door_blocked_spec(a2, gm2, i),
{
    if door_blocked_spec(a1, gm1, i) {
        let j = choose|j: int|
            {
                &&& 0 <= j < a1.len()
                &&& (#[trigger] a1[j]).id != a1[i].id
                &&& a1[j].body is Some
                &&& gm1.contains_key(a1[j].id)
                &&& crate::math::mag(gm1[a1[j].id].x - a1[i].pos.x) <= 2 * DOOR_TOLERANCE
                &&& crate::math::mag(gm1[a1[j].id].y - a1[i].pos.y) <= 2 * DOOR_TOLERANCE
            };
        assert(a2[j].id == a1[j].id && a2[j].body is Some && a2[i].pos == a1[i].pos);
        assert(door_blocked_spec(a2, gm2, i));
    }
    if door_blocked_spec(a2, gm2, i) {
        let j = choose|j: int|
            {
                &&& 0 <= j < a2.len()
                &&& (#[trigger] a2[j]).id != a2[i].id
                &&& a2[j].body is Some
                &&& gm2.contains_key(a2[j].id)
                &&& crate::math::mag(gm2[a2[j].id].x - a2[i].pos.x) <= 2 * DOOR_TOLERANCE
                &&& crate::math::mag(gm2[a2[j].id].y - a2[i].pos.y) <= 2 * DOOR_TOLERANCE
            };
        assert(a1[j].id == a2[j].id && a1[j].body is Some && a1[i].pos == a2[i].pos);
        assert(door_blocked_spec(a1, gm1, i));
    }
}

/// The state the door pass leaves a door in: a Closed door targeted by
/// one of this tick's events starts opening and does not also advance
/// this tick; any other door advances its timers by `dt` under the
/// occupancy report.
pub open spec fn door_next_spec(
    d: crate::door::DoorState,
    targeted: bool,
    dt: u64,
    blocked: bool,
) -> crate::door::DoorState {
    if targeted && d is Closed {
        crate::door::door_trigger_spec(d)
    } else {
        crate::door::door_advance_spec(d, dt, blocked)
    }
}

/// What the door pass leaves at index `i`: transform, tags and push
/// state untouched; the door, if any, steps by `door_next_spec` under
/// this tick's events and the occupancy of its footprint; the body's
/// disabled flag is the entry action of the state the door ends in,
/// disabled exactly in Open.
pub open spec fn door_pass_entry(
    wold: WolfWorld,
    wnew: WolfWorld,
    events: Seq<WolfInteractEvent>,
    dt: u64,
    i: int,
) -> bool {
    let a = wold.actors@[i];
    let b = wnew.actors@[i];
    match a.door {
        Option::None => b.door is None && b.body == a.body,
        Option::Some(d) => {
            let nd = door_next_spec(
                d,
                event_targets(events, a.id),
                dt,
                door_blocked_spec(wold.actors@, wold.grid@, i),
            );
            &&& b.door == Option::Some(nd)
            &&& (match a.body {
                Option::None => b.body is None,
                Option::Some(ab) => b.body == Option::Some(
                    crate::body::WolfBody {
                        disabled: (nd matches crate::door::DoorState::Open { .. }),
                        ..ab
                    },
                ),
            })
        },
    }
}

/// The door pass: every door consumes this tick's events (an event
/// targeting a Closed door starts it opening, without advancing the
/// fresh timer this same tick; other states ignore events) or else
/// advances its timers by `dt`, querying the index for blocking
/// occupants; each door then writes its body's disabled flag from the
/// state it ends in.
#[verifier::rlimit(60)]
pub fn door_pass(w: &mut WolfWorld, events: &Vec<WolfInteractEvent>, dt: u64)
    requires
        old(w).wf(),
    ensures
        final(w).wf(),
        final(w).grid == old(w).grid,
        final(w).actors@.len() == old(w).actors@.len(),
        forall|i: int|
            0 <= i < old(w).actors@.len() ==> {
                &&& same_identity(#[trigger] final(w).actors@[i], old(w).actors@[i])
                &&& final(w).actors@[i].pos == old(w).actors@[i].pos
                &&& final(w).actors@[i].prev == old(w).actors@[i].prev
                &&& final(w).actors@[i].push == old(w).actors@[i].push
                &&& door_pass_entry(*old(w), *final(w), events@, dt, i)
            },
{
    let n = w.actors.len();
    let mut i: usize = 0;
    while i < n
        invariant
            old(w).wf(),
            w.grid == old(w).grid,
            n == w.actors@.len() == old(w).actors@.len(),
            i <= n,
            w.wf(),
            forall|k: int|
                0 <= k < n ==> {
                    &&& same_identity(#[trigger] w.actors@[k], old(w).actors@[k])
                    &&& w.actors@[k].pos == old(w).actors@[k].pos
                    &&& w.actors@[k].prev == old(w).actors@[k].prev
                    &&& w.actors@[k].push == old(w).actors@[k].push
                    &&& (w.actors@[k].body is Some <==> old(w).actors@[k].body is Some)
                },
            forall|k: int| i <= k < n ==> #[trigger] w.actors@[k] == old(w).actors@[k],
            forall|k: int|
                0 <= k < i ==> door_pass_entry(*old(w), *w, events@, dt, k),
        decreases n - i,
    {
        proof {
            assert(actor_wf(w.actors@[i as int]));
            assert(w.actors@[i as int] == old(w).actors@[i as int]);
        }
        let ghost ws = *w;
        if w.actors[i].door.is_some() {
            let id = w.actors[i].id;
            let has = any_event_for(events, id);
            let d = w.actors[i].door.unwrap();
            let is_closed = match d {
                crate::door::DoorState::Closed => true,
                _ => false,
            };
            let nd = if has && is_closed {
                crate::door::door_trigger(&d)
            } else {
                let blocked = door_blocked(w, i);
                proof {
                    lemma_blocked_equiv(w.actors@, w.grid@, old(w).actors@, old(w).grid@, i as int);
                }
                let (adv, _) = crate::door::door_advance(&d, dt, blocked);
                adv
            };
            let dis = match nd {
                crate::door::DoorState::Open { .. } => true,
                _ => false,
            };
            w.actors[i].door = Some(nd);
            if w.actors[i].body.is_some() {
                let mut b = w.actors[i].body.unwrap();
                b.disabled = dis;
                w.actors[i].body = Some(b);
            }
        }
        proof {
            assert(door_pass_entry(*old(w), *w, events@, dt, i as int));
            assert forall|k: int| 0 <= k < i + 1 implies door_pass_entry(
                *old(w),
                *w,
                events@,
                dt,
                k,
            ) by {
                if k < i {
                    assert(door_pass_entry(*old(w), ws, events@, dt, k));
                    assert(w.actors@[k] == ws.actors@[k]);
                }
            };
        }
        i += 1;
    }
}

/// Events before index `hi` contain one that targets the pushable
/// actor at index `i` from an existing interactor whose cell
/// displacement to the target is honored.
pub open spec fn push_applies(
    actors: Seq<WolfActor>,
    events: Seq<WolfInteractEvent>,
    i: int,
    hi: int,
) -> bool {
    exists|k: int, j: int|
        {
            &&& 0 <= k < hi
            &&& (#[trigger] events[k]).entity == actors[i].id
            &&& actors[i].pushable
            &&& 0 <= j < actors.len()
            &&& actors[j].id == events[k].interactor
            &&& (#[trigger] crate::push::push_trigger_spec(actors[j].pos, actors[i].pos)) is Some
        }
}

/// The push state `p` is what some event before `hi` sets on the
/// actor at index `i`.
pub open spec fn push_set_by(
    actors: Seq<WolfActor>,
    events: Seq<WolfInteractEvent>,
    i: int,
    hi: int,
    p: WolfPush,
) -> bool {
    exists|k: int, j: int|
        {
            &&& 0 <= k < hi
            &&& (#[trigger] events[k]).entity == actors[i].id
            &&& actors[i].pushable
            &&& 0 <= j < actors.len()
            &&& actors[j].id == events[k].interactor
            &&& (#[trigger] crate::push::push_trigger_spec(actors[j].pos, actors[i].pos))
                == Option::Some(p.vel)
        }
}

/// The push consumption pass: an event targeting a push-capable
/// entity computes the integer-cell displacement from interactor to
/// target; exactly on-axis displacements set the push marker with the
/// unit velocity away from the interactor, scaled by the push speed.
/// Diagonal or in-cell displacements and events on non-pushable
/// entities are ignored. With several honored events on one entity in
/// one tick, one of them decides.
#[verifier::rlimit(100)]
pub fn push_consume(w: &mut WolfWorld, events: &Vec<WolfInteractEvent>)
    requires
        old(w).wf(),
    ensures
        final(w).wf(),
        final(w).grid == old(w).grid,
        final(w).actors@.len() == old(w).actors@.len(),
        forall|i: int|
            0 <= i < old(w).actors@.len() ==> {
                &&& same_identity(#[trigger] final(w).actors@[i], old(w).actors@[i])
                &&& final(w).actors@[i].pos == old(w).actors@[i].pos
                &&& final(w).actors@[i].prev == old(w).actors@[i].prev
                &&& final(w).actors@[i].body == old(w).actors@[i].body
                &&& final(w).actors@[i].door == old(w).actors@[i].door
                &&& (!push_applies(old(w).actors@, events@, i, events@.len() as int)
                    ==> final(w).actors@[i].push == old(w).actors@[i].push)
                &&& (push_applies(old(w).actors@, events@, i, events@.len() as int)
                    ==> exists|p: WolfPush|
                    final(w).actors@[i].push == Option::Some(p) && #[trigger] push_set_by(
                        old(w).actors@,
                        events@,
                        i,
                        events@.len() as int,
                        p,
                    ))
            },
{
    let n = events.len();
    let mut k: usize = 0;
    while k < n
        invariant
            old(w).wf(),
            w.grid == old(w).grid,
            n == events@.len(),
            k <= n,
            w.wf(),
            w.actors@.len() == old(w).actors@.len(),
            forall|i: int|
                0 <= i < old(w).actors@.len() ==> {
                    &&& same_identity(#[trigger] w.actors@[i], old(w).actors@[i])
                    &&& w.actors@[i].pos == old(w).actors@[i].pos
                    &&& w.actors@[i].prev == old(w).actors@[i].prev
                    &&& w.actors@[i].body == old(w).actors@[i].body
                    &&& w.actors@[i].door == old(w).actors@[i].door
                    &&& (!push_applies(old(w).actors@, events@, i, k as int) ==> w.actors@[i].push
                        == old(w).actors@[i].push)
                    &&& (push_applies(old(w).actors@, events@, i, k as int) ==> exists|p: WolfPush|
                        w.actors@[i].push == Option::Some(p) && #[trigger] push_set_by(
                            old(w).actors@,
                            events@,
                            i,
                            k as int,
                            p,
                        ))
                },
        decreases n - k,
    {
        let ev = events[k];
        let ghost o = old(w).actors@;
        let ghost e = events@;
        let ghost kk = k as int;
        let t_opt = find_actor_index(&w.actors, ev.entity);
        let mut acted = false;
        let ghost mut ti_g: int = 0;
        if let Some(ti) = t_opt {
            if w.actors[ti].pushable {
                if let Some(ij) = find_actor_index(&w.actors, ev.interactor) {
                    proof {
                        assert(actor_wf(w.actors@[ti as int]));
                        assert(actor_wf(w.actors@[ij as int]));
                    }
                    let ipos = w.actors[ij].pos;
                    let tpos = w.actors[ti].pos;
                    if let Some(v) = crate::push::push_trigger(ipos, tpos) {
                        w.actors[ti].push = Some(WolfPush { vel: v });
                        acted = true;
                        proof {
                            ti_g = ti as int;
                            assert(push_set_by(o, e, ti as int, kk + 1, WolfPush { vel: v })) by {
                                assert(e[kk].entity == o[ti as int].id);
                                assert(o[ij as int].id == e[kk].interactor);
                                assert(o[ij as int].pos == ipos);
                                assert(o[ti as int].pos == tpos);
                            }
                        }
                    } else {
                        proof {
                            assert forall|i: int|
                                0 <= i < o.len() && #[trigger] push_applies(o, e, i, kk + 1)
                                implies push_applies(o, e, i, kk) by {
                                let (ke, je) = choose|ke: int, je: int|
                                    {
                                        &&& 0 <= ke < kk + 1
                                        &&& (#[trigger] e[ke]).entity == o[i].id
                                        &&& o[i].pushable
                                        &&& 0 <= je < o.len()
                                        &&& o[je].id == e[ke].interactor
                                        &&& (#[trigger] crate::push::push_trigger_spec(
                                            o[je].pos,
                                            o[i].pos,
                                        )) is Some
                                    };
                                if ke == kk {
                                    assert(same_identity(
                                        w.actors@[ti as int],
                                        old(w).actors@[ti as int],
                                    ));
                                    assert(same_identity(
                                        w.actors@[ij as int],
                                        old(w).actors@[ij as int],
                                    ));
                                    crate::resolver::lemma_same_id_same_index(o, i, ti as int);
                                    crate::resolver::lemma_same_id_same_index(o, je, ij as int);
                                    assert(false);
                                }
                            };
                        }
                    }
                } else {
                    proof {
                        assert forall|i: int|
                            0 <= i < o.len() && #[trigger] push_applies(o, e, i, kk + 1)
                            implies push_applies(o, e, i, kk) by {
                            let (ke, je) = choose|ke: int, je: int|
                                {
                                    &&& 0 <= ke < kk + 1
                                    &&& (#[trigger] e[ke]).entity == o[i].id
                                    &&& o[i].pushable
                                    &&& 0 <= je < o.len()
                                    &&& o[je].id == e[ke].interactor
                                    &&& (#[trigger] crate::push::push_trigger_spec(
                                        o[je].pos,
                                        o[i].pos,
                                    )) is Some
                                };
                            if ke == kk {
                                assert(same_identity(w.actors@[je], old(w).actors@[je]));
                                assert(w.actors@[je].id == ev.interactor);
                                assert(false);
                            }
                        };
                    }
                }
            } else {
                proof {
                    assert forall|i: int|
                        0 <= i < o.len() && #[trigger] push_applies(o, e, i, kk + 1)
                        implies push_applies(o, e, i, kk) by {
                        let (ke, je) = choose|ke: int, je: int|
                            {
                                &&& 0 <= ke < kk + 1
                                &&& (#[trigger] e[ke]).entity == o[i].id
                                &&& o[i].pushable
                                &&& 0 <= je < o.len()
                                &&& o[je].id == e[ke].interactor
                                &&& (#[trigger] crate::push::push_trigger_spec(o[je].pos, o[i].pos))
                                    is Some
                            };
                        if ke == kk {
                            assert(same_identity(w.actors@[i], old(w).actors@[i]));
                            assert(same_identity(
                                w.actors@[ti as int],
                                old(w).actors@[ti as int],
                            ));
                            crate::resolver::lemma_same_id_same_index(o, i, ti as int);
                            assert(false);
                        }
                    };
                }
            }
        } else {
            proof {
                assert forall|i: int|
                    0 <= i < o.len() && #[trigger] push_applies(o, e, i, kk + 1)
                    implies push_applies(o, e, i, kk) by {
                    let (ke, je) = choose|ke: int, je: int|
                        {
                            &&& 0 <= ke < kk + 1
                            &&& (#[trigger] e[ke]).entity == o[i].id
                            &&& o[i].pushable
                            &&& 0 <= je < o.len()
                            &&& o[je].id == e[ke].interactor
                            &&& (#[trigger] crate::push::push_trigger_spec(o[je].pos, o[i].pos))
                                is Some
                        };
                    if ke == kk {
                        assert(same_identity(w.actors@[i], old(w).actors@[i]));
                        assert(w.actors@[i].id == ev.entity);
                        assert(false);
                    }
                };
            }
        }
        proof {
            assert forall|i: int|
                0 <= i < o.len() && #[trigger] push_applies(o, e, i, kk + 1) implies exists|
                p: WolfPush,
            |
                w.actors@[i].push == Option::Some(p) && #[trigger] push_set_by(
                    o,
                    e,
                    i,
                    kk + 1,
                    p,
                ) by {
                if acted && i == ti_g {
                    let p = w.actors@[i].push->Some_0;
                    assert(push_set_by(o, e, i, kk + 1, p));
                } else {
                    assert(push_applies(o, e, i, kk));
                    let p = choose|p: WolfPush|
                        w.actors@[i].push == Option::Some(p) && #[trigger] push_set_by(
                            o,
                            e,
                            i,
                            kk,
                            p,
                        );
                    let (ke, je) = choose|ke: int, je: int|
                        {
                            &&& 0 <= ke < kk
                            &&& (#[trigger] e[ke]).entity == o[i].id
                            &&& o[i].pushable
                            &&& 0 <= je < o.len()
                            &&& o[je].id == e[ke].interactor
                            &&& (#[trigger] crate::push::push_trigger_spec(o[je].pos, o[i].pos))
                                == Option::Some(p.vel)
                        };
                    assert(push_set_by(o, e, i, kk + 1, p));
                }
            };
            assert forall|i: int|
                0 <= i < o.len() && !(#[trigger] push_applies(o, e, i, kk + 1))
                implies w.actors@[i].push == old(w).actors@[i].push by {
                if push_applies(o, e, i, kk) {
                    let (ke, je) = choose|ke: int, je: int|
                        {
                            &&& 0 <= ke < kk
                            &&& (#[trigger] e[ke]).entity == o[i].id
                            &&& o[i].pushable
                            &&& 0 <= je < o.len()
                            &&& o[je].id == e[ke].interactor
                            &&& (#[trigger] crate::push::push_trigger_spec(o[je].pos, o[i].pos))
                                is Some
                        };
                    assert(push_applies(o, e, i, kk + 1));
                    assert(false);
                }
                if acted && i == ti_g {
                    assert(push_applies(o, e, i, kk + 1));
                    assert(false);
                }
            };
        }
        k += 1;
    }
}

/// What the push application pass leaves at index `i`: a marked,
/// nonzero-velocity push on a body adds `velocity * dt` to the
/// transform; everything else keeps its position.
pub open spec fn push_applied_entry(wold: WolfWorld, wnew: WolfWorld, dt: u64, i: int) -> bool {
    let a = wold.actors@[i];
    let b = wnew.actors@[i];
    match a.push {
        Option::None => b.pos == a.pos,
        Option::Some(p) => {
            if p.vel != (Vec2I { x: 0, y: 0 }) && a.body is Some {
                b.pos == crate::push::push_apply_spec(a.pos, p.vel, dt)
            } else {
                b.pos == a.pos
            }
        },
    }
}

/// The push application pass: each actively pushed body moves by its
/// push velocity for `dt` milliseconds; the movement resolver then
/// treats this as its raw displacement.
pub fn push_apply_all(w: &mut WolfWorld, dt: u64)
    requires
        old(w).wf(),
        dt <= crate::math::DT_LIMIT_MS,
    ensures
        final(w).grid == old(w).grid,
        final(w).actors@.len() == old(w).actors@.len(),
        forall|i: int|
            0 <= i < old(w).actors@.len() ==> {
                &&& same_identity(#[trigger] final(w).actors@[i], old(w).actors@[i])
                &&& final(w).actors@[i].prev == old(w).actors@[i].prev
                &&& final(w).actors@[i].body == old(w).actors@[i].body
                &&& final(w).actors@[i].door == old(w).actors@[i].door
                &&& final(w).actors@[i].push == old(w).actors@[i].push
                &&& push_applied_entry(*old(w), *final(w), dt, i)
            },
{
    let n = w.actors.len();
    let mut i: usize = 0;
    while i < n
        invariant
            old(w).wf(),
            w.grid == old(w).grid,
            dt <= crate::math::DT_LIMIT_MS,
            n == w.actors@.len() == old(w).actors@.len(),
            i <= n,
            forall|kk: int|
                0 <= kk < n ==> {
                    &&& same_identity(#[trigger] w.actors@[kk], old(w).actors@[kk])
                    &&& w.actors@[kk].prev == old(w).actors@[kk].prev
                    &&& w.actors@[kk].body == old(w).actors@[kk].body
                    &&& w.actors@[kk].door == old(w).actors@[kk].door
                    &&& w.actors@[kk].push == old(w).actors@[kk].push
                },
            forall|kk: int| i <= kk < n ==> (#[trigger] w.actors@[kk]).pos == old(w).actors@[kk].pos,
            forall|kk: int| 0 <= kk < i ==> push_applied_entry(*old(w), *w, dt, kk),
        decreases n - i,
    {
        proof {
            assert(actor_wf(old(w).actors@[i as int]));
            assert(w.actors@[i as int].pos == old(w).actors@[i as int].pos);
        }
        let ghost ws = *w;
        let has_body = w.actors[i].body.is_some();
        if has_body {
            if let Some(p) = &w.actors[i].push {
                if p.vel.x != 0 || p.vel.y != 0 {
                    let np = crate::push::push_apply(w.actors[i].pos, p.vel, dt);
                    w.actors[i].pos = np;
                }
            }
        }
        proof {
            assert(push_applied_entry(*old(w), *w, dt, i as int));
            assert forall|kk2: int| 0 <= kk2 < i + 1 implies push_applied_entry(
                *old(w),
                *w,
                dt,
                kk2,
            ) by {
                if kk2 < i {
                    assert(push_applied_entry(*old(w), ws, dt, kk2));
                    assert(w.actors@[kk2] == ws.actors@[kk2]);
                }
            };
        }
        i += 1;
    }
}

/// What the stall check leaves of an actor's push state: cleared when
/// marked with nonzero velocity yet exactly back at its previous
/// position, kept otherwise.
pub open spec fn stalled_push(a: WolfActor) -> Option<WolfPush> {
    match a.push {
        Option::Some(p) => {
            if p.vel != (Vec2I { x: 0, y: 0 }) && a.pos == a.prev {
                Option::<WolfPush>::None
            } else {
                Option::Some(p)
            }
        },
        Option::None => Option::None,
    }
}

/// The stall pass, run after resolution: a still-marked push whose
/// body gained no ground this tick (the resolver returned it exactly
/// to its previous position) clears its marker, returning the entity
/// to idle.
pub fn push_stall_pass(w: &mut WolfWorld)
    requires
        old(w).wf(),
    ensures
        final(w).wf(),
        final(w).grid == old(w).grid,
        final(w).actors@.len() == old(w).actors@.len(),
        forall|i: int|
            0 <= i < old(w).actors@.len() ==> {
                &&& same_identity(#[trigger] final(w).actors@[i], old(w).actors@[i])
                &&& final(w).actors@[i].pos == old(w).actors@[i].pos
                &&& final(w).actors@[i].prev == old(w).actors@[i].prev
                &&& final(w).actors@[i].body == old(w).actors@[i].body
                &&& final(w).actors@[i].door == old(w).actors@[i].door
                &&& final(w).actors@[i].push == stalled_push(old(w).actors@[i])
            },
{
    let n = w.actors.len();
    let mut i: usize = 0;
    while i < n
        invariant
            old(w).wf(),
            w.grid == old(w).grid,
            n == w.actors@.len() == old(w).actors@.len(),
            i <= n,
            w.wf(),
            forall|kk: int|
                0 <= kk < n ==> {
                    &&& same_identity(#[trigger] w.actors@[kk], old(w).actors@[kk])
                    &&& w.actors@[kk].pos == old(w).actors@[kk].pos
                    &&& w.actors@[kk].prev == old(w).actors@[kk].prev
                    &&& w.actors@[kk].body == old(w).actors@[kk].body
                    &&& w.actors@[kk].door == old(w).actors@[kk].door
                },
            forall|kk: int| i <= kk < n ==> (#[trigger] w.actors@[kk]).push == old(w).actors@[kk].push,
            forall|kk: int|
                0 <= kk < i ==> (#[trigger] w.actors@[kk]).push == stalled_push(
                    old(w).actors@[kk],
                ),
        decreases n - i,
    {
        if let Some(p) = &w.actors[i].push {
            let pos = w.actors[i].pos;
            let prev = w.actors[i].prev;
            if crate::push::push_stalled(pos, prev, p.vel) {
                w.actors[i].push = None;
            }
        }
        i += 1;
    }
}

/// The actor as the tick's snapshot and move input leave it before
/// scanning: shadow taken, then the host's last admissible move
/// applied.
pub open spec fn post_move_actor(a: WolfActor, moves: Seq<(u64, Vec3I)>) -> WolfActor {
    let s = WolfActor { prev: a.pos, ..a };
    WolfActor { pos: target_after_moves(s, moves), ..s }
}

/// The camera at index `ci` hits the interactable at index `tj` this
/// tick, stated over the world the tick starts from: the camera stands
/// at its post-move position, the target at its indexed position from
/// the tick's rebuild, which is its starting position.
pub open spec fn tick_scan_hit(
    wold: WolfWorld,
    moves: Seq<(u64, Vec3I)>,
    ci: int,
    tj: int,
) -> bool {
    let cam = post_move_actor(wold.actors@[ci], moves);
    let tgt = wold.actors@[tj];
    &&& 0 <= ci < wold.actors@.len()
    &&& 0 <= tj < wold.actors@.len()
    &&& wold.actors@[ci].camera
    &&& tgt.interact
    &&& !tgt.camera
    &&& tgt.body is Some
    &&& in_radius(tgt.pos.plane_spec(), cam.pos.plane_spec(), INTERACT_QUERY_RADIUS)
    &&& ray_hits_shape_spec(
        cam.pos.plane_spec(),
        wold.actors@[ci].facing,
        tgt.pos.plane_spec(),
        tgt.body->Some_0.shape,
        tgt.body->Some_0.radius as int,
    )
}

/// The event records a real hit of this tick.
pub open spec fn tick_event_sound(
    wold: WolfWorld,
    moves: Seq<(u64, Vec3I)>,
    e: WolfInteractEvent,
) -> bool {
    exists|a: int, b: int|
        #[trigger] tick_scan_hit(wold, moves, a, b) && e == hit_event(wold.actors@, a, b)
}

/// The whole actor set as the snapshot and the move input leave it.
pub open spec fn post_move_actors(wold: WolfWorld, moves: Seq<(u64, Vec3I)>) -> Seq<WolfActor> {
    wold.actors@.map(|i: int, a: WolfActor| post_move_actor(a, moves))
}

/// What the stall check makes of a push state at the tick's end: a
/// nonzero-velocity push whose body ended exactly at its previous
/// position clears; everything else stands.
pub open spec fn stall_outcome(p: Option<WolfPush>, pos: Vec3I, prev: Vec3I) -> Option<WolfPush> {
    match p {
        Option::None => Option::None,
        Option::Some(q) => {
            if q.vel != (Vec2I { x: 0, y: 0 }) && pos == prev {
                Option::<WolfPush>::None
            } else {
                Option::Some(q)
            }
        },
    }
}

/// No entry of the host's move input names the entity.
pub open spec fn no_move_for(moves: Seq<(u64, Vec3I)>, id: u64) -> bool {
    forall|k: int| 0 <= k < moves.len() ==> (#[trigger] moves[k]).0 != id
}

/// One simulation step. Fixed order: snapshot previous transforms,
/// rebuild the spatial index from current positions, apply the host's
/// movement input, scan interactions on the pressed edge, let pushes
/// consume events and move their bodies, resolve all raw
/// displacements, clear stalled pushes, and advance the doors. The
/// returned events are this tick's stream; they are never buffered
/// across ticks.
#[verifier::rlimit(100)]
pub fn tick(w: &mut WolfWorld, dt: u64, moves: &Vec<(u64, Vec3I)>, pressed: bool) -> (ev: Vec<
    WolfInteractEvent,
>)
    requires
        old(w).wf(),
        dt <= crate::math::DT_LIMIT_MS,
    ensures
        final(w).wf(),
        final(w).actors@.len() == old(w).actors@.len(),
        forall|i: int|
            0 <= i < old(w).actors@.len() ==> {
                &&& same_identity(#[trigger] final(w).actors@[i], old(w).actors@[i])
                &&& final(w).actors@[i].prev == old(w).actors@[i].pos
            },
        !pressed ==> ev@.len() == 0,
        forall|k1: int, k2: int| 0 <= k1 < k2 < ev@.len() ==> ev@[k1] != ev@[k2],
        forall|k: int|
            0 <= k < ev@.len() ==> tick_event_sound(*old(w), moves@, #[trigger] ev@[k]),
        forall|i: int|
            0 <= i < old(w).actors@.len() && !push_applies(
                post_move_actors(*old(w), moves@),
                ev@,
                i,
                ev@.len() as int,
            ) ==> (#[trigger] final(w).actors@[i]).push == stall_outcome(
                old(w).actors@[i].push,
                final(w).actors@[i].pos,
                final(w).actors@[i].prev,
            ),
        forall|i: int|
            0 <= i < old(w).actors@.len() && push_applies(
                post_move_actors(*old(w), moves@),
                ev@,
                i,
                ev@.len() as int,
            ) ==> exists|p: WolfPush|
                {
                    &&& #[trigger] push_set_by(
                        post_move_actors(*old(w), moves@),
                        ev@,
                        i,
                        ev@.len() as int,
                        p,
                    )
                    &&& final(w).actors@[i].push == stall_outcome(
                        Option::Some(p),
                        final(w).actors@[i].pos,
                        final(w).actors@[i].prev,
                    )
                },
        pressed ==> forall|a: int, b: int|
            #[trigger] tick_scan_hit(*old(w), moves@, a, b) ==> event_emitted(
                ev@,
                0,
                ev@.len() as int,
                hit_event(old(w).actors@, a, b),
            ),
        forall|i: int|
            0 <= i < old(w).actors@.len() ==> ((#[trigger] old(w).actors@[i]).door
                matches Option::Some(d) ==> exists|blocked: bool|
                final(w).actors@[i].door == Option::Some(
                    #[trigger] door_next_spec(
                        d,
                        event_targets(ev@, old(w).actors@[i].id),
                        dt,
                        blocked,
                    ),
                )),
        forall|i: int|
            0 <= i < old(w).actors@.len() ==> ((#[trigger] old(w).actors@[i]).door is Some
                && (old(w).actors@[i].body matches Option::Some(b)
                ==> final(w).actors@[i].body == Option::Some(
                crate::body::WolfBody {
                    disabled: (final(w).actors@[i].door->Some_0
                        matches crate::door::DoorState::Open { .. }),
                    ..b
                },
            ))) || old(w).actors@[i].door is None,
        forall|i: int|
            0 <= i < old(w).actors@.len() && no_move_for(moves@, old(w).actors@[i].id)
                && !event_targets(ev@, old(w).actors@[i].id) && ((#[trigger] old(
                w,
            ).actors@[i]).push is None || old(w).actors@[i].push->Some_0.vel == (Vec2I {
                x: 0,
                y: 0,
            })) ==> final(w).actors@[i].pos == old(w).actors@[i].pos,
{
    let ghost w0 = *old(w);
    snapshot_prev(w);
    let ghost w1 = *w;
    proof {
        assert forall|i: int| 0 <= i < w.actors@.len() implies actor_wf(
            #[trigger] w.actors@[i],
        ) by {
            assert(actor_wf(w0.actors@[i]));
            assert(w.actors@[i] == (WolfActor { prev: w0.actors@[i].pos, ..w0.actors@[i] }));
        };
        assert(w.wf());
    }
    rebuild_grid(w);
    let ghost w2 = *w;
    apply_moves(w, moves);
    let ghost w3 = *w;
    let ev = scan_interactions(w, pressed);
    proof {
        let n = w.actors@.len() as int;
        assert forall|a: int, b: int|
            0 <= a < n && 0 <= b < n implies (scan_hit(w.actors@, w.grid@, a, b) == tick_scan_hit(
            *old(w),
            moves@,
            a,
            b,
        ) && hit_event(w.actors@, a, b) == hit_event(old(w).actors@, a, b)) by {
            assert(w1.actors@[a] == (WolfActor { prev: w0.actors@[a].pos, ..w0.actors@[a] }));
            assert(w1.actors@[b] == (WolfActor { prev: w0.actors@[b].pos, ..w0.actors@[b] }));
            assert(w2.actors@[a] == w1.actors@[a]);
            assert(w2.actors@[b] == w1.actors@[b]);
            assert(w.actors@[a].pos == target_after_moves(w2.actors@[a], moves@));
            assert(same_identity(w.actors@[a], w2.actors@[a]));
            assert(same_identity(w.actors@[b], w2.actors@[b]));
            assert(w.actors@[b].body == w2.actors@[b].body);
            assert(w.grid == w2.grid);
            assert(w2.grid@.contains_key(w2.actors@[b].id));
            assert(w2.grid@[w2.actors@[b].id] == w2.actors@[b].pos.plane_spec());
            assert(w2.actors@[a] == (WolfActor {
                prev: old(w).actors@[a].pos,
                ..old(w).actors@[a]
            }));
            assert(post_move_actor(old(w).actors@[a], moves@).pos == w.actors@[a].pos);
            assert(w2.actors@[b].pos == old(w).actors@[b].pos);
            assert(w.actors@[a].facing == old(w).actors@[a].facing);
        };
        assert forall|k: int| 0 <= k < ev@.len() implies tick_event_sound(
            *old(w),
            moves@,
            #[trigger] ev@[k],
        ) by {
            assert(event_sound(w.actors@, w.grid@, w.actors@.len() as int, ev@[k]));
            let (a, b) = choose|a: int, b: int|
                0 <= a < w.actors@.len() && #[trigger] scan_hit(w.actors@, w.grid@, a, b)
                    && ev@[k] == hit_event(w.actors@, a, b);
            assert(tick_scan_hit(*old(w), moves@, a, b));
            assert(ev@[k] == hit_event(old(w).actors@, a, b));
        };
        if pressed {
            assert forall|a: int, b: int|
                #[trigger] tick_scan_hit(*old(w), moves@, a, b) implies event_emitted(
                ev@,
                0,
                ev@.len() as int,
                hit_event(old(w).actors@, a, b),
            ) by {
                assert(scan_hit(w.actors@, w.grid@, a, b));
                assert(event_emitted(ev@, 0, ev@.len() as int, hit_event(w.actors@, a, b)));
            };
        }
    }
    proof {
        assert(w.actors@ =~= post_move_actors(*old(w), moves@)) by {
            assert forall|j: int|
                0 <= j < w.actors@.len() implies w.actors@[j] == post_move_actors(
                *old(w),
                moves@,
            )[j] by {
                assert(w1.actors@[j] == (WolfActor { prev: w0.actors@[j].pos, ..w0.actors@[j] }));
                assert(w2.actors@[j] == w1.actors@[j]);
                assert(w.actors@[j].pos == target_after_moves(w2.actors@[j], moves@));
                assert(same_identity(w.actors@[j], w2.actors@[j]));
                assert(w.actors@[j].prev == w2.actors@[j].prev);
                assert(w.actors@[j].body == w2.actors@[j].body);
                assert(w.actors@[j].door == w2.actors@[j].door);
                assert(w.actors@[j].push == w2.actors@[j].push);
            };
        };
    }
    let ghost pm = w.actors@;
    push_consume(w, &ev);
    let ghost w4 = *w;
    push_apply_all(w, dt);
    let ghost w5 = *w;
    proof {
        assert(crate::resolver::pre_resolve(*w)) by {
            assert forall|i: int|
                0 <= i < w.actors@.len() implies {
                let a = #[trigger] w.actors@[i];
                &&& a.prev.bounded_spec(crate::math::POS_LIMIT)
                &&& -crate::math::POS_LIMIT <= a.pos.z <= crate::math::POS_LIMIT
                &&& -crate::math::MOVE_LIMIT <= a.pos.x - a.prev.x <= crate::math::MOVE_LIMIT
                &&& -crate::math::MOVE_LIMIT <= a.pos.y - a.prev.y <= crate::math::MOVE_LIMIT
                &&& (a.body is None ==> a.pos.bounded_spec(crate::math::POS_LIMIT))
                &&& a.facing.bounded_spec(1000)
                &&& (a.door matches Option::Some(d) ==> crate::door::door_wf(d))
                &&& (a.push matches Option::Some(p) ==> crate::push::push_vel_wf(p.vel))
            } by {
                assert(actor_wf(w0.actors@[i]));
                assert(actor_wf(w3.actors@[i]));
                assert(actor_wf(w4.actors@[i]));
                assert(w1.actors@[i] == (WolfActor { prev: w0.actors@[i].pos, ..w0.actors@[i] }));
                assert(w2.actors@[i] == w1.actors@[i]);
                assert(w3.actors@[i].prev == w1.actors@[i].prev);
                assert(w4.actors@[i].pos == w3.actors@[i].pos);
                assert(w4.actors@[i].prev == w3.actors@[i].prev);
                assert(push_applied_entry(w4, *w, dt, i));
                assert(w.actors@[i].prev == w4.actors@[i].prev);
                assert(w.actors@[i].body == w4.actors@[i].body);
                assert(w.actors@[i].door == w4.actors@[i].door);
                assert(w.actors@[i].push == w4.actors@[i].push);
                assert(same_identity(w.actors@[i], w4.actors@[i]));
                assert(w3.actors@[i].pos == target_after_moves(w2.actors@[i], moves@));
                lemma_target_admissible(w2.actors@[i], moves@);
                if w3.actors@[i].pos == w2.actors@[i].pos {
                    assert(w3.actors@[i].pos == w3.actors@[i].prev);
                } else {
                    assert(move_admissible(w2.actors@[i], w3.actors@[i].pos));
                }
            };
            assert(crate::resolver::actor_ids_unique(w.actors@)) by {
                assert forall|a: int, b: int|
                    0 <= a < b < w.actors@.len() implies w.actors@[a].id != w.actors@[b].id by {
                    assert(same_identity(w.actors@[a], w4.actors@[a]));
                    assert(same_identity(w.actors@[b], w4.actors@[b]));
                };
            };
            assert(crate::resolver::bodies_wf(w.actors@)) by {
                assert forall|j: int|
                    0 <= j < w.actors@.len() implies ((#[trigger] w.actors@[j]).body
                    matches Option::Some(b) ==> b.wf()) by {
                    assert(actor_wf(w4.actors@[j]));
                    assert(w.actors@[j].body == w4.actors@[j].body);
                };
            };
        };
        assert(crate::resolver::grid_matches_prev(*w)) by {
            assert forall|j: int|
                0 <= j < w.actors@.len() implies {
                &&& w.grid@.contains_key((#[trigger] w.actors@[j]).id)
                &&& w.grid@[w.actors@[j].id] == w.actors@[j].prev.plane_spec()
            } by {
                assert(w.grid == w2.grid);
                assert(w2.grid@.contains_key(w2.actors@[j].id));
                assert(w2.grid@[w2.actors@[j].id] == w2.actors@[j].pos.plane_spec());
                assert(w2.actors@[j] == w1.actors@[j]);
                assert(w1.actors@[j] == (WolfActor { prev: w0.actors@[j].pos, ..w0.actors@[j] }));
                assert(same_identity(w.actors@[j], w4.actors@[j]));
                assert(same_identity(w4.actors@[j], w3.actors@[j]));
                assert(same_identity(w3.actors@[j], w2.actors@[j]));
                assert(w.actors@[j].prev == w4.actors@[j].prev);
                assert(w4.actors@[j].prev == w3.actors@[j].prev);
                assert(w3.actors@[j].prev == w2.actors@[j].prev);
            };
        };
    }
    let flags = crate::resolver::resolve_all(w);
    let ghost w6 = *w;
    push_stall_pass(w);
    let ghost w7 = *w;
    door_pass(w, &ev, dt);
    proof {
        assert forall|i: int|
            0 <= i < old(w).actors@.len() && no_move_for(moves@, old(w).actors@[i].id)
                && !event_targets(ev@, old(w).actors@[i].id) && ((#[trigger] old(
                w,
            ).actors@[i]).push is None || old(w).actors@[i].push->Some_0.vel == (Vec2I {
                x: 0,
                y: 0,
            })) implies final(w).actors@[i].pos == old(w).actors@[i].pos by {
            let id = old(w).actors@[i].id;
            assert(w1.actors@[i] == (WolfActor { prev: w0.actors@[i].pos, ..w0.actors@[i] }));
            assert(w3.actors@[i].pos == target_after_moves(w2.actors@[i], moves@));
            assert(no_move_for(moves@, w2.actors@[i].id));
            lemma_no_move_keeps(w2.actors@[i], moves@);
            assert(w3.actors@[i].pos == w1.actors@[i].pos);
            assert(!push_applies(w3.actors@, ev@, i, ev@.len() as int)) by {
                if push_applies(w3.actors@, ev@, i, ev@.len() as int) {
                    let (ke, je) = choose|ke: int, je: int|
                        {
                            &&& 0 <= ke < ev@.len()
                            &&& (#[trigger] ev@[ke]).entity == w3.actors@[i].id
                            &&& w3.actors@[i].pushable
                            &&& 0 <= je < w3.actors@.len()
                            &&& w3.actors@[je].id == ev@[ke].interactor
                            &&& (#[trigger] crate::push::push_trigger_spec(
                                w3.actors@[je].pos,
                                w3.actors@[i].pos,
                            )) is Some
                        };
                    assert(event_targets(ev@, id));
                    assert(false);
                }
            };
            assert(w4.actors@[i].push == w3.actors@[i].push);
            assert(push_applied_entry(w4, w5, dt, i));
            assert(w5.actors@[i].pos == w4.actors@[i].pos);
            assert(w5.actors@[i].pos.plane_spec() == w5.actors@[i].prev.plane_spec());
            assert(crate::resolver::resolved_entry(w5, w6, flags@, i));
            assert(!crate::resolver::plane_moved(w5.actors@[i]));
            assert(w6.actors@[i].pos == w5.actors@[i].pos);
            assert(w7.actors@[i].pos == w6.actors@[i].pos);
            assert(final(w).actors@[i].pos == w7.actors@[i].pos);
        };
        assert forall|i: int|
            0 <= i < old(w).actors@.len() implies ((#[trigger] old(w).actors@[i]).door
            matches Option::Some(d) ==> exists|blocked: bool|
            final(w).actors@[i].door == Option::Some(
                #[trigger] door_next_spec(
                    d,
                    event_targets(ev@, old(w).actors@[i].id),
                    dt,
                    blocked,
                ),
            )) by {
            if old(w).actors@[i].door is Some {
                let d = old(w).actors@[i].door->Some_0;
                assert(door_pass_entry(w7, *w, ev@, dt, i));
                assert(w7.actors@[i].door == old(w).actors@[i].door);
                assert(w7.actors@[i].id == old(w).actors@[i].id);
                let b0 = door_blocked_spec(w7.actors@, w7.grid@, i);
                assert(final(w).actors@[i].door == Option::Some(
                    door_next_spec(d, event_targets(ev@, old(w).actors@[i].id), dt, b0),
                ));
            }
        };
        assert forall|i: int|
            0 <= i < old(w).actors@.len() implies ((#[trigger] old(w).actors@[i]).door is Some
            && (old(w).actors@[i].body matches Option::Some(b)
            ==> final(w).actors@[i].body == Option::Some(
            crate::body::WolfBody {
                disabled: (final(w).actors@[i].door->Some_0
                    matches crate::door::DoorState::Open { .. }),
                ..b
            },
        ))) || old(w).actors@[i].door is None by {
            if old(w).actors@[i].door is Some && old(w).actors@[i].body is Some {
                assert(door_pass_entry(w7, *w, ev@, dt, i));
                assert(w7.actors@[i].door == old(w).actors@[i].door);
                assert(w7.actors@[i].body == old(w).actors@[i].body);
            }
        };
        assert forall|i: int|
            0 <= i < old(w).actors@.len() implies {
            &&& (!push_applies(pm, ev@, i, ev@.len() as int) ==> (#[trigger] final(w).actors@[i]).push == stall_outcome(
                old(w).actors@[i].push,
                final(w).actors@[i].pos,
                final(w).actors@[i].prev,
            ))
            &&& (push_applies(pm, ev@, i, ev@.len() as int) ==> exists|p: WolfPush|
                {
                    &&& #[trigger] push_set_by(pm, ev@, i, ev@.len() as int, p)
                    &&& final(w).actors@[i].push == stall_outcome(
                        Option::Some(p),
                        final(w).actors@[i].pos,
                        final(w).actors@[i].prev,
                    )
                })
        } by {
            assert(w3.actors@ == pm);
            assert(w3.actors@[i].push == old(w).actors@[i].push);
            assert(w5.actors@[i].push == w4.actors@[i].push);
            assert(w6.actors@[i].push == w5.actors@[i].push);
            assert(w7.actors@[i].push == stalled_push(w6.actors@[i]));
            assert(final(w).actors@[i].push == w7.actors@[i].push);
            assert(w6.actors@[i].pos == final(w).actors@[i].pos);
            assert(w6.actors@[i].prev == final(w).actors@[i].prev);
            if !push_applies(pm, ev@, i, ev@.len() as int) {
                assert(w4.actors@[i].push == w3.actors@[i].push);
            }
        };
    }
    ev
}

} // verus!
use wolf_core::DoorState;
use wolf_core::Timer;
use wolf_core::Vec2I;
use wolf_core::Vec3I;
use wolf_core::WolfActor;
use wolf_core::WolfBody;
use wolf_core::WolfPush;
use wolf_core::WolfShape;
use wolf_core::WolfWorld;
use wolf_core::tick;

fn v2(x: i64, y: i64) -> Vec2I {
    Vec2I { x, y }
}

fn v3(x: i64, y: i64, z: i64) -> Vec3I {
    Vec3I { x, y, z }
}

fn plain_actor(id: u64, pos: Vec3I) -> WolfActor {
    WolfActor {
        id,
        pos,
        prev: pos,
        facing: v2(1000, 0),
        camera: false,
        interact: false,
        pushable: false,
        body: None,
        door: None,
        push: None,
    }
}

fn ball_body(radius: i64) -> WolfBody {
    WolfBody {
        height: 1000,
        radius,
        shape: WolfShape::Ball,
        disabled: false,
    }
}

fn cube_body(radius: i64) -> WolfBody {
    WolfBody {
        height: 1000,
        radius,
        shape: WolfShape::Cuboid,
        disabled: false,
    }
}

#[test]
fn spawn_validates_and_rejects_duplicates() {
    let mut w = WolfWorld::new();
    assert!(w.spawn(plain_actor(1, v3(0, 0, 0))));
    // duplicate id
    assert!(!w.spawn(plain_actor(1, v3(500, 0, 0))));
    // out-of-arena position
    assert!(!w.spawn(plain_actor(2, v3(2_000_000, 0, 0))));
    // zero body radius
    let mut bad = plain_actor(3, v3(0, 0, 0));
    bad.body = Some(WolfBody {
        height: 1000,
        radius: 0,
        shape: WolfShape::Ball,
        disabled: false,
    });
    assert!(!w.spawn(bad));
    // diagonal push velocity
    let mut bad = plain_actor(4, v3(0, 0, 0));
    bad.push = Some(WolfPush { vel: v2(1000, 1000) });
    assert!(!w.spawn(bad));
}

#[test]
fn zero_displacement_keeps_positions() {
    let mut w = WolfWorld::new();
    let mut a = plain_actor(1, v3(1500, 500, 0));
    a.body = Some(ball_body(300));
    assert!(w.spawn(a));
    let mut b = plain_actor(2, v3(4500, 500, 0));
    b.body = Some(cube_body(500));
    assert!(w.spawn(b));
    let ev = tick(&mut w, 16, &Vec::new(), false);
    assert!(ev.is_empty());
    assert_eq!(w.actors[0].pos, v3(1500, 500, 0));
    assert_eq!(w.actors[1].pos, v3(4500, 500, 0));
    // the previous-transform shadow took this tick's snapshot
    assert_eq!(w.actors[0].prev, v3(1500, 500, 0));
}

#[test]
fn mover_stops_at_wall() {
    let mut w = WolfWorld::new();
    let mut mover = plain_actor(1, v3(0, 0, 0));
    mover.body = Some(ball_body(300));
    assert!(w.spawn(mover));
    let mut wall = plain_actor(2, v3(1200, 0, 0));
    wall.body = Some(cube_body(500));
    assert!(w.spawn(wall));
    // the host asks for a straight move into the wall
    let moves = vec![(1u64, v3(600, 0, 0))];
    tick(&mut w, 16, &moves, false);
    // the push-out loop leaves the disc just clear of the face
    assert_eq!(w.actors[0].pos, v3(384, 0, 0));
    assert_eq!(w.actors[1].pos, v3(1200, 0, 0));
}

#[test]
fn resolved_balls_never_interpenetrate() {
    let mut w = WolfWorld::new();
    let mut mover = plain_actor(1, v3(0, 0, 0));
    mover.body = Some(ball_body(300));
    assert!(w.spawn(mover));
    let mut still = plain_actor(2, v3(1200, 0, 0));
    still.body = Some(ball_body(300));
    assert!(w.spawn(still));
    let moves = vec![(1u64, v3(1100, 0, 0))];
    tick(&mut w, 16, &moves, false);
    let dx = w.actors[1].pos.x - w.actors[0].pos.x;
    let dy = w.actors[1].pos.y - w.actors[0].pos.y;
    // center distance stays at least the radius sum
    assert!(dx * dx + dy * dy >= 600 * 600);
}

#[test]
fn disabled_bodies_do_not_collide() {
    let mut w = WolfWorld::new();
    let mut mover = plain_actor(1, v3(0, 0, 0));
    mover.body = Some(ball_body(300));
    assert!(w.spawn(mover));
    let mut ghost_wall = plain_actor(2, v3(700, 0, 0));
    ghost_wall.body = Some(WolfBody {
        height: 1000,
        radius: 500,
        shape: WolfShape::Cuboid,
        disabled: true,
    });
    assert!(w.spawn(ghost_wall));
    let moves = vec![(1u64, v3(700, 0, 0))];
    tick(&mut w, 16, &moves, false);
    // the mover passes straight through the disabled obstacle
    assert_eq!(w.actors[0].pos, v3(700, 0, 0));
}

#[test]
fn interact_scan_emits_exactly_once() {
    let mut w = WolfWorld::new();
    let mut cam = plain_actor(1, v3(0, 0, 0));
    cam.camera = true;
    cam.facing = v2(1000, 0);
    assert!(w.spawn(cam));
    let mut target = plain_actor(2, v3(500, 0, 0));
    target.interact = true;
    target.body = Some(ball_body(300));
    assert!(w.spawn(target));
    // pressed edge: exactly one event, interactor camera, target the body
    let ev = tick(&mut w, 16, &Vec::new(), true);
    assert_eq!(ev.len(), 1);
    assert_eq!(ev[0].interactor, 1);
    assert_eq!(ev[0].entity, 2);
    // input not held: none the next tick
    let ev = tick(&mut w, 16, &Vec::new(), false);
    assert!(ev.is_empty());
}

#[test]
fn interact_scan_needs_tag_and_reach() {
    let mut w = WolfWorld::new();
    let mut cam = plain_actor(1, v3(0, 0, 0));
    cam.camera = true;
    assert!(w.spawn(cam));
    // a body without the interactable tag is not scanned
    let mut untagged = plain_actor(2, v3(500, 0, 0));
    untagged.body = Some(ball_body(300));
    assert!(w.spawn(untagged));
    // a tagged body beyond the ray length is not hit
    let mut far = plain_actor(3, v3(1500, 0, 0));
    far.interact = true;
    far.body = Some(ball_body(300));
    assert!(w.spawn(far));
    let ev = tick(&mut w, 16, &Vec::new(), true);
    assert!(ev.is_empty());
}

#[test]
fn door_opens_on_interact_and_auto_closes() {
    let mut w = WolfWorld::new();
    let mut cam = plain_actor(1, v3(-1500, 0, 0));
    cam.camera = true;
    cam.facing = v2(1000, 0);
    assert!(w.spawn(cam));
    let mut door = plain_actor(2, v3(-500, 0, 0));
    door.interact = true;
    door.body = Some(cube_body(500));
    door.door = Some(DoorState::Closed);
    assert!(w.spawn(door));
    // the interact press reaches the door face and starts it opening;
    // the trigger tick does not also advance the fresh timer
    tick(&mut w, 100, &Vec::new(), true);
    match w.actors[1].door {
        Some(DoorState::Opening { opening }) => assert_eq!(opening.current, 500),
        ref other => panic!("expected Opening, got {:?}", other),
    }
    assert!(!w.actors[1].body.unwrap().disabled);
    // the swing time brings it Open, whose entry action disables the
    // collision body the same tick
    tick(&mut w, 500, &Vec::new(), false);
    assert!(matches!(w.actors[1].door, Some(DoorState::Open { .. })));
    assert!(w.actors[1].body.unwrap().disabled);
    // the camera stands 1000 away from the door: outside the footprint
    // tolerance, so the auto-close countdown runs out and Closing
    // re-enables the collider at once
    tick(&mut w, 3000, &Vec::new(), false);
    assert!(matches!(w.actors[1].door, Some(DoorState::Closing { .. })));
    assert!(!w.actors[1].body.unwrap().disabled);
    tick(&mut w, 500, &Vec::new(), false);
    assert_eq!(w.actors[1].door, Some(DoorState::Closed));
    assert!(!w.actors[1].body.unwrap().disabled);
}

#[test]
fn occupied_door_stays_open() {
    let mut w = WolfWorld::new();
    let mut cam = plain_actor(1, v3(-600, 0, 0));
    cam.camera = true;
    cam.facing = v2(1000, 0);
    cam.body = Some(ball_body(300));
    assert!(w.spawn(cam));
    let mut door = plain_actor(2, v3(0, 0, 0));
    door.interact = true;
    door.body = Some(cube_body(500));
    door.door = Some(DoorState::Closed);
    assert!(w.spawn(door));
    tick(&mut w, 0, &Vec::new(), true);
    tick(&mut w, 500, &Vec::new(), false);
    assert!(matches!(w.actors[1].door, Some(DoorState::Open { .. })));
    // the camera's body stands 600 away: within the footprint
    // tolerance, so any amount of time never starts the close
    for _ in 0..5 {
        tick(&mut w, 10_000, &Vec::new(), false);
        assert!(matches!(w.actors[1].door, Some(DoorState::Open { .. })));
    }
}

#[test]
fn push_moves_box_until_blocked_then_clears() {
    let mut w = WolfWorld::new();
    let mut cam = plain_actor(1, v3(0, 0, 0));
    cam.camera = true;
    cam.facing = v2(1000, 0);
    assert!(w.spawn(cam));
    let mut pushed = plain_actor(2, v3(1000, 0, 0));
    pushed.interact = true;
    pushed.pushable = true;
    pushed.body = Some(cube_body(500));
    assert!(w.spawn(pushed));
    let mut wall = plain_actor(3, v3(3000, 0, 0));
    wall.body = Some(cube_body(500));
    assert!(w.spawn(wall));
    // the interact press sets the push velocity and the same tick
    // already moves the box by velocity * dt along +x
    tick(&mut w, 500, &Vec::new(), true);
    assert_eq!(w.actors[1].push, Some(WolfPush { vel: v2(1000, 0) }));
    assert_eq!(w.actors[1].pos, v3(1500, 0, 0));
    // it keeps moving at constant speed while unobstructed
    tick(&mut w, 500, &Vec::new(), false);
    assert_eq!(w.actors[1].pos, v3(2000, 0, 0));
    // the wall halts it; within one tick of zero net displacement the
    // push marker is removed
    let mut cleared_at = None;
    for i in 0..6 {
        tick(&mut w, 500, &Vec::new(), false);
        if w.actors[1].push.is_none() {
            cleared_at = Some(i);
            break;
        }
    }
    assert!(cleared_at.is_some());
    // the box never interpenetrates the wall
    assert!(w.actors[2].pos.x - w.actors[1].pos.x >= 1000 - 16);
    // and stays idle afterwards
    let resting = w.actors[1].pos;
    tick(&mut w, 500, &Vec::new(), false);
    assert_eq!(w.actors[1].pos, resting);
    assert!(w.actors[1].push.is_none());
}

#[test]
fn push_ignores_diagonal_interactor() {
    let mut w = WolfWorld::new();
    let mut cam = plain_actor(1, v3(0, 0, 0));
    cam.camera = true;
    // facing the box diagonally
    cam.facing = v2(707, 707);
    assert!(w.spawn(cam));
    let mut pushed = plain_actor(2, v3(1000, 1000, 0));
    pushed.interact = true;
    pushed.pushable = true;
    pushed.body = Some(cube_body(500));
    assert!(w.spawn(pushed));
    tick(&mut w, 500, &Vec::new(), true);
    // the event arrives but the diagonal cell displacement is ignored
    assert_eq!(w.actors[1].push, None);
    assert_eq!(w.actors[1].pos, v3(1000, 1000, 0));
}

#[test]
fn out_of_bounds_moves_are_ignored() {
    let mut w = WolfWorld::new();
    let mut a = plain_actor(1, v3(0, 0, 0));
    a.body = Some(ball_body(300));
    assert!(w.spawn(a));
    // a jump beyond the per-tick move limit is dropped
    let moves = vec![(1u64, v3(900_000, 0, 0))];
    tick(&mut w, 16, &moves, false);
    assert_eq!(w.actors[0].pos, v3(0, 0, 0));
    // a move for an entity that does not exist is silently skipped
    let moves = vec![(99u64, v3(1000, 0, 0))];
    tick(&mut w, 16, &moves, false);
    assert_eq!(w.actors[0].pos, v3(0, 0, 0));
}

#[test]
fn two_cameras_emit_distinct_events() {
    let mut w = WolfWorld::new();
    let mut cam_a = plain_actor(1, v3(-500, 0, 0));
    cam_a.camera = true;
    cam_a.facing = v2(1000, 0);
    assert!(w.spawn(cam_a));
    let mut cam_b = plain_actor(2, v3(500, 0, 0));
    cam_b.camera = true;
    cam_b.facing = v2(-1000, 0);
    assert!(w.spawn(cam_b));
    let mut target = plain_actor(3, v3(0, 0, 0));
    target.interact = true;
    target.body = Some(cube_body(400));
    assert!(w.spawn(target));
    // both cameras face the target from opposite sides: one event each
    let ev = tick(&mut w, 16, &Vec::new(), true);
    assert_eq!(ev.len(), 2);
    assert!(ev[0] != ev[1]);
    assert!(ev.iter().all(|e| e.entity == 3));
    assert!(ev.iter().any(|e| e.interactor == 1));
    assert!(ev.iter().any(|e| e.interactor == 2));
}

#[test]
fn door_footprint_boundary() {
    // an occupant exactly at the tolerance edge still blocks the door
    let mut w = WolfWorld::new();
    let mut door = plain_actor(1, v3(0, 0, 0));
    door.body = Some(cube_body(500));
    door.door = Some(DoorState::Open {
        auto_close_timer: Timer { current: 3000, start: 3000 },
    });
    assert!(w.spawn(door));
    let mut occupant = plain_actor(2, v3(980, 0, 0));
    occupant.body = Some(ball_body(300));
    assert!(w.spawn(occupant));
    tick(&mut w, 5000, &Vec::new(), false);
    assert!(matches!(w.actors[0].door, Some(DoorState::Open { .. })));

    // one milli-unit beyond the footprint it no longer blocks
    let mut w = WolfWorld::new();
    let mut door = plain_actor(1, v3(0, 0, 0));
    door.body = Some(cube_body(500));
    door.door = Some(DoorState::Open {
        auto_close_timer: Timer { current: 3000, start: 3000 },
    });
    assert!(w.spawn(door));
    let mut bystander = plain_actor(2, v3(981, 0, 0));
    bystander.body = Some(ball_body(300));
    assert!(w.spawn(bystander));
    tick(&mut w, 5000, &Vec::new(), false);
    assert!(matches!(w.actors[0].door, Some(DoorState::Closing { .. })));
}

#[test]
fn door_blocked_by_diagonal_occupant() {
    // footprint boxes overlap at a diagonal offset, beyond the old
    // axis distances but within the corner reach
    let mut w = WolfWorld::new();
    let mut door = plain_actor(1, v3(0, 0, 0));
    door.body = Some(cube_body(500));
    door.door = Some(DoorState::Open {
        auto_close_timer: Timer { current: 3000, start: 3000 },
    });
    assert!(w.spawn(door));
    let mut occupant = plain_actor(2, v3(800, 800, 0));
    occupant.body = Some(ball_body(300));
    assert!(w.spawn(occupant));
    tick(&mut w, 5000, &Vec::new(), false);
    assert!(matches!(w.actors[0].door, Some(DoorState::Open { .. })));
}

#[test]
fn interact_scan_uses_target_shape() {
    // a disc the length-1 ray misses, though a square of the same
    // half-extent at the same spot would be hit
    let mut w = WolfWorld::new();
    let mut cam = plain_actor(1, v3(0, 0, 0));
    cam.camera = true;
    cam.facing = v2(1000, 0);
    assert!(w.spawn(cam));
    let mut disc = plain_actor(2, v3(1250, 250, 0));
    disc.interact = true;
    disc.body = Some(ball_body(300));
    assert!(w.spawn(disc));
    let ev = tick(&mut w, 16, &Vec::new(), true);
    assert!(ev.is_empty());

    let mut w = WolfWorld::new();
    let mut cam = plain_actor(1, v3(0, 0, 0));
    cam.camera = true;
    cam.facing = v2(1000, 0);
    assert!(w.spawn(cam));
    let mut square = plain_actor(2, v3(1250, 250, 0));
    square.interact = true;
    square.body = Some(cube_body(300));
    assert!(w.spawn(square));
    let ev = tick(&mut w, 16, &Vec::new(), true);
    assert_eq!(ev.len(), 1);
}

#[test]
fn moved_body_keeps_incoming_z() {
    let mut w = WolfWorld::new();
    let mut mover = plain_actor(1, v3(0, 0, 0));
    mover.body = Some(ball_body(300));
    assert!(w.spawn(mover));
    let moves = vec![(1u64, v3(500, 0, 700))];
    tick(&mut w, 16, &moves, false);
    assert_eq!(w.actors[0].pos, v3(500, 0, 700));
}

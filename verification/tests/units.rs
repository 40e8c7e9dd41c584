use wolf_core::Contact;
use wolf_core::DoorState;
use wolf_core::Timer;
use wolf_core::Vec2I;
use wolf_core::Vec3I;
use wolf_core::contact;
use wolf_core::contact_ball_ball;
use wolf_core::contact_ball_box;
use wolf_core::contact_box_box;
use wolf_core::door_advance;
use wolf_core::door_offset;
use wolf_core::door_trigger;
use wolf_core::isqrt;
use wolf_core::push_apply;
use wolf_core::push_stalled;
use wolf_core::push_trigger;
use wolf_core::ray_hits_box;
use wolf_core::ray_hits_circle;
use wolf_core::WolfBody;
use wolf_core::WolfGrid;
use wolf_core::WolfShape;

fn v2(x: i64, y: i64) -> Vec2I {
    Vec2I { x, y }
}

fn v3(x: i64, y: i64, z: i64) -> Vec3I {
    Vec3I { x, y, z }
}

#[test]
fn isqrt_exact_values() {
    assert_eq!(isqrt(0), 0);
    assert_eq!(isqrt(1), 1);
    assert_eq!(isqrt(24), 4);
    assert_eq!(isqrt(25), 5);
    assert_eq!(isqrt(26), 5);
    assert_eq!(isqrt(1_000_000), 1000);
}

#[test]
fn grid_insert_then_replace_keeps_one_entry() {
    let mut g = WolfGrid::new();
    g.insert_or_replace(7, v2(1000, 2000));
    g.insert_or_replace(7, v2(3000, 4000));
    // exactly one entry for the id, at the later position
    let hits = g.query_around(v2(3000, 4000), 0);
    assert_eq!(hits.len(), 1);
    assert_eq!(hits[0].0, 7);
    assert_eq!(hits[0].1, v2(3000, 4000));
    // the earlier position no longer answers
    let misses = g.query_around(v2(1000, 2000), 100);
    assert_eq!(misses.len(), 0);
}

#[test]
fn grid_query_center_hit_with_zero_radius() {
    let mut g = WolfGrid::new();
    g.insert_or_replace(1, v2(-500, 250));
    let hits = g.query_around(v2(-500, 250), 0);
    assert_eq!(hits.len(), 1);
    assert_eq!(hits[0].0, 1);
}

#[test]
fn grid_query_boundary_is_inclusive() {
    // entry at Euclidean distance exactly 5000 from the center
    let mut g = WolfGrid::new();
    g.insert_or_replace(9, v2(3000, 4000));
    let at_edge = g.query_around(v2(0, 0), 5000);
    assert_eq!(at_edge.len(), 1);
    let inside_only = g.query_around(v2(0, 0), 4999);
    assert_eq!(inside_only.len(), 0);
}

#[test]
fn grid_clear_empties() {
    let mut g = WolfGrid::new();
    g.insert_or_replace(1, v2(0, 0));
    g.insert_or_replace(2, v2(100, 100));
    g.clear();
    assert_eq!(g.query_around(v2(0, 0), 10_000).len(), 0);
}

#[test]
fn timer_ticks_down_and_clamps() {
    let mut t = Timer::start(1000);
    assert!(!t.is_done());
    t.tick(250);
    assert_eq!(t.current, 750);
    assert_eq!(t.alpha(), 250);
    t.tick(10_000);
    assert_eq!(t.current, 0);
    assert!(t.is_done());
    assert_eq!(t.alpha(), 1000);
}

#[test]
fn timer_zero_length_is_done_at_once() {
    let t = Timer::start(0);
    assert!(t.is_done());
    assert_eq!(t.alpha(), 1000);
}

#[test]
fn door_full_cycle() {
    let d0 = DoorState::Closed;
    assert_eq!(door_offset(&d0), 0);
    let d1 = door_trigger(&d0);
    match d1 {
        DoorState::Opening { opening } => {
            assert_eq!(opening.current, 500);
            assert_eq!(opening.start, 500);
        }
        _ => panic!("expected Opening"),
    }
    // entering Open disables the collider the same tick
    let (d2, dis1) = door_advance(&d1, 500, false);
    assert!(dis1);
    match d2 {
        DoorState::Open { auto_close_timer } => {
            assert_eq!(auto_close_timer.current, 3000);
        }
        _ => panic!("expected Open"),
    }
    assert_eq!(door_offset(&d2), 1000);
    // leaving Open re-enables it at once
    let (d3, dis2) = door_advance(&d2, 3000, false);
    assert!(!dis2);
    match d3 {
        DoorState::Closing { closing } => assert_eq!(closing.current, 500),
        _ => panic!("expected Closing"),
    }
    let (d4, dis3) = door_advance(&d3, 500, false);
    assert!(!dis3);
    assert_eq!(d4, DoorState::Closed);
}

#[test]
fn door_opens_after_enough_partial_ticks() {
    // one event, then ticking at least the swing time in pieces
    let mut d = door_trigger(&DoorState::Closed);
    let mut became_open = false;
    for _ in 0..3 {
        let (nd, _) = door_advance(&d, 200, false);
        d = nd;
        if matches!(d, DoorState::Open { .. }) {
            became_open = true;
            break;
        }
    }
    assert!(became_open);
}

#[test]
fn blocked_open_door_never_starts_closing() {
    let (opened, _) = door_advance(
        &DoorState::Opening {
            opening: Timer { current: 1, start: 500 },
        },
        1,
        false,
    );
    assert!(matches!(opened, DoorState::Open { .. }));
    let mut d = opened;
    for _ in 0..10 {
        let (nd, dis) = door_advance(&d, 100_000, true);
        assert!(dis);
        assert_eq!(nd, d);
        d = nd;
    }
    assert!(matches!(d, DoorState::Open { .. }));
}

#[test]
fn door_events_ignored_unless_closed() {
    let opening = DoorState::Opening {
        opening: Timer { current: 300, start: 500 },
    };
    assert_eq!(door_trigger(&opening), opening);
    let open = DoorState::Open {
        auto_close_timer: Timer { current: 10, start: 3000 },
    };
    assert_eq!(door_trigger(&open), open);
    let closing = DoorState::Closing {
        closing: Timer { current: 300, start: 500 },
    };
    assert_eq!(door_trigger(&closing), closing);
}

#[test]
fn door_offset_while_swinging() {
    let opening = DoorState::Opening {
        opening: Timer { current: 250, start: 500 },
    };
    assert_eq!(door_offset(&opening), 500);
    let closing = DoorState::Closing {
        closing: Timer { current: 100, start: 500 },
    };
    // alpha is 800 per-mille through the close, so the offset is 200
    assert_eq!(door_offset(&closing), 200);
}

#[test]
fn push_trigger_axis_alignment() {
    // camera at the origin, box one cell along +x: pushed along +x
    let vel = push_trigger(v3(0, 0, 0), v3(1000, 0, 0));
    assert_eq!(vel, Some(v2(1000, 0)));
    // away from the interactor on the other side
    let vel = push_trigger(v3(2000, 0, 0), v3(1000, 0, 0));
    assert_eq!(vel, Some(v2(-1000, 0)));
    // along +y
    let vel = push_trigger(v3(500, 500, 0), v3(500, 1500, 0));
    assert_eq!(vel, Some(v2(0, 1000)));
    // diagonal displacement is ignored
    assert_eq!(push_trigger(v3(0, 0, 0), v3(1000, 1000, 0)), None);
    // same cell is ignored
    assert_eq!(push_trigger(v3(0, 0, 0), v3(500, 0, 0)), None);
}

#[test]
fn push_apply_moves_at_constant_speed() {
    let p = push_apply(v3(1000, 0, 77), v2(1000, 0), 16);
    assert_eq!(p, v3(1016, 0, 77));
    let p = push_apply(v3(1000, 0, 0), v2(0, -1000), 250);
    assert_eq!(p, v3(1000, -250, 0));
    let p = push_apply(v3(1000, 0, 0), v2(0, 0), 250);
    assert_eq!(p, v3(1000, 0, 0));
}

#[test]
fn push_stall_detection() {
    assert!(push_stalled(v3(5, 5, 0), v3(5, 5, 0), v2(1000, 0)));
    assert!(!push_stalled(v3(6, 5, 0), v3(5, 5, 0), v2(1000, 0)));
    assert!(!push_stalled(v3(5, 5, 0), v3(5, 5, 0), v2(0, 0)));
}

#[test]
fn ray_hits_square_ahead() {
    // the ray reaches a square centered half a unit ahead
    assert!(ray_hits_box(v2(0, 0), v2(1000, 0), v2(500, 0), 300));
    // starting inside counts as a hit at once
    assert!(ray_hits_box(v2(0, 0), v2(1000, 0), v2(100, 0), 300));
}

#[test]
fn ray_misses_square_beyond_reach() {
    // nearest face at 1.2 units, ray length 1
    assert!(!ray_hits_box(v2(0, 0), v2(1000, 0), v2(1500, 0), 300));
    // exactly at reach: face at 1.0, boundary included
    assert!(ray_hits_box(v2(0, 0), v2(1000, 0), v2(1300, 0), 300));
}

#[test]
fn ray_misses_square_off_axis() {
    assert!(!ray_hits_box(v2(0, 0), v2(1000, 0), v2(500, 500), 300));
    assert!(ray_hits_box(v2(0, 0), v2(1000, 0), v2(500, 300), 300));
    // behind the origin
    assert!(!ray_hits_box(v2(0, 0), v2(1000, 0), v2(-700, 0), 300));
}

#[test]
fn contact_ball_ball_exact() {
    let c = contact_ball_ball(v2(0, 0), 500, v2(800, 0), 500);
    assert_eq!(
        c,
        Some(Contact {
            dist: -200,
            normal: Vec2I { x: 1000, y: 0 },
        })
    );
    // touching counts as contact
    let c = contact_ball_ball(v2(0, 0), 500, v2(1000, 0), 500);
    assert_eq!(c.unwrap().dist, 0);
    // separated
    assert_eq!(contact_ball_ball(v2(0, 0), 500, v2(1001, 0), 500), None);
}

#[test]
fn contact_box_box_exact() {
    let c = contact_box_box(v2(0, 0), 500, v2(900, 0), 500);
    assert_eq!(
        c,
        Some(Contact {
            dist: -100,
            normal: Vec2I { x: 1000, y: 0 },
        })
    );
    // the smaller overlap picks the axis
    let c = contact_box_box(v2(0, 0), 500, v2(100, -950), 500);
    assert_eq!(
        c,
        Some(Contact {
            dist: -50,
            normal: Vec2I { x: 0, y: -1000 },
        })
    );
    assert_eq!(contact_box_box(v2(0, 0), 500, v2(1100, 0), 500), None);
}

#[test]
fn contact_ball_box_exact() {
    // disc to the left of the square, overlapping its face
    let c = contact_ball_box(v2(0, 0), 300, v2(700, 0), 500);
    let c = c.unwrap();
    assert_eq!(c.dist, -100);
    assert_eq!(c.normal, v2(1000, 0));
    // disc center inside the square
    let c = contact_ball_box(v2(600, 0), 300, v2(700, 0), 500);
    let c = c.unwrap();
    assert_eq!(c.dist, -(300 + 400));
    assert_eq!(c.normal, v2(1000, 0));
    // clear
    assert_eq!(contact_ball_box(v2(0, 0), 300, v2(900, 0), 500), None);
}

#[test]
fn contact_dispatch_by_shape() {
    let ball = WolfBody {
        height: 1000,
        radius: 500,
        shape: WolfShape::Ball,
        disabled: false,
    };
    let cube = WolfBody {
        height: 1000,
        radius: 500,
        shape: WolfShape::Cuboid,
        disabled: false,
    };
    assert!(contact(&ball, v2(0, 0), &ball, v2(900, 0)).is_some());
    assert!(contact(&cube, v2(0, 0), &cube, v2(900, 0)).is_some());
    assert!(contact(&ball, v2(0, 0), &cube, v2(900, 0)).is_some());
    // cuboid-vs-ball mirrors ball-vs-cuboid with the normal flipped
    let ab = contact(&ball, v2(0, 0), &cube, v2(900, 0)).unwrap();
    let ba = contact(&cube, v2(900, 0), &ball, v2(0, 0)).unwrap();
    assert_eq!(ab.dist, ba.dist);
    assert_eq!(ab.normal.x, -ba.normal.x);
    assert_eq!(ab.normal.y, -ba.normal.y);
}

#[test]
fn ray_circle_exact() {
    // disc half a unit ahead: hit
    assert!(ray_hits_circle(v2(0, 0), v2(1000, 0), v2(500, 0), 300));
    // touching exactly at the segment end
    assert!(ray_hits_circle(v2(0, 0), v2(1000, 0), v2(1300, 0), 300));
    assert!(!ray_hits_circle(v2(0, 0), v2(1000, 0), v2(1301, 0), 300));
    // offset disc the segment misses though the infinite line would not
    assert!(!ray_hits_circle(v2(0, 0), v2(1000, 0), v2(1250, 250), 300));
    // interior minimum: closest approach within the radius
    assert!(ray_hits_circle(v2(0, 0), v2(1000, 0), v2(500, 250), 300));
    // starting inside
    assert!(ray_hits_circle(v2(0, 0), v2(1000, 0), v2(100, 0), 300));
    // behind the origin
    assert!(!ray_hits_circle(v2(0, 0), v2(1000, 0), v2(-700, 0), 300));
}

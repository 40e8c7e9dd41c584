//! Simulation core for a tile-based first-person game world.
//!
//! The library keeps a queryable spatial index of moving entities, resolves
//! per-tick movement against overlapping collision shapes, ray-casts player
//! interaction against nearby interactable bodies, and drives the door and
//! push state machines off the resulting interaction events.
//!
//! All geometry is carried in fixed-point milli-units (1000 per world unit)
//! and all time in milliseconds, so every quantity is an integer and every
//! routine is verified exactly; the host converts at the boundary.

mod body;
mod door;
mod grid;
mod interact;
mod math;
mod push;
mod resolver;
mod timer;
mod world;

pub use body::Contact;
pub use body::RADIUS_LIMIT;
pub use body::WolfBody;
pub use body::WolfShape;
pub use body::contact;
pub use body::contact_ball_ball;
pub use body::contact_ball_box;
pub use body::contact_box_box;
pub use door::DOOR_AUTO_CLOSE_MS;
pub use door::DOOR_OPEN_MS;
pub use door::DoorState;
pub use door::door_advance;
pub use door::door_offset;
pub use door::door_trigger;
pub use grid::WolfGrid;
pub use interact::WolfInteractEvent;
pub use interact::ray_hits_box;
pub use interact::ray_hits_circle;
pub use interact::ray_hits_shape;
pub use push::PUSH_SPEED;
pub use push::WolfPush;
pub use push::push_apply;
pub use push::push_stalled;
pub use push::push_trigger;
pub use math::DT_LIMIT_MS;
pub use math::MOVE_LIMIT;
pub use math::POS_LIMIT;
pub use math::Vec2I;
pub use math::Vec3I;
pub use math::isqrt;
pub use resolver::resolve_all;
pub use resolver::resolve_move;
pub use timer::Timer;
pub use world::WolfActor;
pub use world::WolfWorld;
pub use world::door_pass;
pub use world::push_apply_all;
pub use world::push_consume;
pub use world::push_stall_pass;
pub use world::scan_interactions;
pub use world::snapshot_prev;
pub use world::rebuild_grid;
pub use world::apply_moves;
pub use world::tick;

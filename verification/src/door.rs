//! The door state machine.
//!
//! A door cycles Closed -> Opening -> Open -> Closing -> Closed. An
//! interaction event opens it only from Closed; the other transitions
//! are timer-driven, and an occupied doorway holds an Open door open.
//! The door's collision body is disabled exactly while the door is
//! Open. Event consumption and per-tick advancement are two separate
//! passes over the door set within one tick.

use vstd::prelude::*;

use crate::timer::Timer;
use crate::timer::timer_tick_spec;
use crate::timer::timer_alpha_spec;

verus! {

/// How long a door takes to swing open or closed, in milliseconds.
pub const DOOR_OPEN_MS: u64 = 500;

/// How long an unblocked door stays open before it starts closing, in
/// milliseconds.
pub const DOOR_AUTO_CLOSE_MS: u64 = 3000;

/// The four door states; a state owns the timer that drives it.
#[derive(Clone, Copy, Debug, PartialEq, Eq, Structural)]
pub enum DoorState {
    Closed,
    Closing { closing: Timer },
    Opening { opening: Timer },
    Open { auto_close_timer: Timer },
}

impl Default for DoorState {
    /// Doors start closed.
    fn default() -> (r: DoorState)
        ensures
            r == DoorState::Closed,
    {
        DoorState::Closed
    }
}

/// Any timer the state carries is well-formed.
pub open spec fn door_wf(s: DoorState) -> bool {
    match s {
        DoorState::Closed => true,
        DoorState::Closing { closing } => closing.wf(),
        DoorState::Opening { opening } => opening.wf(),
        DoorState::Open { auto_close_timer } => auto_close_timer.wf(),
    }
}

/// What an interaction event targeting the door does: a Closed door
/// starts opening; events in any other state are ignored.
pub open spec fn door_trigger_spec(s: DoorState) -> DoorState {
    match s {
        DoorState::Closed => DoorState::Opening {
            opening: Timer { current: DOOR_OPEN_MS, start: DOOR_OPEN_MS },
        },
        _ => s,
    }
}

/// One per-tick advancement by `dt` milliseconds. `blocked` reports
/// whether another body overlaps the door footprint; it only matters
/// in Open, where it pauses the auto-close countdown.
pub open spec fn door_advance_spec(s: DoorState, dt: u64, blocked: bool) -> DoorState {
    match s {
        DoorState::Closed => DoorState::Closed,
        DoorState::Closing { closing } => {
            let t = timer_tick_spec(closing, dt);
            if t.current == 0 {
                DoorState::Closed
            } else {
                DoorState::Closing { closing: t }
            }
        },
        DoorState::Opening { opening } => {
            let t = timer_tick_spec(opening, dt);
            if t.current == 0 {
                DoorState::Open {
                    auto_close_timer: Timer {
                        current: DOOR_AUTO_CLOSE_MS,
                        start: DOOR_AUTO_CLOSE_MS,
                    },
                }
            } else {
                DoorState::Opening { opening: t }
            }
        },
        DoorState::Open { auto_close_timer } => {
            if blocked {
                s
            } else {
                let t = timer_tick_spec(auto_close_timer, dt);
                if t.current == 0 {
                    DoorState::Closing {
                        closing: Timer { current: DOOR_OPEN_MS, start: DOOR_OPEN_MS },
                    }
                } else {
                    DoorState::Open { auto_close_timer: t }
                }
            }
        },
    }
}

/// The visual swing offset a state drives, in per-mille: 0 closed,
/// rising while opening, held at full while open, falling while
/// closing.
pub open spec fn door_offset_spec(s: DoorState) -> u64 {
    match s {
        DoorState::Closed => 0,
        DoorState::Opening { opening } => timer_alpha_spec(opening),
        DoorState::Open { auto_close_timer } => 1000,
        DoorState::Closing { closing } => (1000 - timer_alpha_spec(closing)) as u64,
    }
}

/// Applies an interaction event to the door state.
pub fn door_trigger(s: &DoorState) -> (r: DoorState)
    ensures
        r == door_trigger_spec(*s),
        door_wf(*s) ==> door_wf(r),
{
    match s {
        DoorState::Closed => DoorState::Opening { opening: Timer::start(DOOR_OPEN_MS) },
        _ => *s,
    }
}

/// Advances the door by `dt` milliseconds, and reports whether the
/// door's collision body is disabled for the tick: exactly when the
/// state the door ends in is Open, the entry action of that state.
pub fn door_advance(s: &DoorState, dt: u64, blocked: bool) -> (r: (DoorState, bool))
    requires
        door_wf(*s),
    ensures
        r.0 == door_advance_spec(*s, dt, blocked),
        r.1 <==> r.0 matches DoorState::Open { .. },
        door_wf(r.0),
{
    match s {
        DoorState::Closed => (DoorState::Closed, false),
        DoorState::Closing { closing } => {
            let mut t = *closing;
            t.tick(dt);
            if t.current == 0 {
                (DoorState::Closed, false)
            } else {
                (DoorState::Closing { closing: t }, false)
            }
        },
        DoorState::Opening { opening } => {
            let mut t = *opening;
            t.tick(dt);
            if t.current == 0 {
                (DoorState::Open { auto_close_timer: Timer::start(DOOR_AUTO_CLOSE_MS) }, true)
            } else {
                (DoorState::Opening { opening: t }, false)
            }
        },
        DoorState::Open { auto_close_timer } => {
            if blocked {
                (*s, true)
            } else {
                let mut t = *auto_close_timer;
                t.tick(dt);
                if t.current == 0 {
                    (DoorState::Closing { closing: Timer::start(DOOR_OPEN_MS) }, false)
                } else {
                    (DoorState::Open { auto_close_timer: t }, true)
                }
            }
        },
    }
}

/// The visual swing offset for the state, in per-mille.
pub fn door_offset(s: &DoorState) -> (r: u64)
    requires
        door_wf(*s),
    ensures
        r == door_offset_spec(*s),
        r <= 1000,
{
    match s {
        DoorState::Closed => 0,
        DoorState::Opening { opening } => opening.alpha(),
        DoorState::Open { auto_close_timer } => 1000,
        DoorState::Closing { closing } => 1000 - closing.alpha(),
    }
}

/// The door state after advancing through a whole sequence of tick
/// spans, each under the same blocked report.
pub open spec fn door_run_spec(s: DoorState, dts: Seq<u64>, blocked: bool) -> DoorState
    decreases dts.len(),
{
    if dts.len() == 0 {
        s
    } else {
        door_run_spec(door_advance_spec(s, dts[0], blocked), dts.drop_first(), blocked)
    }
}

/// Total milliseconds in a sequence of tick spans.
pub open spec fn total_ms(dts: Seq<u64>) -> int
    decreases dts.len(),
{
    if dts.len() == 0 {
        0
    } else {
        dts[0] + total_ms(dts.drop_first())
    }
}

/// An interaction event is ignored by a door that is not Closed: no
/// re-trigger while opening or open, no forced close.
pub proof fn lemma_door_event_ignored_unless_closed(s: DoorState)
    requires
        !(s matches DoorState::Closed),
    ensures
        door_trigger_spec(s) == s,
{
}

/// An opening door reaches Open once the ticked time adds up to its
/// remaining swing time: some prefix of the spans leaves it Open,
/// whatever the blocked reports would say.
pub proof fn lemma_opening_reaches_open(t: Timer, dts: Seq<u64>, blocked: bool)
    requires
        t.current > 0,
        total_ms(dts) >= t.current,
    ensures
        exists|k: int|
            0 <= k <= dts.len() && door_run_spec(
                DoorState::Opening { opening: t },
                #[trigger] dts.take(k),
                blocked,
            ) matches DoorState::Open { .. },
    decreases dts.len(),
{
    let s = DoorState::Opening { opening: t };
    let d0 = dts[0];
    let t2 = timer_tick_spec(t, d0);
    let s2 = door_advance_spec(s, d0, blocked);
    if t2.current == 0 {
        reveal_with_fuel(door_run_spec, 3);
        assert(dts.take(1).len() == 1);
        assert(dts.take(1)[0] == d0);
        assert(dts.take(1).drop_first() =~= Seq::<u64>::empty());
        assert(door_run_spec(s, dts.take(1), blocked) == door_run_spec(
            s2,
            dts.take(1).drop_first(),
            blocked,
        ));
        assert(door_run_spec(s, dts.take(1), blocked) == s2);
        assert(s2 matches DoorState::Open { .. });
    } else {
        let rest = dts.drop_first();
        assert(total_ms(rest) >= t2.current);
        lemma_opening_reaches_open(t2, rest, blocked);
        let k = choose|k: int|
            0 <= k <= rest.len() && door_run_spec(
                DoorState::Opening { opening: t2 },
                #[trigger] rest.take(k),
                blocked,
            ) matches DoorState::Open { .. };
        assert(dts.take(k + 1)[0] == d0);
        assert(dts.take(k + 1).drop_first() =~= rest.take(k));
        assert(door_run_spec(s, dts.take(k + 1), blocked) == door_run_spec(
            DoorState::Opening { opening: t2 },
            rest.take(k),
            blocked,
        ));
    }
}

/// From Closed, one interaction event and tick spans adding up to at
/// least the swing time leave the door Open at some point along the
/// way.
pub proof fn lemma_door_opens(dts: Seq<u64>, blocked: bool)
    requires
        total_ms(dts) >= DOOR_OPEN_MS,
    ensures
        exists|k: int|
            0 <= k <= dts.len() && door_run_spec(
                door_trigger_spec(DoorState::Closed),
                #[trigger] dts.take(k),
                blocked,
            ) matches DoorState::Open { .. },
{
    let t = Timer { current: DOOR_OPEN_MS, start: DOOR_OPEN_MS };
    lemma_opening_reaches_open(t, dts, blocked);
}

/// While a body overlaps the footprint of an Open door, ticking any
/// amount of further time never starts it closing: the state and its
/// countdown stay exactly as they are.
pub proof fn lemma_blocked_door_stays_open(t: Timer, dts: Seq<u64>)
    ensures
        (door_run_spec(DoorState::Open { auto_close_timer: t }, dts, true) == DoorState::Open {
            auto_close_timer: t,
        }),
    decreases dts.len(),
{
    if dts.len() > 0 {
        lemma_blocked_door_stays_open(t, dts.drop_first());
    }
}

/// The full unblocked cycle: an event opens a Closed door; the swing
/// time brings it Open; the auto-close time starts it closing; the
/// swing time closes it.
pub proof fn lemma_door_full_cycle()
    ensures
        ({
            let s1 = door_trigger_spec(DoorState::Closed);
            let s2 = door_advance_spec(s1, DOOR_OPEN_MS, false);
            let s3 = door_advance_spec(s2, DOOR_AUTO_CLOSE_MS, false);
            let s4 = door_advance_spec(s3, DOOR_OPEN_MS, false);
            &&& s1 == DoorState::Opening {
                opening: Timer { current: DOOR_OPEN_MS, start: DOOR_OPEN_MS },
            }
            &&& s2 == DoorState::Open {
                auto_close_timer: Timer { current: DOOR_AUTO_CLOSE_MS, start: DOOR_AUTO_CLOSE_MS },
            }
            &&& s3 == DoorState::Closing {
                closing: Timer { current: DOOR_OPEN_MS, start: DOOR_OPEN_MS },
            }
            &&& s4 == DoorState::Closed
        }),
{
}

} // verus!

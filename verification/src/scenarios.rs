//! The scenarios that a plan is built from: the checks that stop a scenario, and the scenarios
//! that carry no geometry.
use vstd::prelude::*;

verus! {

/// How finely a tick is simulated: near the ball, or far from it.
#[derive(Copy, Clone)]
pub enum TickType {
    Near,
    Far,
}

/// Why a scenario stopped.
#[derive(Copy, Clone, Debug)]
pub enum Error {
    Goal,
    TicksLimit,
    MicroTicksLimit,
    BadCondition,
}

/// Stop when a goal has been scored.
pub const GOAL: usize = 1 << 0;

/// Stop when the plan has reached its last tick.
pub const TICK_LIMIT: usize = 1 << 1;

/// Stop when the plan has used up its micro ticks.
pub const MICRO_TICKS_LIMIT: usize = 1 << 2;

pub const LIMITS: usize = TICK_LIMIT | MICRO_TICKS_LIMIT;

pub const ALL: usize = GOAL | LIMITS;

/// Whether `checks` asks for the check `flag`.
pub open spec fn asks(checks: usize, flag: usize) -> bool {
    checks & flag != 0
}

/// The checks made before each simulated tick, in this order: a goal when `GOAL` is asked for and
/// the score is not 0; the last tick when `TICK_LIMIT` is asked for and `current_tick` has reached
/// `max_ticks`; the micro-tick budget when `MICRO_TICKS_LIMIT` is asked for and it is used up.
/// `Ok` when none of them stops the scenario.
pub fn check_limits(
    checks: usize,
    score: i32,
    current_tick: i32,
    max_ticks: i32,
    used_path_micro_ticks: usize,
    max_path_micro_ticks: usize,
) -> (r: Result<(), Error>)
    ensures
        r == if asks(checks, GOAL) && score != 0 {
            Err(Error::Goal)
        } else if asks(checks, TICK_LIMIT) && current_tick >= max_ticks {
            Err(Error::TicksLimit)
        } else if asks(checks, MICRO_TICKS_LIMIT) && used_path_micro_ticks >= max_path_micro_ticks {
            Err(Error::MicroTicksLimit)
        } else {
            Ok(())
        },
{
    if checks & GOAL != 0 && score != 0 {
        return Err(Error::Goal);
    }
    if checks & TICK_LIMIT != 0 && current_tick >= max_ticks {
        return Err(Error::TicksLimit);
    }
    if checks & MICRO_TICKS_LIMIT != 0 && used_path_micro_ticks >= max_path_micro_ticks {
        return Err(Error::MicroTicksLimit);
    }
    Ok(())
}

/// `ALL` asks for every check, `LIMITS` for both limits and not for the goal.
pub proof fn lemma_check_sets()
    ensures
        asks(ALL, GOAL),
        asks(ALL, TICK_LIMIT),
        asks(ALL, MICRO_TICKS_LIMIT),
        !asks(LIMITS, GOAL),
        asks(LIMITS, TICK_LIMIT),
        asks(LIMITS, MICRO_TICKS_LIMIT),
        !asks(0, GOAL),
        !asks(0, TICK_LIMIT),
        !asks(0, MICRO_TICKS_LIMIT),
{
    assert(ALL & GOAL != 0) by (bit_vector);
    assert(ALL & TICK_LIMIT != 0) by (bit_vector);
    assert(ALL & MICRO_TICKS_LIMIT != 0) by (bit_vector);
    assert(LIMITS & GOAL == 0) by (bit_vector);
    assert(LIMITS & TICK_LIMIT != 0) by (bit_vector);
    assert(LIMITS & MICRO_TICKS_LIMIT != 0) by (bit_vector);
    assert(0usize & GOAL == 0) by (bit_vector);
    assert(0usize & TICK_LIMIT == 0) by (bit_vector);
    assert(0usize & MICRO_TICKS_LIMIT == 0) by (bit_vector);
}

/// Jump with the full jump speed towards the ball, using nitro when allowed and available.
#[derive(Debug, Clone)]
pub struct Jump {
    pub allow_nitro: bool,
}

/// Walk and jump towards the place where the ball can be hit.
#[derive(Debug, Clone)]
pub struct FarJump {
    pub allow_nitro: bool,
}

/// Let the simulation run while only the ball moves.
#[derive(Debug, Clone)]
pub struct WatchBallMove {}

} // verus!

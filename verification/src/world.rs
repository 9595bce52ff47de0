//! The counters that the world keeps from tick to tick.
use vstd::prelude::*;
use crate::player::Player;

verus! {

/// The sum of the players' scores.
pub open spec fn total_score(players: Seq<Player>) -> int
    decreases players.len(),
{
    if players.len() == 0 {
        0
    } else {
        total_score(players.drop_last()) + players.last().score
    }
}

/// The sum of the players' scores; it must fit in an `i32`, as each partial sum must.
pub fn players_total_score(players: &Vec<Player>) -> (r: i32)
    requires
        forall|k: int|
            0 <= k <= players@.len() ==> i32::MIN <= #[trigger] total_score(players@.take(k))
                <= i32::MAX,
    ensures
        r == total_score(players@),
{
    let mut sum: i32 = 0;
    let mut i: usize = 0;
    while i < players.len()
        invariant
            i <= players@.len(),
            sum == total_score(players@.take(i as int)),
            forall|k: int|
                0 <= k <= players@.len() ==> i32::MIN <= #[trigger] total_score(players@.take(k))
                    <= i32::MAX,
        decreases players@.len() - i,
    {
        proof {
            assert(players@.take(i + 1).drop_last() =~= players@.take(i as int));
            assert(players@.take(i + 1).last() == players@[i as int]);
            assert(i32::MIN <= total_score(players@.take(i + 1)) <= i32::MAX);
        }
        sum = sum + players[i].score;
        i = i + 1;
    }
    proof {
        assert(players@.take(i as int) =~= players@);
    }
    sum
}

/// The ticks of the pause after a goal that are left after this tick: a goal scored since the
/// last tick (the total score went up) starts a new pause of `reset_ticks` ticks; then one tick of
/// the pause passes.
pub fn next_reset_ticks_left(
    previous_score: i32,
    current_score: i32,
    reset_ticks_left: usize,
    reset_ticks: usize,
) -> (r: usize)
    ensures
        r == if previous_score < current_score {
            if reset_ticks > 0 {
                reset_ticks - 1
            } else {
                0
            }
        } else if reset_ticks_left > 0 {
            reset_ticks_left - 1
        } else {
            0
        },
{
    let mut left = reset_ticks_left;
    if previous_score < current_score {
        left = reset_ticks;
    }
    if left > 0 {
        left - 1
    } else {
        0
    }
}

/// The micro ticks that may have been spent by the tick `current_tick`: `max_act_micro_ticks`
/// for each tick up to the next one.
pub fn get_micro_ticks_limit(current_tick: i32, max_act_micro_ticks: usize) -> (r: usize)
    requires
        -2 <= current_tick <= i32::MAX - 2,
        (current_tick + 2) * max_act_micro_ticks <= usize::MAX,
    ensures
        r == (current_tick + 2) * max_act_micro_ticks,
{
    let ticks = (current_tick + 2) as usize;
    ticks * max_act_micro_ticks
}

/// Whether more micro ticks than allowed by the tick `current_tick` have been spent.
pub fn is_micro_ticks_limit_reached(micro_ticks: usize, current_tick: i32, max_act_micro_ticks: usize) -> (r: bool)
    requires
        -2 <= current_tick <= i32::MAX - 2,
        (current_tick + 2) * max_act_micro_ticks <= usize::MAX,
    ensures
        r == (micro_ticks > (current_tick + 2) * max_act_micro_ticks),
{
    micro_ticks > get_micro_ticks_limit(current_tick, max_act_micro_ticks)
}

} // verus!

//! Giving orders to the robots: what the orders of a tick share, when an order acts, how much
//! planning an order may do, and which plan becomes the active order.
use vstd::prelude::*;
use crate::common::IdGenerator;
use crate::random::XorShiftRng;

verus! {

/// The micro ticks of planning that a tick allows for all robots together.
pub const MAX_PLAN_MICRO_TICKS: usize = 40000;

/// The score by which another robot's plan must beat the active plan to replace it.
pub const ORDER_SWITCH_MARGIN: i32 = 116;

/// The generator, the order identifiers and the micro-tick count shared by the orders of a tick.
pub struct OrderContext<'r> {
    pub rng: &'r mut XorShiftRng,
    pub order_id_generator: &'r mut IdGenerator,
    pub micro_ticks: &'r mut usize,
}

/// The action of a plan for the tick `tick` ticks from now: the action at that position, if the
/// plan reaches that far.
pub fn action_at<T>(actions: &Vec<T>, tick: i32) -> (r: Option<&T>)
    ensures
        0 <= tick < actions@.len() ==> (r matches Some(a) && *a == actions@[tick as int]),
        !(0 <= tick < actions@.len()) ==> r is None,
{
    if 0 <= tick && (tick as usize) < actions.len() {
        Some(&actions[tick as usize])
    } else {
        None
    }
}

/// The micro ticks of planning for one robot: the tick's budget shared by the team.
pub fn max_plan_micro_ticks(team_size: i32) -> (r: usize)
    requires
        team_size > 0,
    ensures
        r == MAX_PLAN_MICRO_TICKS / (team_size as usize),
{
    MAX_PLAN_MICRO_TICKS / team_size as usize
}

/// The micro ticks that a plan may use: its own budget, and no more than what the game's limit
/// leaves after `used` micro ticks.
pub fn plan_micro_ticks_budget(max_plan: usize, limit: usize, used: usize) -> (r: usize)
    ensures
        r == if limit >= used {
            if max_plan <= limit - used {
                max_plan
            } else {
                (limit - used) as usize
            }
        } else {
            0
        },
        r <= max_plan,
        used + r <= limit || r == 0,
{
    let spent = if used <= limit {
        used
    } else {
        limit
    };
    let left = limit - spent;
    if max_plan <= left {
        max_plan
    } else {
        left
    }
}

/// The index of the last highest score, as `Iterator::max_by_key` picks it; `None` for no scores.
pub fn best_index(scores: &Vec<i32>) -> (r: Option<usize>)
    ensures
        scores@.len() == 0 <==> r is None,
        r matches Some(k) ==> {
            &&& k < scores@.len()
            &&& forall|j: int| 0 <= j < scores@.len() ==> scores@[j] <= scores@[k as int]
            &&& forall|j: int| k < j < scores@.len() ==> scores@[j] < scores@[k as int]
        },
{
    if scores.len() == 0 {
        return None;
    }
    let mut best: usize = 0;
    let mut i: usize = 1;
    while i < scores.len()
        invariant
            0 < i <= scores@.len(),
            best < i,
            forall|j: int| 0 <= j < i ==> scores@[j] <= scores@[best as int],
            forall|j: int| best < j < i ==> scores@[j] < scores@[best as int],
        decreases scores@.len() - i,
    {
        if scores[i] >= scores[best] {
            best = i;
        }
        i = i + 1;
    }
    Some(best)
}

/// Which plan the robots follow.
#[derive(Debug, Copy, Clone, PartialEq, Eq, Structural)]
pub enum ActiveChoice {
    /// No robot has a plan.
    NoOrder,
    /// The robot that had the active order keeps its new plan.
    Keep,
    /// The plan of the robot at this position of the other robots becomes the active order.
    Switch(usize),
}

/// The choice of the active order. `current` is the score of the new plan of the robot that had
/// the active order, when there is one; `others` are the scores of the other robots' plans. With a
/// current plan, the best other plan replaces it only when it scores more than
/// `ORDER_SWITCH_MARGIN` above it; without one, the best other plan is taken, if any.
pub fn choose_active_order(current: Option<i32>, others: &Vec<i32>) -> (r: ActiveChoice)
    requires
        current matches Some(c) ==> c <= i32::MAX - ORDER_SWITCH_MARGIN,
    ensures
        current is None ==> (r is NoOrder <==> others@.len() == 0),
        current is Some ==> (r is Keep || r is Switch),
        r matches ActiveChoice::Switch(k) ==> {
            &&& k < others@.len()
            &&& forall|j: int| 0 <= j < others@.len() ==> others@[j] <= others@[k as int]
            &&& forall|j: int| k < j < others@.len() ==> others@[j] < others@[k as int]
            &&& current matches Some(c) ==> others@[k as int] > c + ORDER_SWITCH_MARGIN
        },
        r is Keep ==> (current matches Some(c) && forall|j: int|
            0 <= j < others@.len() ==> others@[j] <= c + ORDER_SWITCH_MARGIN),
{
    let best = best_index(others);
    match current {
        Some(c) => match best {
            Some(k) => if others[k] > c + ORDER_SWITCH_MARGIN {
                ActiveChoice::Switch(k)
            } else {
                ActiveChoice::Keep
            },
            None => ActiveChoice::Keep,
        },
        None => match best {
            Some(k) => ActiveChoice::Switch(k),
            None => ActiveChoice::NoOrder,
        },
    }
}


/// Whether `robot` (its identifier, and whether it is a teammate) gets a plan made besides the
/// robot of the active order: every teammate but that robot.
pub open spec fn plans_besides(active_robot: Option<i32>, robot: (i32, bool)) -> bool {
    robot.1 && match active_robot {
        Some(a) => robot.0 != a,
        None => true,
    }
}

/// The robots whose plans are made at a tick, in the order they are made: with an active
/// order, its robot first, then every other teammate in the game's order; without one, every
/// teammate in order.
pub open spec fn spec_plan_requests(active_robot: Option<i32>, robots: Seq<(i32, bool)>) -> Seq<i32> {
    let others = robots.filter(|r: (i32, bool)| plans_besides(active_robot, r)).map_values(
        |r: (i32, bool)| r.0,
    );
    match active_robot {
        Some(a) => seq![a].add(others),
        None => others,
    }
}

/// The robots to plan for, as `spec_plan_requests` gives them; `robots` holds each robot's
/// identifier and whether it is a teammate.
pub fn plan_requests(active_robot: Option<i32>, robots: &Vec<(i32, bool)>) -> (r: Vec<i32>)
    ensures
        r@ == spec_plan_requests(active_robot, robots@),
{
    let mut result: Vec<i32> = Vec::new();
    if let Some(a) = active_robot {
        result.push(a);
    }
    let ghost prefix = result@;
    let mut j: usize = 0;
    while j < robots.len()
        invariant
            j <= robots@.len(),
            prefix == match active_robot {
                Some(a) => seq![a],
                None => Seq::<i32>::empty(),
            },
            result@ == prefix.add(
                robots@.take(j as int).filter(|r: (i32, bool)| plans_besides(active_robot, r)).map_values(
                    |r: (i32, bool)| r.0,
                ),
            ),
        decreases robots@.len() - j,
    {
        let (id, is_teammate) = robots[j];
        proof {
            assert(robots@.take(j + 1) =~= robots@.take(j as int).push(robots@[j as int]));
            reveal(Seq::filter);
            assert(robots@.take(j + 1).drop_last() =~= robots@.take(j as int));
            assert(robots@.take(j + 1).last() == robots@[j as int]);
        }
        let besides = match active_robot {
            Some(a) => is_teammate && id != a,
            None => is_teammate,
        };
        if besides {
            result.push(id);
        }
        j = j + 1;
        proof {
            assert(result@ =~= prefix.add(
                robots@.take(j as int).filter(|r: (i32, bool)| plans_besides(active_robot, r)).map_values(
                    |r: (i32, bool)| r.0,
                ),
            ));
        }
    }
    proof {
        assert(robots@.take(j as int) =~= robots@);
        assert(result@ =~= spec_plan_requests(active_robot, robots@));
    }
    result
}

/// The first position of a plan that may replace the active order: 1 when there is an active
/// order (position 0 is its robot's new plan), else 0.
pub open spec fn first_movable(has_active: bool) -> int {
    if has_active {
        1
    } else {
        0
    }
}

/// Whether the plan at position `p` may become the active order: at or after `first`, and a
/// plan was found there.
pub open spec fn movable(scores: Seq<Option<i32>>, first: int, p: int) -> bool {
    first <= p < scores.len() && scores[p] is Some
}

/// The plan that becomes the active order, by its position among the plans made in the order
/// of `plan_requests` (`None` where no plan was found). With an active order (`has_active`),
/// position 0 is the new plan of its robot: when there is one, the best other plan (the last
/// of the highest score) replaces it only when it scores more than `ORDER_SWITCH_MARGIN` above
/// it; when there is none, or without an active order, the best plan made is taken, if any.
pub fn choose_active_plan(has_active: bool, scores: &Vec<Option<i32>>) -> (r: Option<usize>)
    requires
        has_active ==> scores@.len() > 0,
        has_active && scores@[0] is Some ==> scores@[0]->0 <= i32::MAX - ORDER_SWITCH_MARGIN,
    ensures
        r matches Some(p) ==> p < scores@.len() && scores@[p as int] is Some,
        has_active && scores@[0] is Some ==> ({
            let c = scores@[0]->0;
            &&& r is Some
            &&& (r == Some(0usize)) <==> (forall|q: int|
                movable(scores@, 1, q) ==> #[trigger] scores@[q]->0 <= c + ORDER_SWITCH_MARGIN)
            &&& r matches Some(p) ==> (p != 0 ==> scores@[p as int]->0 > c + ORDER_SWITCH_MARGIN)
        }),
        !(has_active && scores@[0] is Some) ==> (r is None <==> forall|q: int|
            !#[trigger] movable(scores@, first_movable(has_active), q)),
        r matches Some(p) ==> ((!has_active || p != 0) ==> {
            let first = first_movable(has_active);
            &&& movable(scores@, first, p as int)
            &&& forall|q: int|
                movable(scores@, first, q) ==> #[trigger] scores@[q]->0 <= scores@[p as int]->0
            &&& forall|q: int|
                p < q && movable(scores@, first, q) ==> #[trigger] scores@[q]->0 < scores@[p as int]->0
        }),
{
    let first: usize = if has_active {
        1
    } else {
        0
    };
    let mut best: Option<usize> = None;
    let mut i: usize = first;
    while i < scores.len()
        invariant
            first == (if has_active { 1usize } else { 0usize }),
            first <= i <= scores@.len() || (i == first && scores@.len() < first),
            best is None <==> forall|q: int| q < i ==> !#[trigger] movable(scores@, first as int, q),
            best matches Some(b) ==> {
                &&& b < i
                &&& movable(scores@, first as int, b as int)
                &&& forall|q: int|
                    q < i && movable(scores@, first as int, q) ==> #[trigger] scores@[q]->0
                        <= scores@[b as int]->0
                &&& forall|q: int|
                    b < q < i && movable(scores@, first as int, q) ==> #[trigger] scores@[q]->0
                        < scores@[b as int]->0
            },
        decreases scores@.len() - i,
    {
        proof {
            assert(movable(scores@, first as int, i as int) == (scores@[i as int] is Some));
            if best is Some {
                assert(movable(scores@, first as int, best->0 as int));
            }
        }
        if let Some(s) = scores[i] {
            match best {
                None => {
                    best = Some(i);
                },
                Some(b) => {
                    if s >= scores[b].unwrap() {
                        best = Some(i);
                    }
                },
            }
        }
        i = i + 1;
    }
    proof {
        assert forall|q: int| movable(scores@, first as int, q) implies q < i by {}
        assert(first as int == first_movable(has_active));
        if best is Some {
            assert(movable(scores@, first as int, best->0 as int));
        }
    }
    if has_active {
        if let Some(c) = scores[0] {
            return match best {
                Some(b) => if scores[b].unwrap() > c + ORDER_SWITCH_MARGIN {
                    Some(b)
                } else {
                    Some(0)
                },
                None => Some(0),
            };
        }
    }
    best
}

/// What a robot without the active order is told to do.
#[derive(Debug, Copy, Clone, PartialEq, Eq, Structural)]
pub enum PassiveOrder {
    /// Go for the nearest nitro pack.
    TakeNitroPack,
    /// Walk to the goalkeeper's position.
    WalkToGoalkeeperPosition,
}

/// A robot short of nitro, with a nitro pack found for it, goes for the pack; every other
/// robot walks to the goalkeeper's position.
pub open spec fn passive_order_of(short_of_nitro: bool, nitro_pack_found: bool) -> PassiveOrder {
    if short_of_nitro && nitro_pack_found {
        PassiveOrder::TakeNitroPack
    } else {
        PassiveOrder::WalkToGoalkeeperPosition
    }
}

/// The orders of the robots other than the robot of the active order, in the game's order,
/// each with its robot's identifier.
pub open spec fn spec_passive_orders(
    active_robot: Option<i32>,
    robot_ids: Seq<i32>,
    short_of_nitro: Seq<bool>,
    nitro_pack_found: Seq<bool>,
) -> Seq<(i32, PassiveOrder)> {
    Seq::new(
        robot_ids.len(),
        |i: int| (robot_ids[i], passive_order_of(short_of_nitro[i], nitro_pack_found[i])),
    ).filter(|e: (i32, PassiveOrder)| active_robot != Some(e.0))
}

/// A robot is sent for a nitro pack exactly when it is short of nitro and a pack was found for
/// it; a robot that is not short of nitro walks to the goalkeeper's position.
pub proof fn lemma_passive_order_of(short_of_nitro: bool, nitro_pack_found: bool)
    ensures
        (passive_order_of(short_of_nitro, nitro_pack_found) == PassiveOrder::TakeNitroPack) <==> (
        short_of_nitro && nitro_pack_found),
        !short_of_nitro ==> passive_order_of(short_of_nitro, nitro_pack_found)
            == PassiveOrder::WalkToGoalkeeperPosition,
        !nitro_pack_found ==> passive_order_of(short_of_nitro, nitro_pack_found)
            == PassiveOrder::WalkToGoalkeeperPosition,
{
}

proof fn lemma_passive_orders_entry(
    active_robot: Option<i32>,
    robot_ids: Seq<i32>,
    short_of_nitro: Seq<bool>,
    nitro_pack_found: Seq<bool>,
    k: int,
) -> (i: int)
    requires
        short_of_nitro.len() == robot_ids.len(),
        nitro_pack_found.len() == robot_ids.len(),
        0 <= k < spec_passive_orders(active_robot, robot_ids, short_of_nitro, nitro_pack_found).len(),
    ensures
        0 <= i < robot_ids.len(),
        active_robot != Some(robot_ids[i]),
        spec_passive_orders(active_robot, robot_ids, short_of_nitro, nitro_pack_found)[k].0 == robot_ids[i],
        (spec_passive_orders(active_robot, robot_ids, short_of_nitro, nitro_pack_found)[k].1
            == PassiveOrder::TakeNitroPack) == (short_of_nitro[i] && nitro_pack_found[i]),
{
    let pred = |e: (i32, PassiveOrder)| active_robot != Some(e.0);
    let all = Seq::new(
        robot_ids.len(),
        |i: int| (robot_ids[i], passive_order_of(short_of_nitro[i], nitro_pack_found[i])),
    );
    let out = spec_passive_orders(active_robot, robot_ids, short_of_nitro, nitro_pack_found);
    assert(out == all.filter(pred));
    assert(out.contains(out[k]));
    all.lemma_filter_contains_rev(pred, out[k]);
    all.lemma_filter_pred(pred, k);
    let i0 = choose|i0: int| 0 <= i0 < all.len() && all[i0] == out[k];
    lemma_passive_order_of(short_of_nitro[i0], nitro_pack_found[i0]);
    assert(all[i0] == (robot_ids[i0], passive_order_of(short_of_nitro[i0], nitro_pack_found[i0])));
    assert(pred(out[k]));
    i0
}

/// Each order given goes to a robot other than the robot of the active order: a robot short of
/// nitro with a nitro pack found for it goes for the pack, any other robot walks to the
/// goalkeeper's position. Every robot but the active one gets an order.
pub proof fn lemma_passive_orders(
    active_robot: Option<i32>,
    robot_ids: Seq<i32>,
    short_of_nitro: Seq<bool>,
    nitro_pack_found: Seq<bool>,
)
    requires
        short_of_nitro.len() == robot_ids.len(),
        nitro_pack_found.len() == robot_ids.len(),
    ensures
        spec_passive_orders(active_robot, robot_ids, short_of_nitro, nitro_pack_found).len()
            <= robot_ids.len(),
        forall|k: int|
            #![trigger spec_passive_orders(active_robot, robot_ids, short_of_nitro, nitro_pack_found)[k]]
            0 <= k < spec_passive_orders(active_robot, robot_ids, short_of_nitro, nitro_pack_found).len()
                ==> active_robot != Some(
                spec_passive_orders(active_robot, robot_ids, short_of_nitro, nitro_pack_found)[k].0,
            ) && exists|i: int|
                #![trigger robot_ids[i]]
                0 <= i < robot_ids.len() && active_robot != Some(robot_ids[i])
                    && spec_passive_orders(active_robot, robot_ids, short_of_nitro, nitro_pack_found)[k].0
                    == robot_ids[i] && ((spec_passive_orders(
                    active_robot,
                    robot_ids,
                    short_of_nitro,
                    nitro_pack_found,
                )[k].1 == PassiveOrder::TakeNitroPack) == (short_of_nitro[i] && nitro_pack_found[i])),
        forall|i: int|
            0 <= i < robot_ids.len() && active_robot != Some(#[trigger] robot_ids[i]) ==> exists|
                k: int,
            | 0 <= k < spec_passive_orders(active_robot, robot_ids, short_of_nitro, nitro_pack_found).len()
                && spec_passive_orders(active_robot, robot_ids, short_of_nitro, nitro_pack_found)[k].0
                == robot_ids[i],
{
    let pred = |e: (i32, PassiveOrder)| active_robot != Some(e.0);
    let all = Seq::new(
        robot_ids.len(),
        |i: int| (robot_ids[i], passive_order_of(short_of_nitro[i], nitro_pack_found[i])),
    );
    let out = spec_passive_orders(active_robot, robot_ids, short_of_nitro, nitro_pack_found);
    assert(out == all.filter(pred));
    all.lemma_filter_len(pred);
    assert forall|k: int| #![trigger out[k]] 0 <= k < out.len() implies active_robot != Some(out[k].0)
        && exists|i: int|
        #![trigger robot_ids[i]]
        0 <= i < robot_ids.len() && active_robot != Some(robot_ids[i]) && out[k].0 == robot_ids[i]
            && ((out[k].1 == PassiveOrder::TakeNitroPack) == (short_of_nitro[i]
            && nitro_pack_found[i])) by {
        let i0 = lemma_passive_orders_entry(active_robot, robot_ids, short_of_nitro, nitro_pack_found, k);
        assert(0 <= i0 < robot_ids.len() && active_robot != Some(robot_ids[i0]) && out[k].0 == robot_ids[i0]
            && ((out[k].1 == PassiveOrder::TakeNitroPack) == (short_of_nitro[i0]
            && nitro_pack_found[i0])));
    }

    assert forall|i: int| 0 <= i < robot_ids.len() && active_robot != Some(#[trigger] robot_ids[i]) implies exists|
        k: int,
    | 0 <= k < out.len() && out[k].0 == robot_ids[i] by {
        assert(pred(all[i]));
        all.lemma_filter_contains(pred, i);
        assert(out.contains(all[i]));
        let k0 = choose|k0: int| 0 <= k0 < out.len() && out[k0] == all[i];
        assert(out[k0].0 == robot_ids[i]);
    }
}

/// The orders of the robots without the active order, as `spec_passive_orders` gives them;
/// for each robot, whether it is short of nitro (less than at the start, with the ball far from
/// this team's goalkeeper position) and whether a nitro pack was found for it.
pub fn passive_orders(
    active_robot: Option<i32>,
    robot_ids: &Vec<i32>,
    short_of_nitro: &Vec<bool>,
    nitro_pack_found: &Vec<bool>,
) -> (r: Vec<(i32, PassiveOrder)>)
    requires
        short_of_nitro@.len() == robot_ids@.len(),
        nitro_pack_found@.len() == robot_ids@.len(),
    ensures
        r@ == spec_passive_orders(active_robot, robot_ids@, short_of_nitro@, nitro_pack_found@),
{
    let ghost all = Seq::new(
        robot_ids@.len(),
        |i: int| (robot_ids@[i], passive_order_of(short_of_nitro@[i], nitro_pack_found@[i])),
    );
    let mut result: Vec<(i32, PassiveOrder)> = Vec::new();
    let mut j: usize = 0;
    while j < robot_ids.len()
        invariant
            j <= robot_ids@.len(),
            short_of_nitro@.len() == robot_ids@.len(),
            nitro_pack_found@.len() == robot_ids@.len(),
            all == Seq::new(
                robot_ids@.len(),
                |i: int| (robot_ids@[i], passive_order_of(short_of_nitro@[i], nitro_pack_found@[i])),
            ),
            result@ == all.take(j as int).filter(|e: (i32, PassiveOrder)| active_robot != Some(e.0)),
        decreases robot_ids@.len() - j,
    {
        let id = robot_ids[j];
        let order = if short_of_nitro[j] && nitro_pack_found[j] {
            PassiveOrder::TakeNitroPack
        } else {
            PassiveOrder::WalkToGoalkeeperPosition
        };
        proof {
            assert(all.take(j + 1) =~= all.take(j as int).push(all[j as int]));
            reveal(Seq::filter);
            assert(all.take(j + 1).drop_last() =~= all.take(j as int));
            assert(all.take(j + 1).last() == all[j as int]);
            assert(all[j as int] == (id, order));
        }
        let besides = match active_robot {
            Some(a) => id != a,
            None => true,
        };
        if besides {
            result.push((id, order));
        }
        j = j + 1;
        proof {
            assert(result@ =~= all.take(j as int).filter(|e: (i32, PassiveOrder)| active_robot != Some(e.0)));
        }
    }
    proof {
        assert(all.take(j as int) =~= all);
    }
    result
}

} // verus!

//! The planning search without its geometry: the kinds of its states and transitions, which
//! state a scenario leads to, what a transition costs, and the bookkeeping of the visitor
//! (identifiers of search states, the generator that scenarios draw from, the micro ticks spent).
use vstd::prelude::*;
use crate::common::IdGenerator;
use crate::random::XorShiftRng;

verus! {

/// Split the search at the current state of the ball.
#[derive(Debug, Clone)]
pub struct ForkBall;

/// Split the search at the current state of a robot.
#[derive(Debug, Clone)]
pub struct ForkRobot {
    pub robot_id: i32,
}

/// The kinds of transition of the planning search.
#[derive(Debug, Copy, Clone, PartialEq, Eq, Structural)]
pub enum TransitionKind {
    Observe,
    ForkBall,
    ForkRobot,
    WalkToPosition,
    Jump,
    FarJump,
    WatchMeJump,
    WatchBallMove,
    PushRobot,
    TakeNitroPack,
    WalkToBall,
    WalkToRobot,
}

impl TransitionKind {
    /// The name shown for the transition.
    pub fn name(&self) -> (r: &'static str)
        ensures
            *self == TransitionKind::Observe ==> r@ == "observe"@,
            *self == TransitionKind::WalkToPosition ==> r@ == "walk_to_position"@,
            *self == TransitionKind::Jump ==> r@ == "jump"@,
            *self == TransitionKind::FarJump ==> r@ == "far_jump"@,
            *self == TransitionKind::WatchMeJump ==> r@ == "watch_me_jump"@,
            *self == TransitionKind::WatchBallMove ==> r@ == "watch_ball_move"@,
            *self == TransitionKind::PushRobot ==> r@ == "push_robot"@,
            *self == TransitionKind::TakeNitroPack ==> r@ == "take_nitro_pack"@,
            *self == TransitionKind::ForkBall ==> r@ == "fork_ball"@,
            *self == TransitionKind::WalkToBall ==> r@ == "walk_to_ball"@,
            *self == TransitionKind::WalkToRobot ==> r@ == "walk_to_robot"@,
            *self == TransitionKind::ForkRobot ==> r@ == "fork_robot"@,
    {
        match self {
            TransitionKind::Observe => "observe",
            TransitionKind::WalkToPosition => "walk_to_position",
            TransitionKind::Jump => "jump",
            TransitionKind::FarJump => "far_jump",
            TransitionKind::WatchMeJump => "watch_me_jump",
            TransitionKind::WatchBallMove => "watch_ball_move",
            TransitionKind::PushRobot => "push_robot",
            TransitionKind::TakeNitroPack => "take_nitro_pack",
            TransitionKind::ForkBall => "fork_ball",
            TransitionKind::WalkToBall => "walk_to_ball",
            TransitionKind::WalkToRobot => "walk_to_robot",
            TransitionKind::ForkRobot => "fork_robot",
        }
    }
}

/// The kinds of state of the planning search; an observed robot keeps its identifier.
#[derive(Debug, Copy, Clone, PartialEq, Eq, Structural)]
pub enum StateKind {
    Initial,
    ObservedBall,
    ObservedRobot(i32),
    ForkedBall,
    ForkedRobot,
    Walked,
    Jumped,
    FarJumped,
    Hit,
    End,
}

impl StateKind {
    /// The name shown for the state.
    pub fn name(&self) -> (r: &'static str)
        ensures
            *self == StateKind::Initial ==> r@ == "Initial"@,
            *self is ObservedBall ==> r@ == "ObservedBall"@,
            *self is ObservedRobot ==> r@ == "ObservedRobot"@,
            *self is ForkedBall ==> r@ == "ForkedBall"@,
            *self is ForkedRobot ==> r@ == "ForkedRobot"@,
            *self is Walked ==> r@ == "Walked"@,
            *self is Jumped ==> r@ == "Jumped"@,
            *self is FarJumped ==> r@ == "FarJumped"@,
            *self is Hit ==> r@ == "Hit"@,
            *self is End ==> r@ == "End"@,
    {
        match self {
            StateKind::Initial => "Initial",
            StateKind::ObservedBall => "ObservedBall",
            StateKind::ObservedRobot(_) => "ObservedRobot",
            StateKind::ForkedBall => "ForkedBall",
            StateKind::ForkedRobot => "ForkedRobot",
            StateKind::Walked => "Walked",
            StateKind::Jumped => "Jumped",
            StateKind::FarJumped => "FarJumped",
            StateKind::Hit => "Hit",
            StateKind::End => "End",
        }
    }

    /// A plan is finished in an end state that holds at least one action.
    pub fn is_final(&self, actions_len: usize) -> (r: bool)
        ensures
            r == (*self is End && actions_len > 0),
    {
        match self {
            StateKind::End => actions_len > 0,
            _ => false,
        }
    }
}

/// How a scenario ended: it ran through; it observed that the ball is to be played; it observed
/// that the robot with this identifier is to be pushed; or one of the checks stopped it.
#[derive(Debug, Copy, Clone, PartialEq, Eq, Structural)]
pub enum ScenarioOutcome {
    Done,
    UseBall,
    PushRobot(i32),
    Stopped,
}

/// The state that a scenario leads to.
pub open spec fn spec_next_state_kind(
    transition: TransitionKind,
    outcome: ScenarioOutcome,
    budget_spent: bool,
) -> Option<StateKind> {
    if budget_spent {
        Some(StateKind::End)
    } else {
        match outcome {
            ScenarioOutcome::Done => match transition {
                TransitionKind::WalkToPosition => Some(StateKind::Walked),
                TransitionKind::Jump => Some(StateKind::Jumped),
                TransitionKind::FarJump => Some(StateKind::FarJumped),
                TransitionKind::WatchMeJump => Some(StateKind::Hit),
                TransitionKind::WatchBallMove => Some(StateKind::End),
                TransitionKind::PushRobot => Some(StateKind::Initial),
                TransitionKind::TakeNitroPack => Some(StateKind::Initial),
                TransitionKind::WalkToBall => Some(StateKind::Walked),
                TransitionKind::WalkToRobot => Some(StateKind::Walked),
                _ => None,
            },
            ScenarioOutcome::UseBall => if transition == TransitionKind::Observe {
                Some(StateKind::ObservedBall)
            } else {
                Some(StateKind::End)
            },
            ScenarioOutcome::PushRobot(id) => if transition == TransitionKind::Observe {
                Some(StateKind::ObservedRobot(id))
            } else {
                Some(StateKind::End)
            },
            ScenarioOutcome::Stopped => Some(StateKind::End),
        }
    }
}

/// The kind of state that a scenario run for `transition` leads to: the end once the plan's
/// micro-tick budget is spent; else, after a run through, the state that follows the transition;
/// an observation that finds the ball or a robot to play leads to the matching observed state;
/// any other stop ends the plan. `None` where the scenario cannot run through (observing and
/// forking are not scenarios).
pub fn next_state_kind(transition: TransitionKind, outcome: ScenarioOutcome, budget_spent: bool) -> (r:
    Option<StateKind>)
    ensures
        r == spec_next_state_kind(transition, outcome, budget_spent),
        budget_spent ==> r == Some(StateKind::End),
        !budget_spent && outcome == ScenarioOutcome::Done && (transition == TransitionKind::WalkToPosition
            || transition == TransitionKind::WalkToBall || transition == TransitionKind::WalkToRobot) ==> r
            == Some(StateKind::Walked),
        !budget_spent && outcome == ScenarioOutcome::Done && transition == TransitionKind::Jump ==> r == Some(
            StateKind::Jumped,
        ),
        !budget_spent && outcome == ScenarioOutcome::Done && transition == TransitionKind::FarJump ==> r
            == Some(StateKind::FarJumped),
        !budget_spent && outcome == ScenarioOutcome::Done && transition == TransitionKind::WatchMeJump ==> r
            == Some(StateKind::Hit),
        !budget_spent && outcome == ScenarioOutcome::Done && transition == TransitionKind::WatchBallMove ==> r
            == Some(StateKind::End),
        !budget_spent && outcome == ScenarioOutcome::Done && (transition == TransitionKind::PushRobot
            || transition == TransitionKind::TakeNitroPack) ==> r == Some(StateKind::Initial),
        !budget_spent && outcome == ScenarioOutcome::Done && (transition == TransitionKind::Observe
            || transition == TransitionKind::ForkBall || transition == TransitionKind::ForkRobot) ==> r
            is None,
        !budget_spent && outcome == ScenarioOutcome::UseBall ==> r == if transition == TransitionKind::Observe {
            Some(StateKind::ObservedBall)
        } else {
            Some(StateKind::End)
        },
        forall|id: i32|
            !budget_spent && outcome == ScenarioOutcome::PushRobot(id) ==> r == if transition
                == TransitionKind::Observe {
                Some(StateKind::ObservedRobot(id))
            } else {
                Some(StateKind::End)
            },
        !budget_spent && outcome == ScenarioOutcome::Stopped ==> r == Some(StateKind::End),
{
    if budget_spent {
        return Some(StateKind::End);
    }
    match outcome {
        ScenarioOutcome::Done => match transition {
            TransitionKind::WalkToPosition => Some(StateKind::Walked),
            TransitionKind::Jump => Some(StateKind::Jumped),
            TransitionKind::FarJump => Some(StateKind::FarJumped),
            TransitionKind::WatchMeJump => Some(StateKind::Hit),
            TransitionKind::WatchBallMove => Some(StateKind::End),
            TransitionKind::PushRobot => Some(StateKind::Initial),
            TransitionKind::TakeNitroPack => Some(StateKind::Initial),
            TransitionKind::WalkToBall => Some(StateKind::Walked),
            TransitionKind::WalkToRobot => Some(StateKind::Walked),
            TransitionKind::Observe => None,
            TransitionKind::ForkBall => None,
            TransitionKind::ForkRobot => None,
        },
        ScenarioOutcome::UseBall => match transition {
            TransitionKind::Observe => Some(StateKind::ObservedBall),
            _ => Some(StateKind::End),
        },
        ScenarioOutcome::PushRobot(robot_id) => match transition {
            TransitionKind::Observe => Some(StateKind::ObservedRobot(robot_id)),
            _ => Some(StateKind::End),
        },
        ScenarioOutcome::Stopped => Some(StateKind::End),
    }
}

/// Once the budget is spent every scenario ends the plan. Otherwise a walking scenario (to a
/// position, to the ball, to a robot) that runs through leads to the walked state, a jump to the
/// jumped state, a far jump to the far-jumped state, watching one's own jump to the hit state,
/// and watching the ball move to the end; pushing a robot or taking a nitro pack starts over from
/// the initial state. An observation that finds the ball or a robot to play leads to the matching
/// observed state, and any other stop ends the plan.
pub proof fn lemma_next_state_kind(transition: TransitionKind, outcome: ScenarioOutcome, budget_spent: bool)
    ensures
        budget_spent ==> spec_next_state_kind(transition, outcome, budget_spent) == Some(StateKind::End),
        !budget_spent && outcome == ScenarioOutcome::Done && (transition == TransitionKind::WalkToPosition
            || transition == TransitionKind::WalkToBall || transition == TransitionKind::WalkToRobot)
            ==> spec_next_state_kind(transition, outcome, budget_spent) == Some(StateKind::Walked),
        !budget_spent && outcome == ScenarioOutcome::Done && transition == TransitionKind::Jump
            ==> spec_next_state_kind(transition, outcome, budget_spent) == Some(StateKind::Jumped),
        !budget_spent && outcome == ScenarioOutcome::Done && transition == TransitionKind::FarJump
            ==> spec_next_state_kind(transition, outcome, budget_spent) == Some(StateKind::FarJumped),
        !budget_spent && outcome == ScenarioOutcome::Done && transition == TransitionKind::WatchMeJump
            ==> spec_next_state_kind(transition, outcome, budget_spent) == Some(StateKind::Hit),
        !budget_spent && outcome == ScenarioOutcome::Done && transition == TransitionKind::WatchBallMove
            ==> spec_next_state_kind(transition, outcome, budget_spent) == Some(StateKind::End),
        !budget_spent && outcome == ScenarioOutcome::Done && (transition == TransitionKind::PushRobot
            || transition == TransitionKind::TakeNitroPack) ==> spec_next_state_kind(
            transition,
            outcome,
            budget_spent,
        ) == Some(StateKind::Initial),
        !budget_spent && transition == TransitionKind::Observe && outcome == ScenarioOutcome::UseBall
            ==> spec_next_state_kind(transition, outcome, budget_spent) == Some(StateKind::ObservedBall),
        forall|id: i32|
            !budget_spent && transition == TransitionKind::Observe && outcome == ScenarioOutcome::PushRobot(id)
                ==> spec_next_state_kind(transition, outcome, budget_spent) == Some(
                StateKind::ObservedRobot(id),
            ),
        !budget_spent && outcome != ScenarioOutcome::Done && transition != TransitionKind::Observe
            ==> spec_next_state_kind(transition, outcome, budget_spent) == Some(StateKind::End),
        !budget_spent && outcome == ScenarioOutcome::Stopped ==> spec_next_state_kind(
            transition,
            outcome,
            budget_spent,
        ) == Some(StateKind::End),
{
}

/// A walking scenario that runs through with budget left leads to a state from which the plan
/// jumps; a jump, near or far, that runs through leads to watching the robot's own jump; that
/// leads to watching the ball move, and that to the end, from which nothing is tried.
pub proof fn lemma_walk_leads_to_jump(transition: TransitionKind)
    ensures
        (transition == TransitionKind::WalkToPosition || transition == TransitionKind::WalkToBall
            || transition == TransitionKind::WalkToRobot) ==> spec_next_state_kind(
            transition,
            ScenarioOutcome::Done,
            false,
        ) is Some && spec_fixed_transition_kinds(
            spec_next_state_kind(transition, ScenarioOutcome::Done, false)->0,
        ) == Some(seq![TransitionKind::Jump]),
        (transition == TransitionKind::Jump || transition == TransitionKind::FarJump) ==> spec_next_state_kind(
            transition,
            ScenarioOutcome::Done,
            false,
        ) is Some && spec_fixed_transition_kinds(
            spec_next_state_kind(transition, ScenarioOutcome::Done, false)->0,
        ) == Some(seq![TransitionKind::WatchMeJump]),
        transition == TransitionKind::WatchMeJump ==> spec_next_state_kind(
            transition,
            ScenarioOutcome::Done,
            false,
        ) is Some && spec_fixed_transition_kinds(
            spec_next_state_kind(transition, ScenarioOutcome::Done, false)->0,
        ) == Some(seq![TransitionKind::WatchBallMove]),
        transition == TransitionKind::WatchBallMove ==> spec_next_state_kind(
            transition,
            ScenarioOutcome::Done,
            false,
        ) is Some && spec_fixed_transition_kinds(
            spec_next_state_kind(transition, ScenarioOutcome::Done, false)->0,
        ) == Some(Seq::<TransitionKind>::empty()),
{
}

/// The kinds of transition tried from a state whose transitions do not depend on the simulation:
/// jump after walking, watch after jumping, let the ball move after a hit, nothing after the
/// end, fork or observe further after an observation. `None` for the other states.
pub open spec fn spec_fixed_transition_kinds(state: StateKind) -> Option<Seq<TransitionKind>> {
    match state {
        StateKind::Walked => Some(seq![TransitionKind::Jump]),
        StateKind::Jumped => Some(seq![TransitionKind::WatchMeJump]),
        StateKind::FarJumped => Some(seq![TransitionKind::WatchMeJump]),
        StateKind::Hit => Some(seq![TransitionKind::WatchBallMove]),
        StateKind::End => Some(Seq::empty()),
        StateKind::ObservedBall => Some(seq![TransitionKind::ForkBall, TransitionKind::Observe]),
        StateKind::ObservedRobot(_) => Some(seq![TransitionKind::ForkRobot, TransitionKind::Observe]),
        _ => None,
    }
}

/// The kinds of transition tried from `state`, as `spec_fixed_transition_kinds` gives them.
pub fn fixed_transition_kinds(state: StateKind) -> (r: Option<Vec<TransitionKind>>)
    ensures
        r is Some <==> spec_fixed_transition_kinds(state) is Some,
        r is Some ==> r->0@ == spec_fixed_transition_kinds(state)->0,
{
    match state {
        StateKind::Walked => Some(vec![TransitionKind::Jump]),
        StateKind::Jumped => Some(vec![TransitionKind::WatchMeJump]),
        StateKind::FarJumped => Some(vec![TransitionKind::WatchMeJump]),
        StateKind::Hit => Some(vec![TransitionKind::WatchBallMove]),
        StateKind::End => Some(Vec::new()),
        StateKind::ObservedBall => Some(vec![TransitionKind::ForkBall, TransitionKind::Observe]),
        StateKind::ObservedRobot(_) => Some(vec![TransitionKind::ForkRobot, TransitionKind::Observe]),
        _ => None,
    }
}

/// The search cost of a transition: nothing for forking the ball, one for observing, and the
/// score lost otherwise.
pub fn transition_cost(transition: TransitionKind, source_score: i32, destination_score: i32) -> (r: i32)
    requires
        transition != TransitionKind::ForkBall && transition != TransitionKind::Observe ==> i32::MIN
            <= source_score - destination_score <= i32::MAX,
    ensures
        r == match transition {
            TransitionKind::ForkBall => 0,
            TransitionKind::Observe => 1,
            _ => source_score - destination_score,
        },
{
    match transition {
        TransitionKind::ForkBall => 0,
        TransitionKind::Observe => 1,
        _ => source_score - destination_score,
    }
}

/// The micro ticks that a scenario may spend: an observation may spend what is left of the
/// plan's budget, any other scenario the budget of a path.
pub fn path_micro_ticks_budget(
    transition: TransitionKind,
    max_plan_micro_ticks: usize,
    used_micro_ticks: usize,
    max_path_micro_ticks: usize,
) -> (r: usize)
    ensures
        r == if transition == TransitionKind::Observe {
            if max_plan_micro_ticks >= used_micro_ticks {
                (max_plan_micro_ticks - used_micro_ticks) as usize
            } else {
                0
            }
        } else {
            max_path_micro_ticks
        },
{
    match transition {
        TransitionKind::Observe => {
            let top = if max_plan_micro_ticks >= used_micro_ticks {
                max_plan_micro_ticks
            } else {
                used_micro_ticks
            };
            top - used_micro_ticks
        },
        _ => max_path_micro_ticks,
    }
}

/// What the planning visitor keeps between the states that it expands.
pub struct VisitorImpl<'r> {
    rng: &'r mut XorShiftRng,
    state_id_generator: IdGenerator,
    used_micro_ticks: usize,
}

impl<'r> VisitorImpl<'r> {
    pub closed spec fn spec_rng(&self) -> XorShiftRng {
        *self.rng
    }

    pub closed spec fn spec_next_state_id(&self) -> i32 {
        self.state_id_generator.spec_next()
    }

    pub closed spec fn spec_used_micro_ticks(&self) -> usize {
        self.used_micro_ticks
    }

    /// A visitor that draws from `rng`, will number states from 1 and has spent no micro tick.
    pub fn new(rng: &'r mut XorShiftRng) -> (r: Self)
        ensures
            r.spec_rng() == *old(rng),
            r.spec_next_state_id() == 1,
            r.spec_used_micro_ticks() == 0,
    {
        VisitorImpl { rng, state_id_generator: IdGenerator::new(), used_micro_ticks: 0 }
    }

    /// The identifier of the next search state.
    pub fn next_state_id(&mut self) -> (r: i32)
        requires
            old(self).spec_next_state_id() < i32::MAX,
        ensures
            r == old(self).spec_next_state_id(),
            final(self).spec_next_state_id() == old(self).spec_next_state_id() + 1,
            final(self).spec_rng() == old(self).spec_rng(),
            final(self).spec_used_micro_ticks() == old(self).spec_used_micro_ticks(),
    {
        self.state_id_generator.next()
    }

    /// The micro ticks spent so far.
    pub fn used_micro_ticks(&self) -> (r: usize)
        ensures
            r == self.spec_used_micro_ticks(),
    {
        self.used_micro_ticks
    }

    /// Counts `micro_ticks` more as spent.
    pub fn add_used_micro_ticks(&mut self, micro_ticks: usize)
        requires
            old(self).spec_used_micro_ticks() + micro_ticks <= usize::MAX,
        ensures
            final(self).spec_used_micro_ticks() == old(self).spec_used_micro_ticks() + micro_ticks,
            final(self).spec_next_state_id() == old(self).spec_next_state_id(),
            final(self).spec_rng() == old(self).spec_rng(),
    {
        self.used_micro_ticks = self.used_micro_ticks + micro_ticks;
    }

    /// The generator that scenarios draw from.
    pub fn rng(&mut self) -> (r: &mut XorShiftRng)
        ensures
            *r == old(self).spec_rng(),
            final(self).spec_rng() == *final(r),
            final(self).spec_next_state_id() == old(self).spec_next_state_id(),
            final(self).spec_used_micro_ticks() == old(self).spec_used_micro_ticks(),
    {
        &mut *self.rng
    }
}

} // verus!

use codeball::orders::{action_at, best_index, choose_active_order, max_plan_micro_ticks, plan_micro_ticks_budget, ActiveChoice};
use codeball::plan::{
    fixed_transition_kinds, next_state_kind, path_micro_ticks_budget, transition_cost, ScenarioOutcome, StateKind,
    TransitionKind,
};

#[test]
fn test_next_state_kind() {
    assert_eq!(next_state_kind(TransitionKind::WalkToPosition, ScenarioOutcome::Done, false), Some(StateKind::Walked));
    assert_eq!(next_state_kind(TransitionKind::Jump, ScenarioOutcome::Done, false), Some(StateKind::Jumped));
    assert_eq!(next_state_kind(TransitionKind::WatchMeJump, ScenarioOutcome::Done, false), Some(StateKind::Hit));
    assert_eq!(next_state_kind(TransitionKind::WatchBallMove, ScenarioOutcome::Done, false), Some(StateKind::End));
    assert_eq!(next_state_kind(TransitionKind::PushRobot, ScenarioOutcome::Done, false), Some(StateKind::Initial));
    assert_eq!(next_state_kind(TransitionKind::Observe, ScenarioOutcome::UseBall, false), Some(StateKind::ObservedBall));
    assert_eq!(next_state_kind(TransitionKind::Observe, ScenarioOutcome::PushRobot(3), false), Some(StateKind::ObservedRobot(3)));
    assert_eq!(next_state_kind(TransitionKind::Jump, ScenarioOutcome::UseBall, false), Some(StateKind::End));
    assert_eq!(next_state_kind(TransitionKind::Jump, ScenarioOutcome::Stopped, false), Some(StateKind::End));
    assert_eq!(next_state_kind(TransitionKind::Jump, ScenarioOutcome::Done, true), Some(StateKind::End));
    assert_eq!(next_state_kind(TransitionKind::Observe, ScenarioOutcome::Done, false), None);
}

#[test]
fn test_kind_names_and_final() {
    assert_eq!(TransitionKind::WatchMeJump.name(), "watch_me_jump");
    assert_eq!(TransitionKind::ForkRobot.name(), "fork_robot");
    assert_eq!(StateKind::ObservedRobot(1).name(), "ObservedRobot");
    assert!(StateKind::End.is_final(1));
    assert!(!StateKind::End.is_final(0));
    assert!(!StateKind::Hit.is_final(5));
}

#[test]
fn test_fixed_transitions() {
    assert_eq!(fixed_transition_kinds(StateKind::Walked), Some(vec![TransitionKind::Jump]));
    assert_eq!(fixed_transition_kinds(StateKind::Hit), Some(vec![TransitionKind::WatchBallMove]));
    assert_eq!(fixed_transition_kinds(StateKind::End), Some(vec![]));
    assert_eq!(
        fixed_transition_kinds(StateKind::ObservedRobot(2)),
        Some(vec![TransitionKind::ForkRobot, TransitionKind::Observe])
    );
    assert_eq!(fixed_transition_kinds(StateKind::Initial), None);
}

#[test]
fn test_costs_and_budgets() {
    assert_eq!(transition_cost(TransitionKind::ForkBall, 5, 9), 0);
    assert_eq!(transition_cost(TransitionKind::Observe, 5, 9), 1);
    assert_eq!(transition_cost(TransitionKind::Jump, 5, 9), -4);
    assert_eq!(path_micro_ticks_budget(TransitionKind::Observe, 20000, 15000, 1100), 5000);
    assert_eq!(path_micro_ticks_budget(TransitionKind::Observe, 20000, 25000, 1100), 0);
    assert_eq!(path_micro_ticks_budget(TransitionKind::Jump, 20000, 15000, 1100), 1100);
    assert_eq!(max_plan_micro_ticks(2), 20000);
    assert_eq!(max_plan_micro_ticks(3), 13333);
    assert_eq!(plan_micro_ticks_budget(20000, 30000, 15000), 15000);
    assert_eq!(plan_micro_ticks_budget(20000, 30000, 5000), 20000);
    assert_eq!(plan_micro_ticks_budget(20000, 30000, 40000), 0);
}

#[test]
fn test_action_at() {
    let actions = vec!['a', 'b', 'c'];
    assert_eq!(action_at(&actions, 0), Some(&'a'));
    assert_eq!(action_at(&actions, 2), Some(&'c'));
    assert_eq!(action_at(&actions, 3), None);
    assert_eq!(action_at(&actions, -1), None);
}

#[test]
fn test_choose_active_order() {
    assert_eq!(best_index(&vec![3, 7, 7, 1]), Some(2));
    assert_eq!(best_index(&vec![]), None);
    assert_eq!(choose_active_order(None, &vec![]), ActiveChoice::NoOrder);
    assert_eq!(choose_active_order(None, &vec![5, 9]), ActiveChoice::Switch(1));
    assert_eq!(choose_active_order(Some(100), &vec![200, 216]), ActiveChoice::Keep);
    assert_eq!(choose_active_order(Some(100), &vec![217, 200]), ActiveChoice::Switch(0));
    assert_eq!(choose_active_order(Some(100), &vec![]), ActiveChoice::Keep);
}

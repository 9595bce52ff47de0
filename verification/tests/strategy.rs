use codeball::roles::Role;
use codeball::strategy::{accept_roles, may_plan, priority_by_score, rank_orders, roles_for_teammates, same_roles};

#[test]
fn test_may_plan() {
    assert!(!may_plan(20, 0));
    assert!(may_plan(21, 0));
    assert!(!may_plan(100, 90));
}

#[test]
fn test_roles_for_teammates() {
    let roles = roles_for_teammates(&vec![1, 2]);
    assert_eq!(roles, vec![Role::forward(1), Role::forward(2)]);
    assert!(same_roles(&roles, &vec![Role::forward(1), Role::forward(2)]));
    assert!(!same_roles(&roles, &vec![Role::forward(1), Role::goalkeeper(2)]));
    assert!(!same_roles(&roles, &vec![Role::forward(1)]));
}

#[test]
fn test_accept_roles() {
    let current = vec![Role::forward(1), Role::goalkeeper(2)];
    let new = vec![Role::forward(1), Role::forward(2)];
    assert!(accept_roles(&Vec::new(), &new, 0, -5));
    assert!(accept_roles(&current, &new, 10, 11));
    assert!(!accept_roles(&current, &new, 10, 10));
    assert!(!accept_roles(&new, &new.clone(), 0, 100));
}

#[test]
fn test_priority_by_score() {
    assert_eq!(priority_by_score(vec![(300, 2), (100, 1), (300, 1), (-5, 4)]), vec![4, 1, 1, 2]);
    assert_eq!(priority_by_score(Vec::new()), Vec::<i32>::new());
}

#[test]
fn test_rank_orders_is_stable() {
    assert_eq!(rank_orders(&vec![10, 30, 20, 30], true), vec![1, 3, 2, 0]);
    assert_eq!(rank_orders(&vec![5, 5, 5], false), vec![0, 1, 2]);
    assert_eq!(rank_orders(&Vec::new(), false), Vec::<usize>::new());
}

use codeball::orders::{choose_active_plan, passive_orders, plan_requests, PassiveOrder};

#[test]
fn test_plan_requests() {
    let robots = vec![(1, true), (2, true), (3, false), (4, true)];
    assert_eq!(plan_requests(Some(2), &robots), vec![2, 1, 4]);
    assert_eq!(plan_requests(None, &robots), vec![1, 2, 4]);
    assert_eq!(plan_requests(None, &vec![(3, false)]), Vec::<i32>::new());
}

#[test]
fn test_choose_active_plan() {
    assert_eq!(choose_active_plan(true, &vec![Some(100), Some(150), Some(217)]), Some(2));
    assert_eq!(choose_active_plan(true, &vec![Some(100), Some(216), None]), Some(0));
    assert_eq!(choose_active_plan(true, &vec![Some(100)]), Some(0));
    assert_eq!(choose_active_plan(true, &vec![None, Some(5), Some(5)]), Some(2));
    assert_eq!(choose_active_plan(true, &vec![None, None]), None);
    assert_eq!(choose_active_plan(false, &vec![None, None]), None);
    assert_eq!(choose_active_plan(false, &vec![Some(3), Some(7), Some(7), Some(1)]), Some(2));
    assert_eq!(choose_active_plan(false, &Vec::new()), None);
}

#[test]
fn test_passive_orders() {
    let orders = passive_orders(Some(2), &vec![1, 2, 3], &vec![true, false, true], &vec![true, true, false]);
    assert_eq!(orders, vec![(1, PassiveOrder::TakeNitroPack), (3, PassiveOrder::WalkToGoalkeeperPosition)]);
    let orders = passive_orders(None, &vec![5], &vec![false], &vec![true]);
    assert_eq!(orders, vec![(5, PassiveOrder::WalkToGoalkeeperPosition)]);
}

use codeball::scenarios::{check_limits, Error, ALL, GOAL, LIMITS, MICRO_TICKS_LIMIT, TICK_LIMIT};

#[test]
fn test_check_sets() {
    assert_eq!(ALL, GOAL | TICK_LIMIT | MICRO_TICKS_LIMIT);
    assert_eq!(LIMITS & GOAL, 0);
}

#[test]
fn test_check_limits_order() {
    assert!(matches!(check_limits(ALL, 1, 100, 100, 10, 10), Err(Error::Goal)));
    assert!(matches!(check_limits(LIMITS, 1, 100, 100, 10, 10), Err(Error::TicksLimit)));
    assert!(matches!(check_limits(MICRO_TICKS_LIMIT, 1, 100, 100, 10, 10), Err(Error::MicroTicksLimit)));
    assert!(matches!(check_limits(ALL, 0, 99, 100, 9, 10), Ok(())));
    assert!(matches!(check_limits(0, -1, 200, 100, 20, 10), Ok(())));
    assert!(matches!(check_limits(ALL, -1, 0, 100, 0, 10), Err(Error::Goal)));
    assert!(matches!(check_limits(GOAL, 0, 200, 100, 20, 10), Ok(())));
}

use codeball::simulator::{next_respawn_ticks, BallCollisionType, RobotCollisionType};

const ROBOT: [RobotCollisionType; 3] = [
    RobotCollisionType::NoContact,
    RobotCollisionType::TouchBall,
    RobotCollisionType::KickBall,
];

fn ball_all() -> [BallCollisionType; 4] {
    [
        BallCollisionType::NoContact,
        BallCollisionType::Arena,
        BallCollisionType::Robot,
        BallCollisionType::ArenaAndRobot,
    ]
}

#[test]
fn test_robot_collision_with() {
    assert_eq!(RobotCollisionType::NoContact.with(RobotCollisionType::TouchBall), RobotCollisionType::TouchBall);
    assert_eq!(RobotCollisionType::TouchBall.with(RobotCollisionType::NoContact), RobotCollisionType::TouchBall);
    assert_eq!(RobotCollisionType::TouchBall.with(RobotCollisionType::KickBall), RobotCollisionType::KickBall);
    assert_eq!(RobotCollisionType::KickBall.with(RobotCollisionType::TouchBall), RobotCollisionType::KickBall);
    assert_eq!(RobotCollisionType::TouchBall.with(RobotCollisionType::TouchBall), RobotCollisionType::TouchBall);
    assert_eq!(RobotCollisionType::NoContact.with(RobotCollisionType::NoContact), RobotCollisionType::NoContact);
}

#[test]
fn test_robot_collision_with_is_order_free() {
    for &a in ROBOT.iter() {
        for &b in ROBOT.iter() {
            assert_eq!(a.with(b), b.with(a));
            assert_eq!(a.with(b), if a >= b { a } else { b });
            for &c in ROBOT.iter() {
                assert_eq!(a.with(b).with(c), a.with(b.with(c)));
            }
        }
    }
}

#[test]
fn test_ball_collision_with() {
    assert!(BallCollisionType::Arena.with(BallCollisionType::Robot) == BallCollisionType::ArenaAndRobot);
    assert!(BallCollisionType::Robot.with(BallCollisionType::Arena) == BallCollisionType::ArenaAndRobot);
    assert!(BallCollisionType::NoContact.with(BallCollisionType::Arena) == BallCollisionType::Arena);
    assert!(BallCollisionType::Robot.with(BallCollisionType::NoContact) == BallCollisionType::Robot);
    assert!(BallCollisionType::Arena.with(BallCollisionType::ArenaAndRobot) == BallCollisionType::ArenaAndRobot);
    for a in ball_all().iter() {
        for b in ball_all().iter() {
            assert!(a.with(*b) == b.with(*a));
            for c in ball_all().iter() {
                assert!(a.with(*b).with(*c) == a.with(b.with(*c)));
            }
        }
    }
}

#[test]
fn test_next_respawn_ticks() {
    assert_eq!(next_respawn_ticks(None), None);
    assert_eq!(next_respawn_ticks(Some(600)), Some(599));
    assert_eq!(next_respawn_ticks(Some(2)), Some(1));
    assert_eq!(next_respawn_ticks(Some(1)), None);
    assert_eq!(next_respawn_ticks(Some(0)), None);
}

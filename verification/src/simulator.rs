//! What the simulation records of contacts during a tick, and the countdown of nitro packs.
use vstd::prelude::*;

verus! {

/// The strongest contact of a robot with the ball during a tick.
#[derive(Debug, Copy, Clone, Ord, PartialOrd, Eq, PartialEq, Structural)]
pub enum RobotCollisionType {
    NoContact,
    TouchBall,
    KickBall,
}

/// The strength of a robot's contact: none, a touch, a kick.
pub open spec fn robot_collision_rank(t: RobotCollisionType) -> nat {
    match t {
        RobotCollisionType::NoContact => 0,
        RobotCollisionType::TouchBall => 1,
        RobotCollisionType::KickBall => 2,
    }
}

/// The stronger of two contacts.
pub open spec fn robot_collision_join(a: RobotCollisionType, b: RobotCollisionType) -> RobotCollisionType {
    if robot_collision_rank(a) >= robot_collision_rank(b) {
        a
    } else {
        b
    }
}

impl RobotCollisionType {
    /// Both contacts recorded as one: the stronger of the two.
    pub fn with(self, other: Self) -> (r: Self)
        ensures
            r == robot_collision_join(self, other),
            robot_collision_rank(r) == if robot_collision_rank(self) >= robot_collision_rank(other) {
                robot_collision_rank(self)
            } else {
                robot_collision_rank(other)
            },
    {
        if self == other || other == RobotCollisionType::NoContact {
            self
        } else if self == RobotCollisionType::NoContact {
            other
        } else {
            RobotCollisionType::KickBall
        }
    }
}

/// Recording contacts does not depend on their order, nor on how they are grouped; recording a
/// contact twice is recording it once, and no contact changes nothing.
pub proof fn lemma_robot_collision_with_laws(
    a: RobotCollisionType,
    b: RobotCollisionType,
    c: RobotCollisionType,
)
    ensures
        robot_collision_join(a, b) == robot_collision_join(b, a),
        robot_collision_join(robot_collision_join(a, b), c) == robot_collision_join(
            a,
            robot_collision_join(b, c),
        ),
        robot_collision_join(a, a) == a,
        robot_collision_join(a, RobotCollisionType::NoContact) == a,
        robot_collision_join(RobotCollisionType::NoContact, a) == a,
        robot_collision_join(a, RobotCollisionType::KickBall) == RobotCollisionType::KickBall,
{
}

/// What the ball touched during a tick.
#[derive(Copy, Clone, Eq, PartialEq, Structural)]
pub enum BallCollisionType {
    NoContact,
    Arena,
    Robot,
    ArenaAndRobot,
}

/// Whether the ball touched the arena.
pub open spec fn ball_touched_arena(t: BallCollisionType) -> bool {
    t == BallCollisionType::Arena || t == BallCollisionType::ArenaAndRobot
}

/// Whether the ball touched a robot.
pub open spec fn ball_touched_robot(t: BallCollisionType) -> bool {
    t == BallCollisionType::Robot || t == BallCollisionType::ArenaAndRobot
}

/// The contacts of both: what either touched.
pub open spec fn ball_collision_join(a: BallCollisionType, b: BallCollisionType) -> BallCollisionType {
    let arena = ball_touched_arena(a) || ball_touched_arena(b);
    let robot = ball_touched_robot(a) || ball_touched_robot(b);
    if arena && robot {
        BallCollisionType::ArenaAndRobot
    } else if arena {
        BallCollisionType::Arena
    } else if robot {
        BallCollisionType::Robot
    } else {
        BallCollisionType::NoContact
    }
}

impl BallCollisionType {
    /// Both records as one: the ball touched what either record says it touched.
    pub fn with(self, other: Self) -> (r: Self)
        ensures
            r == ball_collision_join(self, other),
            ball_touched_arena(r) == (ball_touched_arena(self) || ball_touched_arena(other)),
            ball_touched_robot(r) == (ball_touched_robot(self) || ball_touched_robot(other)),
    {
        if self == other || other == BallCollisionType::NoContact {
            self
        } else if self == BallCollisionType::NoContact {
            other
        } else {
            BallCollisionType::ArenaAndRobot
        }
    }
}

/// Recording contacts of the ball does not depend on their order, nor on how they are grouped;
/// recording a contact twice is recording it once, and no contact changes nothing.
pub proof fn lemma_ball_collision_with_laws(
    a: BallCollisionType,
    b: BallCollisionType,
    c: BallCollisionType,
)
    ensures
        ball_collision_join(a, b) == ball_collision_join(b, a),
        ball_collision_join(ball_collision_join(a, b), c) == ball_collision_join(
            a,
            ball_collision_join(b, c),
        ),
        ball_collision_join(a, a) == a,
        ball_collision_join(a, BallCollisionType::NoContact) == a,
        ball_collision_join(BallCollisionType::NoContact, a) == a,
        ball_collision_join(a, BallCollisionType::ArenaAndRobot) == BallCollisionType::ArenaAndRobot,
{
}

/// The ticks left until a nitro pack is back after one more tick: `None` stays `None` (the pack
/// is there), a count above 1 goes down by one, and a count of 1 or less means the pack is back.
pub fn next_respawn_ticks(respawn_ticks: Option<i32>) -> (r: Option<i32>)
    ensures
        r == match respawn_ticks {
            Some(v) => if v > 1 {
                Some((v - 1) as i32)
            } else {
                None
            },
            None => None,
        },
{
    if let Some(v) = respawn_ticks {
        if v > 1 {
            Some(v - 1)
        } else {
            None
        }
    } else {
        None
    }
}

} // verus!

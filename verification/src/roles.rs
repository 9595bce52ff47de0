//! The roles that robots play.
use vstd::prelude::*;

verus! {

/// A robot's role: attacking, or guarding the own goal.
#[derive(Debug, Clone, Eq, PartialEq, Structural)]
pub enum Role {
    Forward(Forward),
    Goalkeeper(Goalkeeper),
}

/// The robot that attacks.
#[derive(Debug, Clone, Eq, PartialEq, Structural)]
pub struct Forward {
    pub robot_id: i32,
}

/// The robot that guards the own goal.
#[derive(Debug, Clone, Eq, PartialEq, Structural)]
pub struct Goalkeeper {
    pub robot_id: i32,
}

impl Role {
    pub fn forward(robot_id: i32) -> (r: Self)
        ensures
            r == Role::Forward(Forward { robot_id }),
    {
        Role::Forward(Forward { robot_id })
    }

    pub fn goalkeeper(robot_id: i32) -> (r: Self)
        ensures
            r == Role::Goalkeeper(Goalkeeper { robot_id }),
    {
        Role::Goalkeeper(Goalkeeper { robot_id })
    }

    /// The robot that plays the role.
    pub fn robot_id(&self) -> (r: i32)
        ensures
            r == match self {
                Role::Forward(v) => v.robot_id,
                Role::Goalkeeper(v) => v.robot_id,
            },
    {
        match self {
            Role::Forward(v) => v.robot_id,
            Role::Goalkeeper(v) => v.robot_id,
        }
    }

    /// The name shown for the role.
    pub fn name(&self) -> (r: &'static str)
        ensures
            self is Forward ==> r@ == "forward"@,
            self is Goalkeeper ==> r@ == "goalkeeper"@,
    {
        match self {
            Role::Forward(_) => "forward",
            Role::Goalkeeper(_) => "goalkeeper",
        }
    }
}

impl Forward {
    /// A forward may always leave its role.
    pub fn can_quit() -> (r: bool)
        ensures
            r,
    {
        true
    }
}

/// A role keeps the robot it was given.
pub proof fn lemma_role_keeps_robot(robot_id: i32)
    ensures
        (match Role::Forward(Forward { robot_id }) {
            Role::Forward(v) => v.robot_id,
            Role::Goalkeeper(v) => v.robot_id,
        }) == robot_id,
        (match Role::Goalkeeper(Goalkeeper { robot_id }) {
            Role::Forward(v) => v.robot_id,
            Role::Goalkeeper(v) => v.robot_id,
        }) == robot_id,
{
}

} // verus!

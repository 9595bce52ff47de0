//! The players of a game.
use vstd::prelude::*;

verus! {

/// A player: its identifier, whether it is this bot, whether its strategy crashed, its score.
#[derive(Debug, Clone, Copy, PartialEq, Eq, Structural)]
pub struct Player {
    pub id: i32,
    pub me: bool,
    pub strategy_crashed: bool,
    pub score: i32,
}

/// The player as seen from the other side of the field.
pub open spec fn opposite_player(p: Player) -> Player {
    Player { me: !p.me, ..p }
}

impl Player {
    /// The same player seen from the other side: `me` flips, all else stays.
    pub fn opposite(&self) -> (r: Player)
        ensures
            r == opposite_player(*self),
    {
        Player { id: self.id, me: !self.me, strategy_crashed: self.strategy_crashed, score: self.score }
    }
}

/// Seeing a player from the other side twice gives the player back.
pub proof fn lemma_opposite_player_involution(p: Player)
    ensures
        opposite_player(opposite_player(p)) == p,
{
}

} // verus!

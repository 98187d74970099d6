//! The two sides of the game.

use vstd::prelude::*;

verus! {

/// One of the two players. Turns strictly alternate between them.
#[derive(Clone, Copy, Debug, PartialEq, Eq, Structural)]
pub enum Player {
    YeonSeung,
    JunSeok,
}

impl Player {
    /// The other player, as a specification.
    pub open spec fn spec_opponent(&self) -> Player {
        match *self {
            Player::YeonSeung => Player::JunSeok,
            Player::JunSeok => Player::YeonSeung,
        }
    }

    /// The player who moves after `self`.
    #[verifier::when_used_as_spec(spec_opponent)]
    pub fn opponent(&self) -> (other: Player)
        ensures
            other == self.spec_opponent(),
            other != *self,
            other.spec_opponent() == *self,
    {
        match *self {
            Player::YeonSeung => Player::JunSeok,
            Player::JunSeok => Player::YeonSeung,
        }
    }

    /// Swapping sides twice gives back the player one started with, and a
    /// player is never their own opponent.
    pub proof fn lemma_opponent_involution(p: Player)
        ensures
            p.opponent().opponent() == p,
            p.opponent() != p,
    {
    }
}

} // verus!

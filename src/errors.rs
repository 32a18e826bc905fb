use vstd::prelude::*;

verus! {

/// Errors about the game as a whole.
#[derive(Debug, Clone, Copy, PartialEq, Eq, Structural)]
pub enum GameError {
    /// The player number given does not name a player of this game.
    InvalidPlayer,
}

/// Errors a player's action can produce; each leaves the game as it was.
#[derive(Debug, Clone, Copy, PartialEq, Eq, Structural)]
pub enum PlayerActionError {
    /// It is the turn of the player given here.
    NotPlayerTurn(u8),
    /// The action is not allowed in the current phase of the turn.
    IncorrectTurnPhase,
    /// The game has finished.
    GameOver,
    /// A card named by the action cannot be used for it.
    InvalidCard,
}

/// Errors found while staging cards for a meld.
#[derive(Debug, Clone, Copy, PartialEq, Eq, Structural)]
pub enum InternalMeldError {
    /// The card with this id is not in the player's hand.
    InvalidCardId(u8),
    /// The card with this id can never be melded (a red three).
    InvalidCardToMeld(u8),
    /// The card with this id is neither wild nor of the meld's rank.
    IncorrectRank(u8),
    /// The rank asked for is a wild rank, which never forms a meld.
    IneligibleRank,
}

} // verus!

use vstd::prelude::*;
use crate::game::{CanastaGame, TurnPhase, deal_size};

verus! {

/// Collects the settings of a new game.
pub struct GameBuilder {
    num_players: Option<u8>,
    num_canastas: Option<u8>,
    full_game: Option<bool>,
}

impl GameBuilder {
    pub closed spec fn spec_players(&self) -> Option<u8> {
        self.num_players
    }

    pub closed spec fn spec_canastas(&self) -> Option<u8> {
        self.num_canastas
    }

    pub closed spec fn spec_full_game(&self) -> Option<bool> {
        self.full_game
    }

    pub fn new() -> (r: GameBuilder)
        ensures
            r.spec_players() is None,
            r.spec_canastas() is None,
            r.spec_full_game() is None,
    {
        GameBuilder { num_players: None, num_canastas: None, full_game: None }
    }
    /// Sets the number of players.
    pub fn players(self, players: u8) -> (r: GameBuilder)
        ensures
            r.spec_players() == Some(players),
            r.spec_canastas() == self.spec_canastas(),
            r.spec_full_game() == self.spec_full_game(),
    {
        GameBuilder { num_players: Some(players), ..self }
    }

    /// Sets the number of canastas a player needs to go out.
    pub fn canastas(self, canastas: u8) -> (r: GameBuilder)
        ensures
            r.spec_players() == self.spec_players(),
            r.spec_canastas() == Some(canastas),
            r.spec_full_game() == self.spec_full_game(),
    {
        GameBuilder { num_canastas: Some(canastas), ..self }
    }

    /// Chooses a full game.
    pub fn full_game(self) -> (r: GameBuilder)
        ensures
            r.spec_players() == self.spec_players(),
            r.spec_canastas() == self.spec_canastas(),
            r.spec_full_game() == Some(true),
    {
        GameBuilder { full_game: Some(true), ..self }
    }

    /// Chooses a single hand.
    pub fn hand(self) -> (r: GameBuilder)
        ensures
            r.spec_players() == self.spec_players(),
            r.spec_canastas() == self.spec_canastas(),
            r.spec_full_game() == Some(false),
    {
        GameBuilder { full_game: Some(false), ..self }
    }

    /// A new game with the settings given, or `None` if one is missing or
    /// the number of players is not between two and six.
    pub fn build(&mut self) -> (r: Option<CanastaGame>)
        ensures
            *final(self) == *old(self),
            r is Some <==> ({
                &&& old(self).spec_players() matches Some(n) && 2 <= n <= 6
                &&& old(self).spec_canastas() is Some
                &&& old(self).spec_full_game() is Some
            }),
            r matches Some(g) ==> {
                &&& g.wf()
                &&& old(self).spec_players() == Some(g.spec_players().len() as u8)
                &&& old(self).spec_canastas() == Some(g.spec_canastas_go_out())
                &&& old(self).spec_full_game() == Some(g.spec_full_game())
                &&& forall|i: int| 0 <= i < g.spec_players().len() ==> (#[trigger] g.spec_players()[i]).spec_hand().len()
                    + g.spec_players()[i].spec_red_threes().len() == deal_size(g.spec_players().len() as int)
                &&& g.spec_current() == 0
                &&& g.spec_phase() == TurnPhase::Draw
            },
    {
        let players = match self.num_players {
            Some(p) => p,
            None => {
                return None;
            },
        };
        let canastas = match self.num_canastas {
            Some(c) => c,
            None => {
                return None;
            },
        };
        let full_game = match self.full_game {
            Some(f) => f,
            None => {
                return None;
            },
        };
        if players < 2 || players > 6 {
            return None;
        }
        Some(CanastaGame::new(players, canastas, full_game))
    }
}

} // verus!

//! A rules engine for the card game Canasta: dealing, turn sequencing,
//! meld staging and commitment, and the discard pile's freeze rule.

pub mod card;
pub mod errors;
pub mod deck;
pub mod discard;
pub mod meld;
pub mod player;
pub mod game;
pub mod game_builder;

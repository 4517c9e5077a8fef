//! A networked card-game session: a dealer state machine that drives a shuffled
//! deck, a center card and remote players, with tick-driven animations that
//! decide when each player is told about a change.

pub mod my_card_game;
pub mod progress;
pub mod standard_deck;

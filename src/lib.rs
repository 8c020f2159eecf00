//! The authoritative engine of a turn-based wizard battle on a 15 × 10 board:
//! the board and its spatial queries, the roster and the lobby, the spells and
//! the dice rules, and the steps of the turn state machine, each returning the
//! events the players are to see.
pub mod arena;
pub mod color;
pub mod combat;
pub mod creation;
pub mod dice;
pub mod error;
pub mod movement;
pub mod rules;
pub mod session;
pub mod spells;
pub mod stats;
pub mod turn;
pub mod wizard;

//! Single-player blackjack rules engine with exact whole-chip accounting.
//!
//! The library holds the card model, hand evaluation, checked chip arithmetic,
//! table rules, the shoe, the round state machine, the bankroll session and the
//! console input parsers; each carries a machine-checked contract.

pub mod card;
pub mod hand;
pub mod money;
pub mod rules;
pub mod shoe;
pub mod round;
pub mod session;
pub mod cli;
pub mod properties;

//! An event-sourced engine for a two-player turn-based trading-card match.
//!
//! The state of a match is an aggregate ([`game::Game`]) that changes only
//! through a validated message vocabulary ([`messages::Message`]): a reducer
//! ([`game::Game::handle_message`]) checks every message before it mutates
//! anything, and a pure step generator ([`generator::next_step`]) turns the
//! observed state into the ordered messages to apply next, encoding the
//! phase and priority machinery. Player decisions enter through a
//! query/answer protocol ([`generator::ask_query`]), and a driver
//! ([`duel::duel`]) runs generate-apply-notify until the match ends.
//!
//! Every function carries a contract over the mathematical models of the
//! data ([`game::GameV`], [`messages::MessageV`]); [`laws`] states and
//! proves the properties that span several of them.

pub mod card;
pub mod energy;
pub mod messages;
pub mod player;
pub mod game;
pub mod rng;
pub mod generator;
pub mod duel;
pub mod laws;

//! Rules engine for a turn-based social-deduction party game played by a
//! small group of peers without a central server.
//!
//! Every peer holds its own copy of the game state and advances it through a
//! command/result/reducer protocol: `resolve` computes an outcome once,
//! authoritatively (it may draw randomness), and `reducer` applies a
//! previously computed outcome deterministically on every peer.  The engine
//! covers board setup (dictionary extraction, derangement target assignment,
//! knowledge distribution), a generic simultaneous-input barrier, and the
//! market/action resolution rules of one round.

pub mod assoc;
pub mod game;
pub mod init;
pub mod model;
pub mod perm;
pub mod profile;
pub mod rng;
pub mod setting;
pub mod simultaneously;
pub mod state;

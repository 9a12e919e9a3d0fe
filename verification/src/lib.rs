//! Commitment-and-membership core of a round-based word-guessing game.
//!
//! A Merkle tree of Poseidon hashes is built over an ordered word corpus;
//! a salted Poseidon commitment binds the secret word of a round to a
//! public value; a word bank answers membership and random-pick queries;
//! and a round type bundles everything a round publishes so that readers
//! always observe one consistent round.

pub mod digest;
pub mod game_state;
pub mod hashing;
pub mod merkle;
pub mod responses;
pub mod word_bank;

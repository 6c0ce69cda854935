//! A small polling and voting state machine: polls are created with a
//! question and a list of options, each identity may vote once per poll,
//! and tallies can be read back.

pub mod assoc;
pub mod encoding;
pub mod laws;
pub mod poll;
pub mod store;

pub use poll::{VotingOption, VotingOptions, VotingResults, VotingStats};
pub use store::Voting;

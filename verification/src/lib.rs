//! A verified core for a command-line word-guessing game: letter scoring
//! with multiset accounting, a hard-mode legality check, the per-session
//! state machine, and the cross-session statistics aggregator.

pub mod color;
pub mod word;
pub mod score;
pub mod hard_mode;
pub mod dict;
pub mod game;
pub mod stats;
pub mod record;
pub mod args;
pub mod pick;

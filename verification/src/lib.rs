//! Scores lines of streaming text by asking a conversational language-model
//! backend to judge them, then reports each line's score so the caller can
//! colorize it.
//!
//! The crate holds the scoring pipeline itself: the tolerant parser that
//! extracts a (reason, score) pair from free-form backend text, the bounded
//! conversational context window, the per-line retry state machine, and the
//! score clamping that feeds the color gradient. Transport (HTTP), terminal
//! rendering and the float-valued gradient live outside, in the thin program
//! around this library; they talk to the pipeline through plain values.

pub mod canon;
pub mod context;
pub mod message;
pub mod parser;
pub mod score;
pub mod session;
pub mod startup;
pub mod text;

pub use score::Score;

//! A two-state cellular automaton with configurable birth and survival
//! rules, and a double-buffered terminal renderer that redraws only the
//! cells that changed between two frames.

pub mod board;
pub mod error;
pub mod rules;
pub mod terminal;

pub use board::{automata_step, Board, Grid};
pub use error::LengthMismatch;
pub use rules::{rule_from_string, RuleError};
pub use terminal::{clear_terminal, close_terminal, Screen, Terminal};

//! An interpreter for the eight-instruction tape language: a cleaner that keeps
//! only instruction symbols, a jump table that pairs brackets, and a step-wise
//! machine over a growable tape of wrapping byte cells.

pub mod cleaner;
pub mod engine;
pub mod jump_table;

pub use cleaner::{clean, is_instruction};
pub use engine::{Machine, Program, Step};
pub use jump_table::{build_brace_map, BracketError, JumpTable};

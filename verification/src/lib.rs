//! A small dynamic value algebra: one tagged union (`Any`) over text,
//! numbers, lists, sorted sets and mappings, with the four arithmetic
//! operators redefined per pair of kinds (text times number repeats the
//! text, text divided by text splits it, text divided by number chunks
//! it, and so on).
//!
//! Numbers are IEEE-754 binary64 values carried by their bit pattern, so
//! the dispatch and all text computations are verified here; only the
//! two operations that need real floating-point hardware - arithmetic on
//! two numbers and rendering a number as decimal text - are handed back
//! to the embedding host as a task.

pub mod bits;
pub mod order;
pub mod text;
pub mod value;

pub use value::{apply, Any, Kind, Op, OpError, Outcome};

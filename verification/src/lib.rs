//! One-dimensional elementary cellular automata on bit-packed rows.
//!
//! All 256 Wolfram rules are supported. A row is a slice of `u64` words, most significant bit
//! first: cell `pos` is bit `63 - pos % 64` of word `pos / 64`. Cells beyond either edge are
//! dead. A run starts from a single live cell at `width / 2` and is drawn as a grayscale
//! picture, one row per generation, with live cells black and dead cells white.
mod bits;
pub mod consent;
pub mod laws;
pub mod model;
pub mod picture;
pub mod plan;
pub mod row;
pub mod rule;

pub use consent::{is_white_space, is_yes};
pub use picture::{decode_row_to_image, render, simulate, Picture};
pub use plan::{Plan, PlanError};
pub use row::{compute_next_generation, set_bit};
pub use rule::build_rule_table;

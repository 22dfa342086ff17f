//! Sparse containers keyed by unsigned integers, and a cellular automaton
//! engine built on them.
//!
//! - [`utils::uset::USet`] is a set of `usize` keys and
//!   [`utils::umap::UMap`] a partial map from `usize` keys, both stored
//!   densely; [`utils::ops`] writes their algebra with operators and
//!   [`utils::laws`] states the laws of the algebra.
//! - [`fields`] holds positions and directions on a square grid.
//! - [`engine::automaton`] holds the board, whose edges are joined to the
//!   edges across, the capabilities that a cell and a view of its
//!   neighbours offer, and the automaton that stages changes and steps the
//!   board; [`engine::laws`] states what stepping and patching guarantee.
//! - [`examples`] and [`langtonsant`] hold cells to run on the engine, and
//!   [`visualisation`] the state behind a window that shows an automaton.
//! - [`ids`] and [`cell`] hold identifiers for values and cell types.
//!
//! Every container and the board have an abstract value, a `Set`, a `Map`
//! or a `Seq`, which the contracts of their operations are stated over.

pub mod cell;
pub mod engine;
pub mod examples;
pub mod fields;
pub mod ids;
pub mod langtonsant;
pub mod utils;
pub mod visualisation;

//! The cellular automaton engine: a square board of cells with wrapped
//! edges, and the automaton that steps it.

pub mod automaton;
pub mod laws;

//! Dense-backed containers keyed by `usize`.

pub mod laws;
pub mod ops;
pub mod umap;
pub mod uset;
pub mod window;

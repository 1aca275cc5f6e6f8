//! Discovery of local repositories and aggregation of an author's commits
//! into per-day counts over a trailing window.
pub mod counts;
pub mod window;
pub mod scanner;
pub mod cache;
pub mod backend;
pub mod aggregate;
pub mod heatmap;

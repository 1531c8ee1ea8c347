//! Scheduling and context-bounded translation of narrative dialogue threads.
//!
//! A dependency graph of threads is linearized into root-to-leaf series by a
//! shortest-path tree; each series is translated line by line against a rolling
//! context window that is evicted until the prompt fits a token budget.

pub mod errors;
pub mod graph;
pub mod dijkstra;
pub mod text;
pub mod roster;
pub mod series;
pub mod prompt;
pub mod engine;

pub use errors::TlError;

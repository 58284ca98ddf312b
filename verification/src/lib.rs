//! An in-memory temporal property graph store.
//!
//! The store keeps a directed multigraph whose edges are timestamped
//! events. Adjacency is held in fixed-capacity pages chained per vertex,
//! a time index maps every timestamp to the page entries written at it,
//! and per-name time cells hold sparse property histories. Queries are
//! answered through windowed views that restrict every traversal to a
//! half-open time window `[t_start, t_end)`.

pub mod graph;
pub mod ingest;
pub mod page;
pub mod pager;
pub mod path;
pub mod prop;
pub mod props;
pub mod seqs;
pub mod tcell;
pub mod tindex;
pub mod window;

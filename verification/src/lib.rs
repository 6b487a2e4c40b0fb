//! A streaming dataflow evaluator: a topologically ordered arena of pure
//! numeric nodes, evaluated incrementally against a stream of input rows,
//! emitting an output record whenever a designated trigger node's value
//! changes.
//!
//! Values are IEEE-754 double-precision numbers, carried everywhere as
//! their 64-bit patterns (`u64`). The scalar primitives (addition,
//! comparison, and so on) enter through the [`arith::Arith`] trait; the
//! evaluator, the linker and every law proved here hold for any
//! implementation of it.
//!
//! The pieces, bottom up: [`nodes`] is the closed set of node operations;
//! [`arena`] the immutable, topologically ordered graph; [`row`] one
//! step's named inputs; [`sem`] the dense sweep semantics that every
//! evaluation strategy is pinned to; [`eval`] the incremental streaming
//! engine with its trigger-gated emission protocol; [`engines`] the
//! batch sweep and lazy strategies; [`kinds`] the closed kind registry;
//! [`specs`] and [`link`] the builder that turns identity-based node
//! specifications into an arena; [`graph`] the programmatic builder; and
//! [`laws`] the laws of the whole core, proved once for every arithmetic.

pub mod arena;
pub mod arith;
pub mod engines;
pub mod eval;
pub mod graph;
pub mod kinds;
pub mod laws;
pub mod link;
pub mod nodes;
pub mod row;
pub mod sem;
pub mod specs;

//! Core of an input-axis remapping pipeline: user-authored arithmetic
//! expressions over physical device axes are parsed, analysed for their
//! dependencies, compiled into a dependency graph, and driven by a
//! propagation engine that decides, for every incoming physical-axis
//! update, which virtual axes must be recomputed and in what order.
//!
//! Everything here is pure logic over plain values; device discovery,
//! event reading and virtual-device output live outside this crate and
//! talk to the engine through its event/action interface.

pub mod config;
pub mod engine;
pub mod eval;
pub mod expr;
pub mod graph;
pub mod parser;

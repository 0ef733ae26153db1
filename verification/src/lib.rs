//! Chain-sync ingestion: mirrors a blockchain's tip block into a relational
//! store, one guarded cycle per tick, and keeps one market sample per height.
//!
//! The crate holds the decisions of the pipeline as verified functions and
//! state machines over plain values. The caller performs the network and
//! store operations that the machines ask for and hands the results back.

pub mod calendar;
pub mod cycle;
pub mod decompose;
pub mod error;
pub mod model;
pub mod payload;
pub mod persist;
pub mod query;
pub mod resolver;
pub mod sampler;
pub mod store;
pub mod text;
pub mod writer;

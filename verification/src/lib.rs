//! A structured, transactional text-transformation engine.
//!
//! The library holds the decisions of the engine: how a replacement text is
//! validated, which matches of a pattern are replaced and what the result is,
//! how per-file outcomes are aggregated into a report, which policies are
//! violated, and when a transaction may be committed. File and stream I/O is
//! left to the caller, which hands the library plain values and performs the
//! actions the library decides on.

pub mod args;
pub mod diff;
pub mod engine;
pub mod error;
pub mod events;
pub mod glob;
pub mod input;
pub mod model;
pub mod paths;
pub mod policy;
pub mod render;
pub mod replacer;
pub mod reporter;
pub mod rgjson;
pub mod run;
pub mod scan;
pub mod text;
pub mod write;

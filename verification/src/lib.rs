//! Derives a data-flow-diagram model from structured annotations found in
//! source comments.
//!
//! An external scanner walks source files and hands this crate an ordered
//! stream of annotation events, each bound to the code element (the
//! *context*) the comment was attached to.  The crate parses directive
//! bodies into typed annotation kinds, folds the stream into a graph of
//! entities and labeled flows, and collects non-fatal diagnostics along the
//! way.  Rendering, file I/O and the comment scanner itself are outside this
//! crate.

pub mod diagnostics;
pub mod laws;
pub mod model;
pub mod parser;
pub mod resolver;
pub mod semantics;

//! Evaluation-descriptor builder for an ECMAScript chunk.
//!
//! When a bundle entry point must be executed (not merely included in the
//! output), the bundler needs a self-contained description of: which other
//! chunks must already be loaded before the entry runs, which of those are
//! runnable scripts versus non-executable assets, which module identifiers
//! correspond to the entry points to invoke, and — optionally — where a
//! manifest describing the dynamic chunk set can be found at runtime.
//!
//! [`chunk`] models the chunk-graph data the builder reads, [`paths`] maps
//! absolute filesystem paths to root-relative server paths, and [`evaluate`]
//! holds the builder itself together with the proved properties of its
//! output.

pub mod chunk;
pub mod evaluate;
pub mod paths;

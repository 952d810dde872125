//! Verified core logic of the Standardoc code-graph indexer: path and
//! manifest classification, lockfile bookkeeping, FTS5 query hygiene,
//! source-body compaction, identifier tokenisation, symbol diffing,
//! graph composition and the small state machines that drive the
//! watchers.
use vstd::prelude::*;

pub mod text;
pub mod paths;
pub mod manifest;
pub mod lockfiles;
pub mod query;
pub mod fts;
pub mod discovery;
pub mod body;
pub mod comments;
pub mod workspace;
pub mod peers;
pub mod provider;
pub mod call_sites;
pub mod graph;
pub mod projects;
pub mod similarity;
pub mod lookup;
pub mod cross_workspace;
pub mod diff;
pub mod builtins;
pub mod resolve;
pub mod filters;
pub mod joins;
pub mod ingest;
pub mod cold_start;
pub mod neighbors;
pub mod rows;
pub mod writer;

verus! {

} // verus!

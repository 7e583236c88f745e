//! A cross-repository git history index.
//!
//! The library holds the rules of the indexer and proves them:
//! - `ingest`, `message`, `ignore`: what a repository walk does with each
//!   commit (skip, filter, index), how a message splits into subject and body,
//!   which changed files and patch lines are kept;
//! - `plans`, `schema`, `queries`: the writes and queries of the SQLite index,
//!   as typed operations over a model of its tables, with the coherence of the
//!   full-text index, the vector table and the removal cascade proved;
//! - `codec`, `results`, `dates`: compressed patch blobs, previews, excerpts
//!   and ISO 8601 dates;
//! - `embed`: embedding documents and backfill counts;
//! - `mcp`, `cli`: dispatch of the tool server and checks of the command line.
//!
//! Reading repositories, running SQL and calling the embedding service are
//! left to the caller, which hands the library plain values.
use vstd::prelude::*;

pub mod text;
pub mod types;
pub mod ignore;
pub mod dates;
pub mod message;
pub mod ingest;
pub mod embed;
pub mod codec;
pub mod queries;
pub mod results;
pub mod cli;
pub mod mcp;
pub mod plans;
pub mod schema;

verus! {

} // verus!

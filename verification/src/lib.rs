//! Indexing and search engine of a local, per-workspace code-search service.
//!
//! For each registered directory the service keeps a lexical index over the
//! content of its files and a vector index over overlapping chunks of their
//! text, and keeps both in step with the files on disk.
//!
//! The crate holds the decisions of the engine: which paths are indexable,
//! how text is cut into chunks, how a rebuild is reconciled against the
//! recorded content hashes, how vector ids are handed out, how the catalog
//! of workspaces changes, what a batch of file changes comes to. Everything
//! that touches the disk, the network or the model that makes the vectors is
//! left to the caller, which hands in plain values and does as it is told.

pub mod chunker;
pub mod collections;
pub mod config;
pub mod embedder;
pub mod error;
pub mod flags;
pub mod hashes;
pub mod indexer;
pub mod lang;
pub mod paths;
pub mod routes;
pub mod search;
pub mod server;
pub mod state;
pub mod symbols;
pub mod text;
pub mod vectors;
pub mod watcher;
pub mod workspace;

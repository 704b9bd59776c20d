//! A local code-intelligence library: content-addressed chunking of source
//! files, a cross-file symbol graph with import-guided name resolution,
//! filter construction for a columnar store, a repository registry with
//! background-task bookkeeping, and webhook signature verification.
//!
//! The modules hold the decision logic of two sibling services (an index
//! service and a webhook receiver); process edges such as file walking,
//! network calls and the columnar store engine live outside the library
//! and hand it plain values.

pub mod chunking;
pub mod embedding;
pub mod extract;
pub mod filters;
pub mod graph;
pub mod hashing;
pub mod ids;
pub mod indexer;
pub mod languages;
pub mod queries;
pub mod registry;
pub mod text;
pub mod verification;
pub mod webhooks;

//! Behaviour-based alignment of netlists: per-bit switching fingerprints
//! collected from value-change traces, kept in a database, and matched
//! across databases.
pub mod fingerprint;
pub mod hier;
pub mod names;
pub mod db;
pub mod header;
pub mod ingest;
pub mod scope;
pub mod matcher;
pub mod laws;

pub use db::{HashDB, LoadError};
pub use fingerprint::BitState;
pub use header::{IngestError, ReferenceIndex, VarDecl};
pub use hier::{HId, HierNameIdx, RefHId};
pub use ingest::{Ingestion, Token};
pub use matcher::{match_dbs, MatchGroup, MatchReport};
pub use scope::{enumerate_vars, Scope, ScopeItem, Var};

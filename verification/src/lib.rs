//! Read-path core of a content-addressed object database.
//!
//! Objects (blobs, trees, commits, tags) are identified by a cryptographic
//! digest and stored either individually ("loose") or batched in pack files,
//! each pack described by an index file. This crate provides:
//!
//! - a store aggregator handing out immutable [`store::Snapshot`]s of the
//!   currently known pack indices and loose-object stores,
//! - an iterator over every object identifier of such a snapshot,
//! - checksum verification for index files, and
//! - a pack-integrity verifier that checks every object an index claims,
//!   including a decode/re-encode round trip for structured objects.

pub mod bytes;
pub mod checksum;
pub mod data;
pub mod hash;
pub mod index;
pub mod integrity;
pub mod iter;
pub mod loose;
pub mod object;
pub mod progress;
pub mod revision;
pub mod store;
pub mod traverse;
pub mod verify;

//! Storage for the blob sidecars of blob-carrying transactions.
//!
//! A transaction pool keeps the large blob payloads attached to certain
//! transactions until they are no longer needed for consensus or relay
//! purposes. This crate provides that storage subsystem:
//!
//! - [`store::BlobStore`], the polymorphic write/bookkeeping interface every
//!   backend satisfies;
//! - [`mem::InMemoryBlobStore`], a pure in-memory mapping;
//! - [`noop::NoopBlobStore`], the always-empty backend used when blob
//!   retention is disabled;
//! - [`disk::DiskFileBlobStore`], the bookkeeping core of a disk-backed store
//!   with a bounded hot cache and deferred, batched physical deletion (the
//!   file system work itself is performed by the embedding application and
//!   reported back as events);
//! - [`tracker::BlobStoreCanonTracker`], which turns canonical-chain
//!   extension and reorg notifications into batches of store updates.

pub mod disk;
pub mod error;
pub mod hash;
pub mod mem;
pub mod noop;
pub mod sidecar;
pub mod size;
pub mod stat;
pub mod store;
pub mod tracker;

//! Tools for working with the Wayback Machine: digests, snapshot descriptors,
//! the index and content protocols, the content-addressable store layout and
//! the decisions of an ingestion session.
//!
//! Everything here works on plain values. Network and file access belong to
//! the caller, which performs the requests this crate plans and hands the
//! replies back.

pub mod cdx;
pub mod digest;
pub mod downloader;
pub mod exchange;
pub mod item;
pub mod queries;
pub mod records;
pub mod session;
pub mod store;
pub mod text;
pub mod textset;
pub mod util;

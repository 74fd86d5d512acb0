//! Forwards newly observed NetBird activity events to a Loki ingestion endpoint.
//!
//! The crate holds the decisions of the connector: which events of a fetched
//! batch are new with respect to a high-water mark, how events are partitioned
//! into label-keyed streams and rendered as log lines, and how one polling
//! cycle moves from fetching to forwarding to sleeping. Network transport and
//! the wall clock are left to the caller, which hands the library plain values
//! and performs the actions it is told to perform.

pub mod config;
pub mod exporter;
pub mod labels;
pub mod loki;
pub mod models;
pub mod netbird;
pub mod record;
pub mod streams;
pub mod text;
pub mod timestamp;
pub mod watermark;

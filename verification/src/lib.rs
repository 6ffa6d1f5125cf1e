//! Timeline synchronization core for a page server that mirrors PostgreSQL
//! timelines to remote object storage.
//!
//! The crate holds the decision logic of two subsystems:
//! - the storage synchronization engine, which plans layer-file uploads and
//!   downloads, keeps per-timeline index parts coherent, and reschedules
//!   failed work;
//! - the WAL receiver driver, which turns replication-stream events into
//!   status updates, ingest steps and replication feedback.
//!
//! All I/O stays with the caller: the functions here go from plain values to
//! plain values, and their contracts say exactly what each one computes.

pub mod codec;
pub mod control;
pub mod download;
pub mod ids;
pub mod index;
pub mod lsn;
pub mod num;
pub mod paths;
pub mod queue;
pub mod upload;
pub mod walreceiver;

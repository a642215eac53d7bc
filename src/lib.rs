//! A sparse, sector-addressed block store served over a simple binary protocol.
//!
//! The verified parts are the sector index with its seek cursor, the on-disk
//! encoding of the index, the request and response framing, and the decisions
//! of the service loop. File and socket I/O are left to the caller.

pub mod codec;
pub mod endian;
pub mod layer;
pub mod model;
pub mod service;

//! Routing core of a multi-connection QUIC server: first-header triage,
//! the CID routing table, handshake-attempt deduplication, the
//! per-connection CID allocator and the driver's output fold and sweep.

pub mod cid;
pub mod header;
pub mod table;
pub mod cid_alloc;
pub mod server;
pub mod laws;

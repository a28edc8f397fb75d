//! Synchronization backend for a multi-client task history: each client owns a
//! linear chain of opaque history segments, and the server arbitrates
//! concurrent attempts to extend that chain with compare-and-swap semantics
//! over the client's latest-version pointer.

pub mod api;
pub mod argparse;
pub mod cmd_info;
pub mod ids;
pub mod laws;
pub mod server;
pub mod storage;
pub mod strutil;

//! Verified core of a small TCP echo server.
//!
//! The library holds everything about the server that is pure logic: the
//! binary wire codec for the request and response envelopes, the dispatch
//! from a request to its response, the per-connection handler's decision
//! step, and the listener's and shutdown coordinator's transitions. The
//! surrounding process (sockets, threads, sleeping) drives these functions
//! and performs the I/O they decide on.

pub mod codec;
pub mod control;
pub mod handler;
pub mod varint;

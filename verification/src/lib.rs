//! A verified reactor core for a minimal single-threaded network server.
//!
//! The library holds the logic of a readiness-multiplexing event loop: the
//! per-connection state machine that accumulates request bytes until a
//! `content-length` header is satisfied, the registry of live connections,
//! and a record of which registrations are armed in the readiness facility.
//! The operating-system calls themselves (epoll, accept, read, write) live
//! outside the library; it decides, the caller performs.

pub mod conn;
pub mod parse;
pub mod reactor;

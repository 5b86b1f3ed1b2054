//! An append-only, in-memory record log.
//!
//! A log stores opaque byte payloads in the order they arrive. Every payload
//! is given the next free offset, counted from zero, and can afterwards be
//! fetched by that offset for as long as the log lives.

pub mod server;

//! Safe path resolution and file-serving engine for a LAN file server.
//!
//! The library maps untrusted request paths onto a configured root
//! directory without ever escaping it, orders directory listings
//! deterministically, and prepares the metadata of a file download.
//! All I/O (the HTTP transport, directory enumeration, file reads)
//! stays with the caller; the library works on plain values and is
//! verified.

pub mod download;
pub mod errors;
pub mod listing;
pub mod render;
pub mod resolve;
pub mod text;

pub use errors::ServeError;

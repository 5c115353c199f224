//! The request-handling core of a small HTTP serving library: a uniform,
//! failure-safe handler contract, a typed per-request extension store, and
//! a static-file responder with traversal-safe path resolution and a
//! chunked body stream.
pub mod context;
pub mod file;
pub mod path;
pub mod response;
pub mod static_files;
pub mod stream;

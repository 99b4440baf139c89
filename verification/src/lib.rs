//! Fetch one large remote object into an anonymous in-memory buffer and hand
//! it to a freshly started program.
//!
//! The crate holds the policy and bookkeeping of that pipeline: sizing the
//! ranged fetches, partitioning the object into disjoint byte ranges, writing
//! fetched chunks into a shared buffer, substituting the buffer's path into
//! the target program's argument list, and the state of one run. The network
//! and operating-system edges (the object store client, the anonymous memory
//! file, the image replacement) live with the caller, which feeds this crate
//! plain values.

pub mod args;
pub mod buffer;
pub mod download;
pub mod handoff;
pub mod plan;
pub mod sizing;
pub mod text;

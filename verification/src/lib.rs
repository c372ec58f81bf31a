//! A verified codec for the IPS binary patch format.
//!
//! An IPS patch is a compact list of byte-range edits (hunks) that turns one
//! binary image into another. This crate parses patch bytes into an
//! [`ips::IPSPatch`], serializes a patch back to bytes, and applies a patch to
//! an in-memory target, either from a materialized patch or directly while
//! streaming. Every operation carries a contract that pins its result down to
//! the byte.

pub mod err;
pub mod io_util;
pub mod ips;
pub mod laws;
pub mod test_util;

pub use err::Error;
pub use err::ErrorKind;

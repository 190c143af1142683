//! Globally unique, sortable 12-byte identifiers with a fixed-width
//! base-32 textual codec.
//!
//! An identifier packs a timestamp, a machine fingerprint, a process
//! fingerprint and an incrementing counter into 12 bytes whose
//! byte-lexicographic order is generation order; the codec turns them
//! losslessly into 20 characters whose string order matches.

pub mod codec;
pub mod identity;
pub mod order;
pub mod xid;

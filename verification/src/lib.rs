//! Record-flattening cache for an authoritative DNS server.
//!
//! A zone may publish an alias-style record whose concrete values (A, AAAA,
//! MX, TXT) must be resolved from another name and served in its place. This
//! crate holds the in-memory registry of flattened values, the pending
//! queue of keys awaiting resolution, and the maintenance rules that expire
//! and refresh cached entries. Network lookups themselves are performed by
//! the surrounding program, which hands their outcomes to the routines here.

pub mod flatten;
pub mod kvlist;
pub mod laws;
pub mod queue;
pub mod records;
pub mod registry;

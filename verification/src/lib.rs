//! A verified record registry for a content-sharing domain: audio "beats" and
//! derivative "tracks", addressed by deterministically derived byte keys,
//! guarded by a capability bitmask and ownership checks, and mutated through a
//! small set of atomic operations.

pub mod address;
pub mod errors;
pub mod laws;
pub mod records;
pub mod registry;
pub mod roles;

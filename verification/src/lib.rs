//! A fixed-capacity key/value cache that evicts with the CLOCK
//! (second-chance) algorithm: a circular slot array swept by a moving hand,
//! paired with a hash index from key to slot position, and a sharding layer
//! that routes every key to one store by a deterministic hash.

pub mod clock_map;
pub mod dash_map;
pub mod laws;

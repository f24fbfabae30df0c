//! A typed key-value store: tagged values, a byte codec for mappings,
//! a defaults layer, bounded rolling snapshots and the store engine
//! that ties them together. The engine is pure state: it hands out the
//! bytes that a caller makes durable and takes back the bytes that a
//! caller has read.

pub mod codec;
pub mod defaults;
pub mod engine;
pub mod error;
pub mod format;
pub mod laws;
pub mod mapping;
pub mod roundtrip;
pub mod snapshot;
pub mod value;

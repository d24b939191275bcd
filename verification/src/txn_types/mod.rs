//! The values that transactions read and write: timestamps, versioned keys,
//! write records and lock records.

pub mod bytes;
pub mod codec;
pub mod key;
pub mod lock;
pub mod mutation;
pub mod order;
pub mod timestamp;
pub mod write;
pub mod write_codec;

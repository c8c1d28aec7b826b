//! An in-process store for trace spans: an arena that hands out recyclable
//! handles, a reclaimer that frees the records a host has given up unless a
//! reader has pinned them, and an encoder that writes batches of records as
//! MessagePack.

pub mod encoder;
pub mod gc;
pub mod span;
pub mod wire;

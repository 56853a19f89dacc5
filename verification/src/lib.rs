//! Small building blocks for stream protocols: a prefix-coded variable-length
//! integer, a sliding bitmap that spots repeated indices, and a fixed pool of
//! individually locked slots.

pub mod pool_model;
pub mod shared_slots;
pub mod varint;
pub mod window;

//! Verified building blocks of a small holiday web service: the batch
//! calculator that bakes cookies from a pantry, and the helpers around it.

pub mod bakery;
pub mod base64;
pub mod bits;
pub mod elves;
pub mod pantry;
pub mod pixels;
pub mod reindeer;
pub mod text;
pub mod ulids;

//! Recursive merging of JSON documents: arrays concatenate, objects merge key
//! by key, and any other pair is resolved by the later value.

pub mod value;
pub mod merge;
pub mod laws;
pub mod fold;
pub mod args;

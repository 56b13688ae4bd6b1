//! Generation of store manipulations from fuzzing entropy.

pub mod bit_stack;
pub mod bits;
pub mod corruption;
pub mod decimal;
pub mod entropy;
pub mod fuzzer;
pub mod generation;
pub mod generator;
pub mod init;
pub mod laws;
pub mod reading;
pub mod stats;
pub mod store;

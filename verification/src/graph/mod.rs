//! The compute graph of a decoder: the tensors found in a checkpoint, and the
//! operators that run them.
pub mod builder;
pub mod meaning;
pub mod ops;
pub mod reading;
pub mod scan;

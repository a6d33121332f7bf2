//! Work shared over several machines: shares of tensors and layers, routing,
//! health and the wire.
pub mod analyzer;
pub mod collective;
pub mod moe;
pub mod pipeline;
pub mod protocol;
pub mod recovery;
pub mod tensor_parallel;

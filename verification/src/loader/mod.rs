//! Checkpoint files.
pub mod awq;
pub mod gguf;
pub mod gguf_written;
pub mod gptq;
pub mod mlx;
pub mod packed;
pub mod safetensors;

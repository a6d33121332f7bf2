//! What a backend decides before and between tensor operations.
pub mod attention;
pub mod audio;
pub mod forward;
pub mod gguf_meta;
pub mod kv;
pub mod loading;
pub mod multimodal;
pub mod projections;
pub mod rotation;
pub mod vision;
pub mod vision_parts;
pub mod weights;

//! Verified core of a local LLM inference engine.
pub mod backend;
pub mod backends;
pub mod calendar;
pub mod charsmap;
pub mod chat;
pub mod cluster;
pub mod conv_template;
pub mod ffi;
pub mod floats;
pub mod graph;
pub mod json;
pub mod loader;
pub mod metadata;
pub mod model;
pub mod names;
pub mod profile;
pub mod pull;
pub mod quantization;
pub mod sampler;
pub mod text;
pub mod tokenizer;
pub mod tokenizer_doc;
pub mod types;

//! The configuration file of a model directory.
use vstd::prelude::*;
use crate::json::parsed_json;
use crate::model::config::{meta_of, parse_config, problem, ConfigError};
use crate::types::{ModelMeta, Real};

verus! {

/// The fields of a configuration file that every model has.
#[derive(Debug, Clone)]
pub struct HfConfig {
    pub vocab_size: usize,
    pub hidden_size: usize,
    pub num_hidden_layers: usize,
    pub num_attention_heads: usize,
    pub num_key_value_heads: Option<usize>,
    pub max_position_embeddings: usize,
    pub rope_theta: Real,
    pub intermediate_size: usize,
    pub torch_dtype: String,
}

/// The element type of a model that does not name one.
pub fn default_torch_dtype() -> (s: String)
    ensures
        s@ == "float16"@,
{
    "float16".to_string()
}

/// Reads the model's metadata out of the text of its configuration file.
pub fn parse_metadata(contents: &str) -> (r: Result<ModelMeta, ConfigError>)
    ensures
        match parsed_json(contents@) {
            None => r matches Err(ConfigError::NotJson(_)),
            Some(val) => match r {
                Ok(meta) => problem(val) is None && meta@ == meta_of(val),
                Err(e) => problem(val) == Some(e@),
            },
        },
{
    parse_config(contents)
}

} // verus!

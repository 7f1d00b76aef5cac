//! Server and model configuration as plain values. Loading it from the
//! environment or from a file is the embedding program's concern.

use vstd::prelude::*;

verus! {

/// Where the server listens and how the language model is reached.
#[derive(Debug, Clone)]
pub struct Config {
    pub server_host: String,
    pub server_port: u16,
    pub llm_api_key: String,
    pub llm_base_url: String,
    pub llm_model: String,
    pub llm_enable_reasoning: bool,
}

} // verus!

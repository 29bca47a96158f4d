//! Configuration of the local llama.cpp backend.

use vstd::prelude::*;

verus! {

/// A local model.
#[derive(Debug, Clone, Copy, PartialEq, Eq)]
pub enum Model {
    Todo,
}

/// Where the model file is and how to run it.
pub struct LlamaConfig {
    pub model_path: String,
    pub n_threads: u16,
    pub mlock: bool,
    pub n_gpu_layers: u16,
}

/// A client of the local backend.
pub struct LlamaClient {
    config: LlamaConfig,
}

impl LlamaClient {
    /// A client with the given configuration.
    pub fn with_config(config: LlamaConfig) -> (c: LlamaClient)
        ensures
            c.config() == config,
    {
        LlamaClient { config }
    }

    /// The client's configuration.
    pub closed spec fn config(&self) -> LlamaConfig {
        self.config
    }
}

} // verus!

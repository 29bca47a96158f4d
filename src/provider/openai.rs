//! Configuration of the OpenAI chat backend.

use vstd::prelude::*;
use crate::text::same_text;

verus! {

/// An OpenAI chat model.
#[derive(Debug, Clone, PartialEq, Eq)]
pub enum Model {
    Gpt35Turbo,
    Gpt35Turbo16K,
    Gpt4,
    Custom(String),
}

/// The identifier the API knows a model by.
pub open spec fn model_id_of(m: Model) -> Seq<char> {
    match m {
        Model::Gpt35Turbo => "gpt-3.5-turbo"@,
        Model::Gpt35Turbo16K => "gpt-3.5-turbo-16k"@,
        Model::Gpt4 => "gpt-4"@,
        Model::Custom(id) => id@,
    }
}

impl Model {
    /// The identifier the API knows the model by.
    pub fn model_id(&self) -> (r: &str)
        ensures
            r@ == model_id_of(*self),
    {
        proof {
            reveal_strlit("gpt-3.5-turbo");
            reveal_strlit("gpt-3.5-turbo-16k");
            reveal_strlit("gpt-4");
        }
        match self {
            Model::Gpt35Turbo => "gpt-3.5-turbo",
            Model::Gpt35Turbo16K => "gpt-3.5-turbo-16k",
            Model::Gpt4 => "gpt-4",
            Model::Custom(model) => model.as_str(),
        }
    }

    /// The model an identifier names: a known model by its identifier,
    /// anything else as a custom model.
    pub fn from_str(s: &str) -> (r: Model)
        ensures
            model_id_of(r) == s@,
            r is Custom ==> s@ != "gpt-3.5-turbo"@ && s@ != "gpt-3.5-turbo-16k"@ && s@ != "gpt-4"@,
    {
        if same_text(s, "gpt-3.5-turbo") {
            Model::Gpt35Turbo
        } else if same_text(s, "gpt-3.5-turbo-16k") {
            Model::Gpt35Turbo16K
        } else if same_text(s, "gpt-4") {
            Model::Gpt4
        } else {
            Model::Custom(s.to_owned())
        }
    }
}

/// Arguments of a completion request.
pub struct OpenAIArgs {
    pub model: Model,
    pub max_tokens: u16,
}

impl Default for OpenAIArgs {
    fn default() -> (r: OpenAIArgs)
        ensures
            r.model == Model::Gpt35Turbo,
            r.max_tokens == 256,
    {
        OpenAIArgs { model: Model::Gpt35Turbo, max_tokens: 256 }
    }
}

/// How to reach the API and which model to use.
pub struct OpenAIConfig {
    pub api_key: String,
    pub api_base: String,
    pub model: Model,
}

/// A client of the OpenAI chat backend.
pub struct OpenAIClient {
    config: OpenAIConfig,
}

impl OpenAIClient {
    /// A client with the given configuration.
    pub fn with_config(config: OpenAIConfig) -> (c: OpenAIClient)
        ensures
            c.config() == config,
    {
        OpenAIClient { config }
    }

    /// The client's configuration.
    pub closed spec fn config(&self) -> OpenAIConfig {
        self.config
    }
}

} // verus!

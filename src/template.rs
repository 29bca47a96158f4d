//! Prompt templates and what they are rendered with.

use vstd::prelude::*;

verus! {

/// What a prompt template is rendered with: the main user input.
pub struct TemplateContext {
    pub input: String,
}

/// Why a template could not be rendered.
#[derive(Debug, Clone, PartialEq, Eq)]
pub enum TemplateError {
    ValidationError(String),
    RenderError(String),
}

/// A prompt template of the assistant.
pub struct Template {
    pub id: String,
    pub prompt: String,
    pub label: String,
    pub model: Option<String>,
}

/// The templates of a template file.
pub struct Templates {
    pub templates: Vec<Template>,
}

} // verus!

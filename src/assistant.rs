//! Errors, settings and tool events of the assistant server.

use vstd::prelude::*;
use crate::provider::CompletionError;
use crate::text::{chars_of, last_index_exec, last_index_of, push_str, string_of_range};

verus! {

/// An error the assistant server reports to its clients.
#[derive(Debug, Clone, PartialEq, Eq)]
pub enum LlmError {
    InvalidInput(String),
    UnhandledError(String),
}

/// The short name of an error's kind.
pub open spec fn error_name(e: LlmError) -> Seq<char> {
    match e {
        LlmError::InvalidInput(_) => "Invalid input"@,
        LlmError::UnhandledError(_) => "Unhandled error"@,
    }
}

/// How a failed completion is reported: whether the client is at fault
/// (a bad argument) and the message; an API error's message carries the
/// provider's name.
pub open spec fn completion_error_report(e: CompletionError) -> (bool, Seq<char>) {
    match e {
        CompletionError::InvalidArgument(m) => (true, m@),
        CompletionError::ApiError(provider, m) => (false, provider@ + " API error: "@ + m@),
        CompletionError::StreamError(m) => (false, m@),
        CompletionError::InvalidResponse(m) => (false, m@),
        CompletionError::UnknownError(m) => (false, m@),
    }
}

impl LlmError {
    /// The short name of the error's kind.
    pub fn name(&self) -> (r: String)
        ensures
            r@ == error_name(*self),
    {
        match self {
            LlmError::InvalidInput(_) => "Invalid input".to_owned(),
            LlmError::UnhandledError(_) => "Unhandled error".to_owned(),
        }
    }

    /// The error a failed completion is reported as.
    pub fn from_completion_error(err: CompletionError) -> (r: LlmError)
        ensures
            match r {
                LlmError::InvalidInput(m) => completion_error_report(err) == (true, m@),
                LlmError::UnhandledError(m) => completion_error_report(err) == (false, m@),
            },
    {
        match err {
            CompletionError::InvalidArgument(m) => LlmError::InvalidInput(m),
            CompletionError::ApiError(provider, m) => {
                let mut msg = provider;
                push_str(&mut msg, " API error: ");
                push_str(&mut msg, m.as_str());
                LlmError::UnhandledError(msg)
            },
            CompletionError::StreamError(m) => LlmError::UnhandledError(m),
            CompletionError::InvalidResponse(m) => LlmError::UnhandledError(m),
            CompletionError::UnknownError(m) => LlmError::UnhandledError(m),
        }
    }
}

/// Keys and file locations of the assistant.
#[derive(Debug, PartialEq, Eq, Clone)]
pub struct Config {
    pub openai_api_key: String,
    pub anthropic_api_key: String,
    pub readwise_api_key: String,
    pub persona_file: String,
    pub template_dir: String,
}

/// Progress of a tool that is working.
pub struct WorkingEvent {
    pub label: String,
}

/// A tool's failure.
pub struct ErrorEvent {
    pub label: String,
    pub error: Option<String>,
}

/// A partial result of a tool.
pub struct IntermediateOutput {
    pub content: String,
    pub label: String,
}

/// The final result of a tool.
pub struct OutputEvent {
    pub content: String,
}

/// What is known of a finished tool run.
pub struct ToolUseMetadata {}

/// An event of a tool run.
pub enum ToolUseEvent {
    Working(WorkingEvent),
    Error(ErrorEvent),
    IntermediateOutput(IntermediateOutput),
    Output(OutputEvent),
    Finished(ToolUseMetadata),
}

/// Where a path named in the settings file points: an absolute path as it
/// is, a relative one taken from the folder of the settings file.
pub open spec fn settings_path(config_path: Seq<char>, path: Seq<char>) -> Seq<char> {
    if path.len() > 0 && path[0] == '/' {
        path
    } else {
        config_path.subrange(0, last_index_of(config_path, '/', config_path.len() as int) + 1) + path
    }
}

/// Resolves a path named in the settings file against the file's folder.
pub fn load_config_path(config_path: &str, path_str: &str) -> (r: String)
    ensures
        r@ == settings_path(config_path@, path_str@),
{
    let p = chars_of(path_str);
    if p.len() > 0 && p[0] == '/' {
        return path_str.to_owned();
    }
    let c = chars_of(config_path);
    let end = match last_index_exec(&c, '/') {
        Some(k) => k + 1,
        None => 0,
    };
    let mut r = string_of_range(&c, 0, end);
    push_str(&mut r, path_str);
    r
}

} // verus!

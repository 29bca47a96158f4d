use embeddings::assistant::{load_config_path, LlmError};
use embeddings::conversation::{with_system, with_user, Conversation, Message, Role};
use embeddings::document::{Location, ReadwiseClient};
use embeddings::provider::openai::{Model, OpenAIClient, OpenAIConfig};
use embeddings::provider::CompletionError;

#[test]
fn conversation_starts_with_user_prompt() {
    let mut c = Conversation::new("hi".to_string());
    assert_eq!(c.messages.len(), 1);
    assert_eq!(c.messages[0].role, Role::User);
    c.add_message(Message { content: "hello".to_string(), role: Role::Assistant });
    assert_eq!(c.messages.len(), 2);
    assert_eq!(c.messages[1].content, "hello");
}

#[test]
fn prompt_builders() {
    let u = with_user("q".to_string());
    assert_eq!(u.messages.len(), 1);
    let s = with_system("q".to_string(), "sys".to_string());
    assert_eq!(s.messages.len(), 2);
    assert_eq!(s.messages[0].role, Role::User);
    assert_eq!(s.messages[1].role, Role::System);
    assert_eq!(s.messages[1].content, "sys");
}

#[test]
fn openai_model_ids() {
    assert_eq!(Model::Gpt35Turbo.model_id(), "gpt-3.5-turbo");
    assert_eq!(Model::Gpt35Turbo16K.model_id(), "gpt-3.5-turbo-16k");
    assert_eq!(Model::Gpt4.model_id(), "gpt-4");
    assert_eq!(Model::Custom("m".to_string()).model_id(), "m");
    let _client = OpenAIClient::with_config(OpenAIConfig {
        api_key: String::new(),
        api_base: "https://api.openai.com/v1".to_string(),
        model: Model::Gpt4,
    });
}

#[test]
fn error_names_and_reports() {
    assert_eq!(LlmError::InvalidInput("x".to_string()).name(), "Invalid input");
    assert_eq!(LlmError::UnhandledError("x".to_string()).name(), "Unhandled error");
    assert_eq!(
        LlmError::from_completion_error(CompletionError::InvalidArgument("bad".to_string())),
        LlmError::InvalidInput("bad".to_string())
    );
    assert_eq!(
        LlmError::from_completion_error(CompletionError::ApiError("OpenAI".to_string(), "down".to_string())),
        LlmError::UnhandledError("OpenAI API error: down".to_string())
    );
    assert_eq!(
        LlmError::from_completion_error(CompletionError::StreamError("cut".to_string())),
        LlmError::UnhandledError("cut".to_string())
    );
}

#[test]
fn reading_list_locations_and_client() {
    assert_eq!(Location::Later.as_str(), "later");
    assert_eq!(Location::Shortlist.as_str(), "shortlist");
    let c = ReadwiseClient::new("SECRET-REDACTED".to_string());
    assert_eq!(c.token_str(), "SECRET-REDACTED");
}

#[test]
fn settings_paths_resolve_against_settings_folder() {
    assert_eq!(load_config_path("/home/u/.config/llm/config.ini", "persona.md"), "/home/u/.config/llm/persona.md");
    assert_eq!(load_config_path("/home/u/.config/llm/config.ini", "/etc/persona.md"), "/etc/persona.md");
    assert_eq!(load_config_path("config.ini", "templates"), "templates");
}

#[test]
fn openai_model_from_identifier() {
    assert_eq!(Model::from_str("gpt-4"), Model::Gpt4);
    assert_eq!(Model::from_str("gpt-3.5-turbo-16k"), Model::Gpt35Turbo16K);
    assert_eq!(Model::from_str("gpt-5-mini"), Model::Custom("gpt-5-mini".to_string()));
    let args = embeddings::provider::openai::OpenAIArgs::default();
    assert_eq!(args.max_tokens, 256);
    assert_eq!(args.model, Model::Gpt35Turbo);
}

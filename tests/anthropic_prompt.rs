use embeddings::conversation::{Message, Role};
use embeddings::provider::anthropic::make_prompt;

#[test]
fn test_make_prompt_basic() {
    let messages: Vec<Message> = vec![Message { role: Role::User, content: "Tell me a joke".to_string() }];
    let expected_output =
        format!("{}Tell me a joke{}", anthropic::HUMAN_PROMPT, anthropic::AI_PROMPT,);
    assert_eq!(make_prompt(messages), expected_output);
}

#[test]
fn test_make_prompt_empty() {
    let messages: Vec<Message> = vec![];
    assert_eq!(make_prompt(messages), "");
}

#[test]
fn test_make_prompt_conversation() {
    let messages: Vec<Message> = vec![
        Message { role: Role::User, content: "Tell me a joke".to_string() },
        Message {
            role: Role::Assistant,
            content: "Here's a silly joke for you:\n\nWhy was the math book sad? Because it had too many problems!".to_string(),
        },
        Message { role: Role::User, content: "Tell me another".to_string() },
    ];
    let expected_output = format!(
        "{}{}{}{}{}{}{}",
        anthropic::HUMAN_PROMPT,
        "Tell me a joke",
        anthropic::AI_PROMPT,
        "Here's a silly joke for you:\n\nWhy was the math book sad? Because it had too many problems!",
        anthropic::HUMAN_PROMPT,
        "Tell me another",
        anthropic::AI_PROMPT,
    );
    assert_eq!(make_prompt(messages), expected_output);
}

#[test]
fn test_make_system_prompt() {
    let messages: Vec<Message> = vec![
        Message { role: Role::System, content: "You are a helpful assistant.".to_string() },
        Message { role: Role::User, content: "Tell me a joke".to_string() },
    ];
    let expected_output = format!(
        "{}{}{}{}",
        "You are a helpful assistant.",
        anthropic::HUMAN_PROMPT,
        "Tell me a joke",
        anthropic::AI_PROMPT,
    );
    assert_eq!(make_prompt(messages), expected_output);
}

#[test]
fn prompt_markers_are_the_api_markers() {
    let messages = vec![Message { role: Role::User, content: "hi".to_string() }];
    assert_eq!(make_prompt(messages), "\n\nHuman:hi\n\nAssistant:");
}

//! Conversations with a language model: the messages exchanged, in order.

use vstd::prelude::*;

verus! {

/// Who wrote a message.
#[derive(Debug, Clone, Copy, PartialEq, Eq, Structural)]
pub enum Role {
    System,
    User,
    Assistant,
}

/// One message of a conversation.
pub struct Message {
    pub content: String,
    pub role: Role,
}

/// The messages of a conversation, oldest first.
pub struct Conversation {
    pub messages: Vec<Message>,
}

impl Conversation {
    /// A conversation that starts with a user prompt.
    pub fn new(user_prompt: String) -> (c: Conversation)
        ensures
            c.messages@.len() == 1,
            c.messages@[0].content@ == user_prompt@,
            c.messages@[0].role == Role::User,
    {
        Conversation { messages: vec![Message { content: user_prompt, role: Role::User }] }
    }

    /// Appends a message.
    pub fn add_message(&mut self, message: Message)
        ensures
            final(self).messages@ == old(self).messages@.push(message),
    {
        self.messages.push(message);
    }
}

/// A conversation holding only a user prompt.
pub fn with_user(user_prompt: String) -> (c: Conversation)
    ensures
        c.messages@.len() == 1,
        c.messages@[0].content@ == user_prompt@,
        c.messages@[0].role == Role::User,
{
    Conversation { messages: vec![Message { content: user_prompt, role: Role::User }] }
}

/// A conversation holding a user prompt followed by a system prompt.
pub fn with_system(user_prompt: String, system_prompt: String) -> (c: Conversation)
    ensures
        c.messages@.len() == 2,
        c.messages@[0].content@ == user_prompt@,
        c.messages@[0].role == Role::User,
        c.messages@[1].content@ == system_prompt@,
        c.messages@[1].role == Role::System,
{
    Conversation {
        messages: vec![
            Message { content: user_prompt, role: Role::User },
            Message { content: system_prompt, role: Role::System },
        ],
    }
}

} // verus!

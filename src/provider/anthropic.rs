//! Configuration of the Anthropic backend and the prompt format it takes.

use vstd::prelude::*;
use crate::conversation::{Message, Role};
use crate::text::push_str;

verus! {

/// The API key and the model to use.
pub struct AnthropicConfig {
    pub api_key: String,
    /// The identifier of the model, as the API knows it.
    pub model: String,
}

/// A client of the Anthropic backend.
pub struct AnthropicClient {
    config: AnthropicConfig,
}

impl AnthropicClient {
    /// A client with the given configuration.
    pub fn with_config(config: AnthropicConfig) -> (c: AnthropicClient)
        ensures
            c.config() == config,
    {
        AnthropicClient { config }
    }

    /// The client's configuration.
    pub closed spec fn config(&self) -> AnthropicConfig {
        self.config
    }
}

/// Relies on `anthropic::HUMAN_PROMPT`, the marker that opens a user turn.
#[verifier::external_body]
fn human_prompt() -> (r: &'static str)
    ensures
        r@ == "\n\nHuman:"@,
{
    anthropic::HUMAN_PROMPT
}

/// Relies on `anthropic::AI_PROMPT`, the marker that opens an assistant turn.
#[verifier::external_body]
fn ai_prompt() -> (r: &'static str)
    ensures
        r@ == "\n\nAssistant:"@,
{
    anthropic::AI_PROMPT
}

/// The marker put before a message of the given role.
pub open spec fn turn_prefix(role: Role) -> Seq<char> {
    match role {
        Role::System => Seq::empty(),
        Role::User => "\n\nHuman:"@,
        Role::Assistant => "\n\nAssistant:"@,
    }
}

/// The messages, each after the marker of its role.
pub open spec fn turns(messages: Seq<Message>) -> Seq<char>
    decreases messages.len(),
{
    if messages.len() == 0 {
        Seq::empty()
    } else {
        turns(messages.drop_last()) + turn_prefix(messages.last().role) + messages.last().content@
    }
}

/// The prompt for a conversation: its turns, then the marker that asks the
/// model to answer; nothing at all for an empty conversation.
pub open spec fn prompt_text(messages: Seq<Message>) -> Seq<char> {
    if messages.len() == 0 {
        Seq::empty()
    } else {
        turns(messages) + "\n\nAssistant:"@
    }
}

/// Renders a conversation in the prompt format of the Anthropic API.
pub fn make_prompt(messages: Vec<Message>) -> (r: String)
    ensures
        r@ == prompt_text(messages@),
{
    let mut r = String::new();
    let mut i: usize = 0;
    while i < messages.len()
        invariant
            i <= messages@.len(),
            r@ == turns(messages@.take(i as int)),
        decreases messages.len() - i,
    {
        assert(messages@.take(i + 1).drop_last() =~= messages@.take(i as int));
        assert(messages@.take(i + 1).last() == messages@[i as int]);
        match messages[i].role {
            Role::System => {},
            Role::User => push_str(&mut r, human_prompt()),
            Role::Assistant => push_str(&mut r, ai_prompt()),
        }
        push_str(&mut r, messages[i].content.as_str());
        assert(r@ =~= turns(messages@.take(i + 1)));
        i += 1;
    }
    assert(messages@.take(messages@.len() as int) =~= messages@);
    if messages.len() > 0 {
        push_str(&mut r, ai_prompt());
    }
    r
}

} // verus!

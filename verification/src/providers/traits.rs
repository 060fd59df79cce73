//! Messages between an agent and a model.

use vstd::prelude::*;

verus! {

/// A single message in a conversation.
#[derive(Debug)]
pub struct ChatMessage {
    pub role: String,
    pub content: String,
}

/// What a message says.
#[verifier::ext_equal]
pub struct MessageView {
    pub role: Seq<char>,
    pub content: Seq<char>,
}

impl View for ChatMessage {
    type V = MessageView;

    open spec fn view(&self) -> MessageView {
        MessageView { role: self.role@, content: self.content@ }
    }
}

/// What messages say.
pub open spec fn message_views(messages: Seq<ChatMessage>) -> Seq<MessageView> {
    messages.map_values(|m: ChatMessage| m@)
}

impl Clone for ChatMessage {
    fn clone(&self) -> (r: Self)
        ensures
            r == *self,
    {
        ChatMessage { role: self.role.clone(), content: self.content.clone() }
    }
}

impl ChatMessage {
    pub fn system(content: &str) -> (r: Self)
        ensures
            r@ == (MessageView { role: "system"@, content: content@ }),
    {
        ChatMessage { role: "system".to_string(), content: content.to_string() }
    }

    pub fn user(content: &str) -> (r: Self)
        ensures
            r@ == (MessageView { role: "user"@, content: content@ }),
    {
        ChatMessage { role: "user".to_string(), content: content.to_string() }
    }

    pub fn assistant(content: &str) -> (r: Self)
        ensures
            r@ == (MessageView { role: "assistant"@, content: content@ }),
    {
        ChatMessage { role: "assistant".to_string(), content: content.to_string() }
    }

    pub fn tool(content: String) -> (r: Self)
        ensures
            r@ == (MessageView { role: "tool"@, content: content@ }),
    {
        ChatMessage { role: "tool".to_string(), content }
    }
}

/// A copy of messages.
pub fn copied_messages(messages: &[ChatMessage]) -> (r: Vec<ChatMessage>)
    ensures
        r@ == messages@,
{
    let mut r: Vec<ChatMessage> = Vec::new();
    for i in 0..messages.len()
        invariant
            r@ == messages@.take(i as int),
    {
        r.push(messages[i].clone());
        proof {
            assert(messages@.take(i + 1) =~= messages@.take(i as int).push(messages@[i as int]));
        }
    }
    proof {
        assert(messages@.take(messages@.len() as int) =~= messages@);
    }
    r
}

/// A tool call that a model asks for.
#[derive(Debug, Clone)]
pub struct ToolCall {
    pub id: String,
    pub name: String,
    pub arguments: String,
}

/// What a provider reports on the tokens of one answer.
#[derive(Debug, Clone)]
pub struct TokenUsage {
    pub input_tokens: Option<u64>,
    pub output_tokens: Option<u64>,
}

/// The answer of a model.
#[derive(Debug, Clone)]
pub struct ChatResponse {
    pub text: Option<String>,
    pub tool_calls: Vec<ToolCall>,
    pub usage: Option<TokenUsage>,
    pub reasoning_content: Option<String>,
}

} // verus!

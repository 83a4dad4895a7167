//! The replies of the chat model that steers the bot, as plain data.

use vstd::prelude::*;

verus! {

/// Who wrote a message of a chat.
#[derive(Debug, Clone, Copy, PartialEq, Eq, Structural, PartialOrd, Ord)]
pub enum Role {
    System,
    Assistant,
    User,
    Function,
}

/// A message of a chat: who wrote it, and what it says.
#[derive(Debug, Clone, PartialEq, PartialOrd)]
pub struct ChatMessage {
    pub role: Role,
    pub content: String,
}

/// The tokens that a request has used.
#[derive(Debug, Clone, PartialEq, PartialOrd)]
pub struct TokenUsage {
    pub prompt_tokens: u32,
    pub completion_tokens: u32,
    pub total_tokens: u32,
}

/// One of the replies that the model offers to a request.
#[derive(Debug, Clone, PartialEq, PartialOrd)]
pub struct MessageChoice {
    pub message: ChatMessage,
    pub finish_reason: String,
    pub index: u32,
}

/// The answer to a completion request.
#[derive(Debug, Clone, PartialEq, PartialOrd)]
pub struct CompletionResponse {
    pub message_id: Option<String>,
    pub created_timestamp: Option<u64>,
    pub model: String,
    pub usage: TokenUsage,
    pub message_choices: Vec<MessageChoice>,
}

/// Why the server refused a request.
#[derive(Debug, Clone, PartialEq, PartialOrd)]
pub struct CompletionError {
    pub message: String,
    pub error_type: String,
}

/// What the server sends back: an error or a completion.
#[derive(Debug, Clone, PartialEq, PartialOrd)]
pub enum ServerResponse {
    Error { error: CompletionError },
    Completion(CompletionResponse),
}

impl CompletionResponse {
    /// The message of the first choice.
    pub fn message(&self) -> (first: &ChatMessage)
        requires
            self.message_choices@.len() > 0,
        ensures
            *first == self.message_choices@[0].message,
    {
        &self.message_choices[0].message
    }
}

} // verus!

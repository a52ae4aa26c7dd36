//! xAI chat completions: messages, the response's usage counts, the endpoint.

use vstd::prelude::*;
use vstd::string::*;

verus! {

/// One chat message: who speaks, and what is said.
#[derive(Debug, Clone)]
pub struct ChatMessage {
    pub role: String,
    pub content: String,
}

impl ChatMessage {
    /// A system message saying `content`.
    pub fn system(content: String) -> (r: ChatMessage)
        ensures
            r.role@ == "system"@,
            r.content@ == content@,
    {
        ChatMessage { role: String::from_str("system"), content }
    }

    /// A user message saying `content`.
    pub fn user(content: String) -> (r: ChatMessage)
        ensures
            r.role@ == "user"@,
            r.content@ == content@,
    {
        ChatMessage { role: String::from_str("user"), content }
    }
}

/// A chat completion: the choices and what the request cost.
#[derive(Debug)]
pub struct ChatResponse {
    pub choices: Vec<Choice>,
    pub usage: Usage,
}

/// One answer of a chat completion.
#[derive(Debug)]
pub struct Choice {
    pub message: ChatMessage,
}

/// Token counts of one request.
#[derive(Debug, Clone, Copy)]
pub struct Usage {
    pub prompt_tokens: u64,
    pub completion_tokens: u64,
    pub prompt_tokens_details: PromptTokensDetails,
}

/// How many prompt tokens came from the cache.
#[derive(Debug, Clone, Copy)]
pub struct PromptTokensDetails {
    pub cached_tokens: u64,
}

/// The chat completions endpoint under the API base `base_url`.
pub fn chat_url(base_url: &str) -> (r: String)
    ensures
        r@ == base_url@ + "/chat/completions"@,
{
    let mut r = String::from_str(base_url);
    r.append("/chat/completions");
    r
}

} // verus!

//! Token estimation, and the requests to and answers of the summarization oracle.

use crate::error::OracleError;
use crate::segment::{replay_tokens, spec_replay_tokens};
use crate::text::chars_of;
use vstd::prelude::*;

verus! {

/// How many characters are counted as one token.
pub const CHARS_PER_TOKEN: usize = 4;

/// The largest answer, in tokens, that the oracle is asked for.
pub const MAX_ANSWER_TOKENS: u32 = 4096;

/// The estimated token count of a text: its number of characters divided by
/// [`CHARS_PER_TOKEN`], rounded down.
pub open spec fn spec_estimate_tokens(text: Seq<char>) -> nat {
    text.len() / (CHARS_PER_TOKEN as nat)
}

/// Estimates how many tokens `text` holds.
pub fn estimate_tokens(text: &str) -> (tokens: usize)
    ensures
        tokens as nat == spec_estimate_tokens(text@),
{
    text.unicode_len() / CHARS_PER_TOKEN
}

/// Recovers the token count of a segment from the text of its file: the sum,
/// over the file's lines, of the estimate for the message text in each.
pub fn estimate_token_count(contents: &str) -> (tokens: usize)
    ensures
        tokens as nat == spec_replay_tokens(contents@),
{
    let chars = chars_of(contents);
    replay_tokens(&chars)
}

/// One message of a request to the oracle.
#[derive(Debug, PartialEq, Eq)]
pub struct RequestMessage {
    pub role: String,
    pub content: String,
}

/// A request to the oracle.
#[derive(Debug, PartialEq, Eq)]
pub struct ChatCompletionRequest {
    pub model: String,
    pub messages: Vec<RequestMessage>,
    pub max_tokens: u32,
}

/// The model that is asked.
pub open spec fn model_name() -> Seq<char> {
    "gpt-4"@
}

/// The instruction that precedes every text.
pub open spec fn system_instruction() -> Seq<char> {
    "You are a summarizer of large amount of content for a technical team. Summarize the following thoroughly:"@
}

/// Builds the request that asks the oracle to summarize `text`: the fixed
/// instruction as the system's message, then `text` as the user's.
pub fn summary_request(text: &str) -> (request: ChatCompletionRequest)
    ensures
        request.model@ == model_name(),
        request.max_tokens == MAX_ANSWER_TOKENS,
        request.messages@.len() == 2,
        request.messages@[0].role@ == "system"@,
        request.messages@[0].content@ == system_instruction(),
        request.messages@[1].role@ == "user"@,
        request.messages@[1].content@ == text@,
{
    let mut messages: Vec<RequestMessage> = Vec::new();
    messages.push(
        RequestMessage {
            role: String::from_str("system"),
            content: String::from_str(
                "You are a summarizer of large amount of content for a technical team. Summarize the following thoroughly:",
            ),
        },
    );
    messages.push(RequestMessage { role: String::from_str("user"), content: String::from_str(text) });
    ChatCompletionRequest {
        model: String::from_str("gpt-4"),
        messages,
        max_tokens: MAX_ANSWER_TOKENS,
    }
}

/// The oracle's answer.
#[derive(Debug)]
pub struct ChatCompletionResponse {
    pub choices: Vec<Choice>,
}

/// One of the answers that the oracle offers.
#[derive(Debug)]
pub struct Choice {
    pub message: GptMessage,
}

/// The message of one answer.
#[derive(Debug)]
pub struct GptMessage {
    pub content: String,
}

impl ChatCompletionResponse {
    /// The summary that the answer holds: the text of its first choice. An
    /// answer without any choice is a failure of the oracle.
    pub fn summary(&self) -> (r: Result<String, OracleError>)
        ensures
            self.choices@.len() > 0 ==> r == Ok::<String, OracleError>(
                self.choices@[0].message.content,
            ),
            self.choices@.len() == 0 ==> (r matches Err(e) && e.message@
                == "the answer holds no choice"@),
    {
        if self.choices.len() > 0 {
            Ok(self.choices[0].message.content.clone())
        } else {
            Err(OracleError { message: String::from_str("the answer holds no choice") })
        }
    }
}

} // verus!

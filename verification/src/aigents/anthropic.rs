//! The Anthropic aigent: requests to the Messages API.

use vstd::prelude::*;
use vstd::string::StringExecFns;
use crate::aigents::{AigentCapability, Message, Role};

verus! {

/// AI model agent on the Anthropic Messages API.
pub struct ClaudeAigent {
    /// The model identifier.
    model: String,
    /// The API key; empty where none is configured.
    api_key: String,
}

/// A message of a Messages API request.
#[derive(Debug, Clone, PartialEq, Eq)]
pub struct AnthropicMessage {
    pub role: String,
    pub content: String,
}

/// A Messages API request.
#[derive(Debug, Clone, PartialEq, Eq)]
pub struct AnthropicRequest {
    pub model: String,
    pub max_tokens: u32,
    pub messages: Vec<AnthropicMessage>,
}

/// The API role of a message: the Messages API knows no system role in the
/// conversation, so system messages are sent as the user's.
pub open spec fn anthropic_role_text(role: Role) -> Seq<char> {
    match role {
        Role::Assistant => "assistant"@,
        Role::User => "user"@,
        Role::System => "user"@,
    }
}

/// The API role of a message.
pub fn anthropic_role(role: Role) -> (r: &'static str)
    ensures
        r@ == anthropic_role_text(role),
{
    match role {
        Role::Assistant => "assistant",
        Role::User => "user",
        Role::System => "user",
    }
}

/// The message that a reply without content yields.
pub open spec fn no_content_message() -> Seq<char> {
    "No content in response"@
}

impl ClaudeAigent {
    /// The API key in use.
    pub closed spec fn spec_api_key(&self) -> Seq<char> {
        self.api_key@
    }

    /// The model in use.
    pub closed spec fn spec_model(&self) -> Seq<char> {
        self.model@
    }

    /// An agent for `model`, authenticated by the value of
    /// `ANTHROPIC_API_KEY` (`None` where it is unset, and then with an empty
    /// key).
    pub fn new(model: &str, env_api_key: Option<String>) -> (a: ClaudeAigent)
        ensures
            a.spec_model() == model@,
            a.spec_api_key() == match env_api_key {
                Some(k) => k@,
                None => Seq::<char>::empty(),
            },
    {
        let api_key = match env_api_key {
            Some(k) => k,
            None => String::new(),
        };
        ClaudeAigent { model: model.to_owned(), api_key }
    }

    /// Where requests are sent.
    pub fn endpoint() -> (r: &'static str)
        ensures
            r@ == "https://api.anthropic.com/v1/messages"@,
    {
        "https://api.anthropic.com/v1/messages"
    }

    /// The headers of a request: the API key, the API version and the JSON
    /// content type.
    pub fn headers(&self) -> (r: Vec<(String, String)>)
        ensures
            r@.len() == 3,
            r@[0].0@ == "x-api-key"@ && r@[0].1@ == self.spec_api_key(),
            r@[1].0@ == "anthropic-version"@ && r@[1].1@ == "2023-06-01"@,
            r@[2].0@ == "content-type"@ && r@[2].1@ == "application/json"@,
    {
        vec![
            ("x-api-key".to_owned(), self.api_key.clone()),
            ("anthropic-version".to_owned(), "2023-06-01".to_owned()),
            ("content-type".to_owned(), "application/json".to_owned()),
        ]
    }

    /// The request that asks the model to answer `messages`, with at most
    /// 1024 tokens.
    pub fn request(&self, messages: &[Message]) -> (r: AnthropicRequest)
        ensures
            r.model@ == self.spec_model(),
            r.max_tokens == 1024,
            r.messages@.len() == messages@.len(),
            forall|i: int|
                0 <= i < messages@.len() ==> (#[trigger] r.messages@[i]).role@ == anthropic_role_text(
                    messages@[i].role,
                ) && r.messages@[i].content@ == messages@[i].content@,
    {
        let mut out: Vec<AnthropicMessage> = Vec::new();
        let mut i: usize = 0;
        while i < messages.len()
            invariant
                i <= messages@.len(),
                out@.len() == i,
                forall|k: int|
                    0 <= k < i ==> (#[trigger] out@[k]).role@ == anthropic_role_text(messages@[k].role)
                        && out@[k].content@ == messages@[k].content@,
            decreases messages@.len() - i,
        {
            out.push(
                AnthropicMessage {
                    role: anthropic_role(messages[i].role).to_owned(),
                    content: messages[i].content.clone(),
                },
            );
            i = i + 1;
        }
        AnthropicRequest { model: self.model.clone(), max_tokens: 1024, messages: out }
    }

    /// The answer of a reply whose content blocks hold `texts`: the first
    /// one.
    pub fn answer(texts: &[String]) -> (r: Result<String, String>)
        ensures
            texts@.len() > 0 ==> (r matches Ok(t) && t@ == texts@[0]@),
            texts@.len() == 0 ==> (r matches Err(m) && m@ == no_content_message()),
    {
        if texts.len() > 0 {
            Ok(texts[0].clone())
        } else {
            Err("No content in response".to_owned())
        }
    }
}

impl ClaudeAigent {
    /// The model identifier.
    pub fn model_id(&self) -> (r: &str)
        ensures
            r@ == self.spec_model(),
    {
        self.model.as_str()
    }

    /// The capabilities of this agent.
    pub fn capabilities(&self) -> (r: AigentCapability)
        ensures
            r.spec_bits() == 1,
    {
        AigentCapability::STREAMING()
    }
}

} // verus!

//! The Codex aigent: requests to OpenAI-compatible chat completion APIs
//! (OpenAI, Azure OpenAI, local Ollama endpoints).

use vstd::prelude::*;
use vstd::string::StringExecFns;
use crate::aigents::{AigentCapability, Message, Role};

verus! {

/// OpenAI-compatible AI model agent.
pub struct CodexAigent {
    /// The model used for generation.
    pub model: String,
    /// The API key; empty where none is configured.
    pub api_key: String,
    /// The base URL of the API.
    pub base_url: String,
}

/// A message of a chat completion request.
#[derive(Debug, Clone, PartialEq, Eq)]
pub struct OpenAiMessage {
    pub role: String,
    pub content: String,
}

/// A chat completion request.
#[derive(Debug, Clone, PartialEq, Eq)]
pub struct OpenAiRequest {
    pub model: String,
    pub messages: Vec<OpenAiMessage>,
}

/// The API role of a message.
pub open spec fn openai_role_text(role: Role) -> Seq<char> {
    match role {
        Role::User => "user"@,
        Role::Assistant => "assistant"@,
        Role::System => "system"@,
    }
}

/// The API role of a message.
pub fn openai_role(role: Role) -> (r: &'static str)
    ensures
        r@ == openai_role_text(role),
{
    match role {
        Role::User => "user",
        Role::Assistant => "assistant",
        Role::System => "system",
    }
}

/// The key given by the value of `OPENAI_API_KEY` (`None` where unset).
pub open spec fn key_text(env_api_key: Option<String>) -> Seq<char> {
    match env_api_key {
        Some(k) => k@,
        None => Seq::<char>::empty(),
    }
}

/// The message that a reply without choices yields.
pub open spec fn no_choices_message() -> Seq<char> {
    "No choices in response"@
}

impl CodexAigent {
    /// An agent for `model` on OpenAI's API, authenticated by the value of
    /// `OPENAI_API_KEY` (`None` where it is unset, and then with an empty
    /// key).
    pub fn new(model: &str, env_api_key: Option<String>) -> (a: CodexAigent)
        ensures
            a.model@ == model@,
            a.api_key@ == key_text(env_api_key),
            a.base_url@ == "https://api.openai.com/v1"@,
    {
        let api_key = match env_api_key {
            Some(k) => k,
            None => String::new(),
        };
        CodexAigent { model: model.to_owned(), api_key, base_url: "https://api.openai.com/v1".to_owned() }
    }

    /// An agent for `model` on the OpenAI-compatible API at `base_url`.
    pub fn with_base_url(model: &str, base_url: &str, env_api_key: Option<String>) -> (a: CodexAigent)
        ensures
            a.model@ == model@,
            a.api_key@ == key_text(env_api_key),
            a.base_url@ == base_url@,
    {
        let api_key = match env_api_key {
            Some(k) => k,
            None => String::new(),
        };
        CodexAigent { model: model.to_owned(), api_key, base_url: base_url.to_owned() }
    }

    /// Where requests are sent: the base URL and `/chat/completions`.
    pub fn completions_url(&self) -> (r: String)
        ensures
            r@ == self.base_url@ + "/chat/completions"@,
    {
        let mut url = self.base_url.clone();
        url.append("/chat/completions");
        url
    }

    /// The headers of a request: the bearer token and the JSON content type.
    pub fn headers(&self) -> (r: Vec<(String, String)>)
        ensures
            r@.len() == 2,
            r@[0].0@ == "Authorization"@ && r@[0].1@ == "Bearer "@ + self.api_key@,
            r@[1].0@ == "Content-Type"@ && r@[1].1@ == "application/json"@,
    {
        let mut bearer = String::from_str("Bearer ");
        bearer.append(self.api_key.as_str());
        vec![
            ("Authorization".to_owned(), bearer),
            ("Content-Type".to_owned(), "application/json".to_owned()),
        ]
    }

    /// The request that asks the model to answer `messages`.
    pub fn request(&self, messages: &[Message]) -> (r: OpenAiRequest)
        ensures
            r.model@ == self.model@,
            r.messages@.len() == messages@.len(),
            forall|i: int|
                0 <= i < messages@.len() ==> (#[trigger] r.messages@[i]).role@ == openai_role_text(
                    messages@[i].role,
                ) && r.messages@[i].content@ == messages@[i].content@,
    {
        let mut out: Vec<OpenAiMessage> = Vec::new();
        let mut i: usize = 0;
        while i < messages.len()
            invariant
                i <= messages@.len(),
                out@.len() == i,
                forall|k: int|
                    0 <= k < i ==> (#[trigger] out@[k]).role@ == openai_role_text(messages@[k].role)
                        && out@[k].content@ == messages@[k].content@,
            decreases messages@.len() - i,
        {
            out.push(
                OpenAiMessage {
                    role: openai_role(messages[i].role).to_owned(),
                    content: messages[i].content.clone(),
                },
            );
            i = i + 1;
        }
        OpenAiRequest { model: self.model.clone(), messages: out }
    }

    /// The answer of a reply whose choices hold the message contents
    /// `contents`: the first one.
    pub fn answer(contents: &[String]) -> (r: Result<String, String>)
        ensures
            contents@.len() > 0 ==> (r matches Ok(t) && t@ == contents@[0]@),
            contents@.len() == 0 ==> (r matches Err(m) && m@ == no_choices_message()),
    {
        if contents.len() > 0 {
            Ok(contents[0].clone())
        } else {
            Err("No choices in response".to_owned())
        }
    }
}

impl CodexAigent {
    /// The model identifier.
    pub fn model_id(&self) -> (r: &str)
        ensures
            r@ == "codex"@,
    {
        "codex"
    }

    /// The capabilities of this agent.
    pub fn capabilities(&self) -> (r: AigentCapability)
        ensures
            r.spec_bits() == 2,
    {
        AigentCapability::FUNCTION_CALLING()
    }
}

} // verus!

//! Tests of the aigents.

use resurreccion::aigents::anthropic::{anthropic_role, ClaudeAigent};
use resurreccion::aigents::codex::{openai_role, CodexAigent};
use resurreccion::aigents::conformance;
use resurreccion::aigents::{Aigent, AigentCapability, Message, Role};

#[test]
fn claude_aigent_model_id_correct() {
    let aigent = ClaudeAigent::new("haiku-4-5-20251001", None);
    assert_eq!(aigent.model_id(), "haiku-4-5-20251001");
}

#[test]
fn claude_aigent_capabilities() {
    let aigent = ClaudeAigent::new("haiku-4-5-20251001", None);
    assert!(aigent.capabilities().contains(AigentCapability::STREAMING()));
}

#[test]
fn test_new_struct_construction() {
    let aigent = CodexAigent::new("gpt-4o", None);
    assert_eq!(aigent.model, "gpt-4o");
    assert_eq!(aigent.base_url, "https://api.openai.com/v1");
}

#[test]
fn test_model_id_and_capabilities() {
    let aigent = CodexAigent::new("gpt-4o-mini", None);
    assert_eq!(aigent.model_id(), "codex");
    assert!(aigent.capabilities().contains(AigentCapability::FUNCTION_CALLING()));
}

#[test]
fn test_with_base_url_sets_url() {
    let aigent = CodexAigent::with_base_url("llama3", "http://localhost:11434/v1", None);
    assert_eq!(aigent.model, "llama3");
    assert_eq!(aigent.base_url, "http://localhost:11434/v1");
}

#[test]
fn trait_exists_capability_flags_are_bitflags() {
    let streaming = AigentCapability::STREAMING();
    let function_calling = AigentCapability::FUNCTION_CALLING();
    let combined = streaming.union(function_calling);

    assert_eq!(streaming.bits(), 1);
    assert_eq!(function_calling.bits(), 2);
    assert_eq!(combined.bits(), 3);

    // Test empty
    assert_eq!(AigentCapability::empty().bits(), 0);

    // Test all three
    let image = AigentCapability::IMAGE_INPUT();
    let all = streaming.union(function_calling).union(image);
    assert_eq!(all.bits(), 7);
}

#[test]
fn message_role_roundtrips() {
    assert_eq!(Role::User, Role::User);
    assert_ne!(Role::User, Role::Assistant);
    let m = Message { role: Role::System, content: "be brief".to_string() };
    assert_eq!(m.clone(), m);
}

#[test]
fn roles_map_to_each_api() {
    assert_eq!(anthropic_role(Role::User), "user");
    assert_eq!(anthropic_role(Role::Assistant), "assistant");
    assert_eq!(anthropic_role(Role::System), "user");
    assert_eq!(openai_role(Role::System), "system");
    assert_eq!(openai_role(Role::Assistant), "assistant");
}

#[test]
fn anthropic_request_and_answer() {
    let aigent = ClaudeAigent::new("m", Some("key-1".to_string()));
    let req = aigent.request(&[
        Message { role: Role::System, content: "s".to_string() },
        Message { role: Role::Assistant, content: "a".to_string() },
    ]);
    assert_eq!(req.model, "m");
    assert_eq!(req.max_tokens, 1024);
    assert_eq!(req.messages[0].role, "user");
    assert_eq!(req.messages[1].role, "assistant");
    assert_eq!(req.messages[1].content, "a");
    let headers = aigent.headers();
    assert_eq!(headers[0], ("x-api-key".to_string(), "key-1".to_string()));
    assert_eq!(headers[1].1, "2023-06-01");
    assert_eq!(ClaudeAigent::endpoint(), "https://api.anthropic.com/v1/messages");
    assert_eq!(ClaudeAigent::answer(&["hi".to_string(), "x".to_string()]).unwrap(), "hi");
    assert_eq!(ClaudeAigent::answer(&[]).unwrap_err(), "No content in response");
}

#[test]
fn codex_request_and_answer() {
    let aigent = CodexAigent::with_base_url("llama3", "http://localhost:11434/v1", Some("k".to_string()));
    assert_eq!(aigent.completions_url(), "http://localhost:11434/v1/chat/completions");
    let headers = aigent.headers();
    assert_eq!(headers[0], ("Authorization".to_string(), "Bearer k".to_string()));
    let req = aigent.request(&[Message { role: Role::User, content: "Hello".to_string() }]);
    assert_eq!(req.model, "llama3");
    assert_eq!(req.messages[0].role, "user");
    assert_eq!(CodexAigent::answer(&[]).unwrap_err(), "No choices in response");
    assert_eq!(CodexAigent::new("m", None).api_key, "");
}

/// An aigent whose id and answer are fixed, and which counts the
/// conversations it is asked to answer and keeps the last one.
struct ScriptedAigent {
    id: &'static str,
    answer: Result<String, String>,
    asked: std::sync::Mutex<Vec<Vec<Message>>>,
}

impl ScriptedAigent {
    fn new(id: &'static str, answer: Result<String, String>) -> ScriptedAigent {
        ScriptedAigent { id, answer, asked: std::sync::Mutex::new(Vec::new()) }
    }

    fn asked(&self) -> Vec<Vec<Message>> {
        self.asked.lock().unwrap().clone()
    }
}

impl Aigent for ScriptedAigent {
    fn model_id(&self) -> &str {
        self.id
    }

    fn generate(&self, messages: &[Message]) -> Result<String, String> {
        self.asked.lock().unwrap().push(messages.to_vec());
        self.answer.clone()
    }

    fn capabilities(&self) -> AigentCapability {
        AigentCapability::empty()
    }
}

#[test]
fn conformance_checks_the_model_id() {
    let nameless = ScriptedAigent::new("", Ok("hi".to_string()));
    assert_eq!(conformance::run(&nameless).unwrap_err(), "model_id must not be empty");
    assert!(nameless.asked().is_empty());
    assert_eq!(conformance::check_model_id("").unwrap_err(), "model_id must not be empty");
    assert!(conformance::check_model_id("m").is_ok());
    let probe = conformance::probe_messages();
    assert_eq!(probe, vec![Message { role: Role::User, content: "Hello".to_string() }]);
}

#[test]
fn conformance_asks_for_one_answer_to_hello() {
    let good = ScriptedAigent::new("m", Ok("hi".to_string()));
    assert!(conformance::run(&good).is_ok());
    assert_eq!(good.asked(), vec![vec![Message { role: Role::User, content: "Hello".to_string() }]]);
}

#[test]
fn conformance_fails_with_the_generate_error() {
    let broken = ScriptedAigent::new("m", Err("network down".to_string()));
    assert_eq!(conformance::run(&broken).unwrap_err(), "network down");
    assert_eq!(broken.asked().len(), 1);
}

struct MockAigent;

impl Aigent for MockAigent {
    fn model_id(&self) -> &str {
        "mock-model"
    }

    fn generate(&self, _messages: &[Message]) -> Result<String, String> {
        Ok("response".to_string())
    }

    fn capabilities(&self) -> AigentCapability {
        AigentCapability::empty()
    }
}

#[test]
fn assert_aigent_is_object_safe() {
    let aigent: Box<dyn Aigent> = Box::new(MockAigent);
    assert_eq!(aigent.model_id(), "mock-model");
    assert!(aigent.capabilities().contains(AigentCapability::empty()));
}

//! Conformance checks every aigent must pass.

use vstd::prelude::*;
use crate::aigents::{Aigent, Message, Role};

verus! {

/// The message of a failed model-id check.
pub open spec fn empty_model_id_message() -> Seq<char> {
    "model_id must not be empty"@
}

/// Checks a model id: it must not be empty.
pub fn check_model_id(model_id: &str) -> (r: Result<(), String>)
    ensures
        r is Ok <==> model_id@.len() > 0,
        r matches Err(m) ==> m@ == empty_model_id_message(),
{
    if model_id.is_empty() {
        Err("model_id must not be empty".to_owned())
    } else {
        Ok(())
    }
}

/// The conversation a conforming aigent must answer: one user message,
/// `Hello`.
pub open spec fn is_probe(messages: Seq<Message>) -> bool {
    &&& messages.len() == 1
    &&& messages[0].role == Role::User
    &&& messages[0].content@ == "Hello"@
}

/// The conversation a conforming aigent must answer.
pub fn probe_messages() -> (r: Vec<Message>)
    ensures
        is_probe(r@),
{
    vec![Message { role: Role::User, content: "Hello".to_owned() }]
}

/// Runs the conformance checks on an aigent: its model id must not be empty,
/// and it must answer the probe conversation.
///
/// With an empty id the run fails at once and `generate` is not called;
/// otherwise `generate` is called once on the probe, and the run succeeds
/// exactly when it does, failing with its error where it fails.
pub fn run<A: Aigent>(aigent: &A) -> (r: Result<(), String>)
    ensures
        exists|id: &str| {
            &&& #[trigger] call_ensures(<A as Aigent>::model_id, (aigent,), id)
            &&& id@.len() == 0 ==> (r matches Err(m) && m@ == empty_model_id_message())
            &&& id@.len() > 0 ==> exists|messages: &[Message], g: Result<String, String>| {
                &&& is_probe(messages@)
                &&& #[trigger] call_ensures(<A as Aigent>::generate, (aigent, messages), g)
                &&& r == match g {
                    Ok(_) => Ok::<(), String>(()),
                    Err(e) => Err(e),
                }
            }
        },
{
    let id = aigent.model_id();
    assert(call_ensures(<A as Aigent>::model_id, (aigent,), id));
    match check_model_id(id) {
        Err(m) => return Err(m),
        Ok(()) => {},
    }
    let probe = probe_messages();
    let messages = probe.as_slice();
    let g = aigent.generate(messages);
    assert(call_ensures(<A as Aigent>::generate, (aigent, messages), g));
    match g {
        Ok(_) => Ok(()),
        Err(e) => Err(e),
    }
}

} // verus!

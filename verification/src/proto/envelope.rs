//! The request/response envelope of the daemon protocol.

use vstd::prelude::*;
use vstd::string::StringExecFns;
use crate::proto::{escape_json_string, json_escape_text};

verus! {

/// One message of the daemon protocol: a correlation id, the verb it is
/// about, whether it reports success, and its body as JSON text.
#[derive(Debug, Clone, PartialEq, Eq)]
pub struct Envelope {
    pub id: String,
    pub verb: String,
    pub ok: bool,
    /// The body, as JSON text.
    pub body: String,
}

/// The JSON text of an error body: `{"code":"..","message":".."}`.
pub open spec fn error_body_text(code: Seq<char>, message: Seq<char>) -> Seq<char> {
    "{\"code\":\""@ + json_escape_text(code) + "\",\"message\":\""@ + json_escape_text(message) + "\"}"@
}

impl Envelope {
    /// A successful envelope carrying `body`.
    pub fn ok(id: &str, verb: &str, body: String) -> (e: Envelope)
        ensures
            e.id@ == id@,
            e.verb@ == verb@,
            e.ok,
            e.body@ == body@,
    {
        Envelope { id: id.to_owned(), verb: verb.to_owned(), ok: true, body }
    }

    /// A failed envelope whose body names the error `code` and `message`.
    pub fn err(id: &str, verb: &str, code: &str, message: &str) -> (e: Envelope)
        ensures
            e.id@ == id@,
            e.verb@ == verb@,
            !e.ok,
            e.body@ == error_body_text(code@, message@),
    {
        let mut body = String::from_str("{\"code\":\"");
        body.append(escape_json_string(code).as_str());
        body.append("\",\"message\":\"");
        body.append(escape_json_string(message).as_str());
        body.append("\"}");
        Envelope { id: id.to_owned(), verb: verb.to_owned(), ok: false, body }
    }
}

} // verus!

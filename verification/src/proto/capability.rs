//! Capability negotiation messages.

use vstd::prelude::*;
use vstd::string::StringExecFns;
use crate::dag::graph::texts;
use crate::decimal::{digits, push_decimal};
use crate::proto::{escape_json_string, json_escape_text};

verus! {

/// What a client asks for: its protocol version and the capabilities it
/// supports.
#[derive(Debug, Clone, PartialEq, Eq)]
pub struct CapabilityRequest {
    pub client_proto: u32,
    pub client_capabilities: Vec<String>,
}

/// The daemon's answer: its protocol version and the capabilities both sides
/// support.
#[derive(Debug, Clone, PartialEq, Eq)]
pub struct CapabilityResponse {
    pub server_proto: u32,
    pub agreed_capabilities: Vec<String>,
}

/// A JSON string literal holding `s`.
pub open spec fn quoted(s: Seq<char>) -> Seq<char> {
    "\""@ + json_escape_text(s) + "\""@
}

/// The elements of a JSON array of strings, comma separated.
pub open spec fn quoted_items(s: Seq<Seq<char>>) -> Seq<char>
    decreases s.len(),
{
    if s.len() == 0 {
        Seq::empty()
    } else if s.len() == 1 {
        quoted(s[0])
    } else {
        quoted_items(s.drop_last()) + ","@ + quoted(s.last())
    }
}

/// The JSON text of a capability response.
pub open spec fn capability_response_json(server_proto: nat, agreed: Seq<Seq<char>>) -> Seq<char> {
    "{\"server_proto\":"@ + digits(server_proto) + ",\"agreed_capabilities\":["@ + quoted_items(agreed)
        + "]}"@
}

impl CapabilityResponse {
    /// The response as one line of JSON.
    pub fn to_json(&self) -> (r: String)
        ensures
            r@ == capability_response_json(
                self.server_proto as nat,
                texts(self.agreed_capabilities@),
            ),
    {
        let mut s = String::from_str("{\"server_proto\":");
        push_decimal(&mut s, self.server_proto as u64);
        s.append(",\"agreed_capabilities\":[");
        let ghost start = s@;
        let ghost t = texts(self.agreed_capabilities@);
        let mut i: usize = 0;
        while i < self.agreed_capabilities.len()
            invariant
                i <= self.agreed_capabilities@.len(),
                t == texts(self.agreed_capabilities@),
                s@ == start + quoted_items(t.take(i as int)),
            decreases self.agreed_capabilities@.len() - i,
        {
            let ghost before = s@;
            if i > 0 {
                s.append(",");
            }
            s.append("\"");
            s.append(escape_json_string(self.agreed_capabilities[i].as_str()).as_str());
            s.append("\"");
            proof {
                let u = t.take(i + 1);
                assert(u.drop_last() =~= t.take(i as int));
                assert(u.last() == self.agreed_capabilities@[i as int]@);
                if i > 0 {
                    assert(s@ =~= before + ","@ + quoted(u.last()));
                } else {
                    assert(s@ =~= before + quoted(u.last()));
                }
            }
            i = i + 1;
        }
        assert(t.take(i as int) =~= t);
        s.append("]}");
        s
    }
}

} // verus!

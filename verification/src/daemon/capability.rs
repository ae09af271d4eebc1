//! The `capability.negotiate` verb: the client declares the capabilities it
//! supports, the daemon answers with those it supports too and its protocol
//! version.

use vstd::prelude::*;
use vstd::string::StringExecFns;
use crate::chars::same_text;
use crate::dag::graph::texts;
use crate::proto::capability::{CapabilityRequest, CapabilityResponse, capability_response_json};
use crate::proto::envelope::{Envelope, error_body_text};

verus! {

/// The capabilities this daemon supports.
pub open spec fn server_capability_texts() -> Seq<Seq<char>> {
    seq![
        "capture.layout"@,
        "restore.layout"@,
        "shell.capture"@,
        "shell.restore"@,
        "blob.put"@,
        "blob.get"@,
        "events.subscribe"@,
    ]
}

/// The capabilities this daemon supports, in their declared order.
pub fn server_capabilities() -> (r: Vec<&'static str>)
    ensures
        r@.map_values(|s: &'static str| s@) == server_capability_texts(),
{
    let r = vec![
        "capture.layout",
        "restore.layout",
        "shell.capture",
        "shell.restore",
        "blob.put",
        "blob.get",
        "events.subscribe",
    ];
    assert(r@.map_values(|s: &'static str| s@) =~= server_capability_texts());
    r
}

/// Whether the daemon supports `cap`.
pub fn is_server_capability(cap: &str) -> (r: bool)
    ensures
        r == server_capability_texts().contains(cap@),
{
    let r = same_text(cap, "capture.layout") || same_text(cap, "restore.layout") || same_text(
        cap,
        "shell.capture",
    ) || same_text(cap, "shell.restore") || same_text(cap, "blob.put") || same_text(cap, "blob.get")
        || same_text(cap, "events.subscribe");
    proof {
        let s = server_capability_texts();
        if r {
            assert(s.contains(cap@)) by {
                if cap@ == "capture.layout"@ { assert(s[0] == cap@); }
                else if cap@ == "restore.layout"@ { assert(s[1] == cap@); }
                else if cap@ == "shell.capture"@ { assert(s[2] == cap@); }
                else if cap@ == "shell.restore"@ { assert(s[3] == cap@); }
                else if cap@ == "blob.put"@ { assert(s[4] == cap@); }
                else if cap@ == "blob.get"@ { assert(s[5] == cap@); }
                else { assert(s[6] == cap@); }
            }
        } else {
            if s.contains(cap@) {
                let k = choose|k: int| 0 <= k < s.len() && s[k] == cap@;
                assert(k == 0 || k == 1 || k == 2 || k == 3 || k == 4 || k == 5 || k == 6);
            }
        }
    }
    r
}

/// The client's capabilities that the daemon supports, in the client's order.
pub open spec fn agreed(client: Seq<Seq<char>>) -> Seq<Seq<char>>
    decreases client.len(),
{
    if client.len() == 0 {
        Seq::empty()
    } else if server_capability_texts().contains(client.last()) {
        agreed(client.drop_last()).push(client.last())
    } else {
        agreed(client.drop_last())
    }
}

/// The agreed capabilities are exactly the client's capabilities that the
/// daemon supports: the intersection of the two sets.
#[verifier::spinoff_prover]
#[verifier::rlimit(30)]
pub proof fn lemma_agreed_is_intersection(client: Seq<Seq<char>>)
    ensures
        forall|c: Seq<char>| #[trigger] agreed(client).contains(c) <==> (client.contains(c)
            && server_capability_texts().contains(c)),
    decreases client.len(),
{
    if client.len() > 0 {
        let rest = client.drop_last();
        let last = client.last();
        let a = agreed(rest);
        lemma_agreed_is_intersection(rest);
        assert(client =~= rest.push(last));
        assert forall|c: Seq<char>| #[trigger] agreed(client).contains(c) <==> (client.contains(c)
            && server_capability_texts().contains(c)) by {
            if server_capability_texts().contains(last) {
                assert(agreed(client) == a.push(last));
            } else {
                assert(agreed(client) == a);
            }
            if agreed(client).contains(c) {
                if c == last && server_capability_texts().contains(last) {
                    assert(client[client.len() - 1] == c);
                } else {
                    if server_capability_texts().contains(last) {
                        let k = choose|k: int| 0 <= k < a.len() + 1 && a.push(last)[k] == c;
                        if k == a.len() {
                            assert(c == last);
                        }
                        assert(a[k] == c);
                    }
                    assert(a.contains(c));
                    let j = choose|j: int| 0 <= j < rest.len() && rest[j] == c;
                    assert(client[j] == c);
                }
            }
            if client.contains(c) && server_capability_texts().contains(c) {
                if c == last {
                    assert(a.push(last)[a.len() as int] == c);
                } else {
                    let j = choose|j: int| 0 <= j < client.len() && client[j] == c;
                    assert(j != client.len() - 1);
                    assert(rest[j] == c);
                    assert(a.contains(c));
                    let k = choose|k: int| 0 <= k < a.len() && a[k] == c;
                    if server_capability_texts().contains(last) {
                        assert(a.push(last)[k] == c);
                    }
                }
            }
        }
    }
}

/// Keeps the client's capabilities that the daemon supports, in order.
pub fn agree_capabilities(client: &[String]) -> (r: Vec<String>)
    ensures
        texts(r@) == agreed(texts(client@)),
{
    let mut r: Vec<String> = Vec::new();
    let ghost t = texts(client@);
    let mut i: usize = 0;
    while i < client.len()
        invariant
            i <= client@.len(),
            t == texts(client@),
            texts(r@) == agreed(t.take(i as int)),
        decreases client@.len() - i,
    {
        let ghost before = r@;
        if is_server_capability(client[i].as_str()) {
            r.push(client[i].clone());
        }
        proof {
            let u = t.take(i + 1);
            assert(u.drop_last() =~= t.take(i as int));
            assert(u.last() == client@[i as int]@);
            assert(texts(r@) =~= agreed(u));
        }
        i = i + 1;
    }
    assert(t.take(i as int) =~= t);
    r
}

/// Handler of `capability.negotiate`.
pub struct CapabilityHandler;

/// The message of the reply to a body that is no capability request.
pub open spec fn bad_request_message(reason: Seq<char>) -> Seq<char> {
    "failed to parse CapabilityRequest: "@ + reason
}

impl CapabilityHandler {
    /// Answers `env`, whose body was read as `request` (or failed to be, for
    /// the reason given): the agreed capabilities with protocol version 1,
    /// or a `bad_request` error.
    pub fn negotiate(&self, env: &Envelope, request: Result<CapabilityRequest, String>) -> (r: Envelope)
        ensures
            r.id@ == env.id@,
            r.verb@ == env.verb@,
            match request {
                Ok(req) => r.ok && r.body@ == capability_response_json(
                    1,
                    agreed(texts(req.client_capabilities@)),
                ),
                Err(reason) => !r.ok && r.body@ == error_body_text(
                    "bad_request"@,
                    bad_request_message(reason@),
                ),
            },
    {
        match request {
            Ok(req) => {
                let resp = CapabilityResponse {
                    server_proto: 1,
                    agreed_capabilities: agree_capabilities(req.client_capabilities.as_slice()),
                };
                Envelope::ok(env.id.as_str(), env.verb.as_str(), resp.to_json())
            },
            Err(reason) => {
                let mut message = String::from_str("failed to parse CapabilityRequest: ");
                message.append(reason.as_str());
                Envelope::err(env.id.as_str(), env.verb.as_str(), "bad_request", message.as_str())
            },
        }
    }
}

} // verus!

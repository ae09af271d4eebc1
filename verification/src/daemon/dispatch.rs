//! Verb dispatch and handler registration.

use std::sync::Arc;
use vstd::prelude::*;
use vstd::string::StringExecFns;
use crate::proto::envelope::{Envelope, error_body_text};

verus! {

/// A handler for one verb of the daemon protocol.
pub trait Handler: Send + Sync {
    /// Handles a request envelope and returns the reply envelope.
    fn handle(&self, env: &Envelope) -> Envelope;
}

/// A shared handler handles as the handler it points to.
impl<T: Handler + ?Sized> Handler for Arc<T> {
    fn handle(&self, env: &Envelope) -> Envelope {
        (**self).handle(env)
    }
}

/// Maps verb names to handlers and hands each envelope to the handler of its
/// verb.
///
/// A daemon with handlers of several types keeps them as `Arc<dyn Handler>`.
pub struct Dispatcher<H: Handler> {
    /// `(verb, handler)` pairs, no verb twice.
    handlers: Vec<(String, H)>,
}

/// The message of the reply to an envelope whose verb has no handler.
pub open spec fn unknown_verb_message(verb: Seq<char>) -> Seq<char> {
    "no handler for verb: "@ + verb
}

/// The message of the reply to a request line that is no envelope, given
/// what the reader said of it.
pub open spec fn parse_failure_message(detail: Seq<char>) -> Seq<char> {
    "failed to parse JSON: "@ + detail
}

impl<H: Handler> Dispatcher<H> {
    /// No verb is registered twice.
    pub closed spec fn wf(&self) -> bool {
        forall|i: int, j: int|
            0 <= i < j < self.handlers@.len() ==> (#[trigger] self.handlers@[i]).0@
                != (#[trigger] self.handlers@[j]).0@
    }

    spec fn slot_of(&self, verb: Seq<char>) -> int {
        choose|i: int| 0 <= i < self.handlers@.len() && (#[trigger] self.handlers@[i]).0@ == verb
    }

    /// The handler registered for each verb.
    pub closed spec fn routes(&self) -> Map<Seq<char>, H> {
        Map::new(
            |verb: Seq<char>| exists|i: int| 0 <= i < self.handlers@.len() && (#[trigger] self.handlers@[i]).0@ == verb,
            |verb: Seq<char>| self.handlers@[self.slot_of(verb)].1,
        )
    }

    proof fn lemma_slot(&self, i: int)
        requires
            self.wf(),
            0 <= i < self.handlers@.len(),
        ensures
            self.slot_of(self.handlers@[i].0@) == i,
            self.routes().dom().contains(self.handlers@[i].0@),
            self.routes()[self.handlers@[i].0@] == self.handlers@[i].1,
    {
        let v = self.handlers@[i].0@;
        assert(exists|j: int| 0 <= j < self.handlers@.len() && (#[trigger] self.handlers@[j]).0@ == v);
        let s = self.slot_of(v);
        if s != i {
            if s < i {
                assert(self.handlers@[s].0@ != self.handlers@[i].0@);
            } else {
                assert(self.handlers@[i].0@ != self.handlers@[s].0@);
            }
        }
    }

    /// An empty dispatcher.
    pub fn new() -> (d: Dispatcher<H>)
        ensures
            d.wf(),
            d.routes() == Map::<Seq<char>, H>::empty(),
    {
        let d = Dispatcher::<H> { handlers: Vec::new() };
        assert(d.routes() =~= Map::<Seq<char>, H>::empty());
        d
    }

    /// The position of `verb` among the registered verbs.
    fn find(&self, verb: &str) -> (r: Option<usize>)
        requires
            self.wf(),
        ensures
            match r {
                Some(i) => i < self.handlers@.len() && self.handlers@[i as int].0@ == verb@,
                None => !self.routes().dom().contains(verb@),
            },
    {
        let mut i: usize = 0;
        while i < self.handlers.len()
            invariant
                i <= self.handlers@.len(),
                forall|k: int| 0 <= k < i ==> (#[trigger] self.handlers@[k]).0@ != verb@,
            decreases self.handlers@.len() - i,
        {
            if crate::chars::same_text(self.handlers[i].0.as_str(), verb) {
                return Some(i);
            }
            i = i + 1;
        }
        None
    }

    /// Registers `handler` for `verb`, replacing any handler the verb had.
    pub fn register(&mut self, verb: &'static str, handler: H)
        requires
            old(self).wf(),
        ensures
            final(self).wf(),
            final(self).routes() == old(self).routes().insert(verb@, handler),
    {
        let ghost before = *self;
        let entry = (verb.to_owned(), handler);
        match self.find(verb) {
            Some(i) => {
                self.handlers.set(i, entry);
                proof {
                    assert forall|a: int, b: int|
                        0 <= a < b < self.handlers@.len() implies (#[trigger] self.handlers@[a]).0@
                        != (#[trigger] self.handlers@[b]).0@ by {
                        assert(before.handlers@[a].0@ != before.handlers@[b].0@);
                    }
                    assert forall|v: Seq<char>| #[trigger] self.routes().dom().contains(v)
                        <==> before.routes().insert(verb@, handler).dom().contains(v) by {
                        if self.routes().dom().contains(v) {
                            let k = choose|k: int| 0 <= k < self.handlers@.len() && (#[trigger] self.handlers@[k]).0@ == v;
                            if k != i {
                                assert(before.handlers@[k].0@ == v);
                            }
                        }
                        if before.routes().dom().contains(v) {
                            let k = choose|k: int| 0 <= k < before.handlers@.len() && (#[trigger] before.handlers@[k]).0@ == v;
                            if k != i {
                                assert(self.handlers@[k].0@ == v);
                            } else {
                                assert(self.handlers@[i as int].0@ == v);
                            }
                        }
                        if v == verb@ {
                            assert(self.handlers@[i as int].0@ == v);
                        }
                    }
                    assert forall|v: Seq<char>| #[trigger] self.routes().dom().contains(v) implies self.routes()[v]
                        == before.routes().insert(verb@, handler)[v] by {
                        let k = choose|k: int| 0 <= k < self.handlers@.len() && (#[trigger] self.handlers@[k]).0@ == v;
                        self.lemma_slot(k);
                        if k != i {
                            before.lemma_slot(k);
                        }
                    }
                    assert(self.routes() =~= before.routes().insert(verb@, handler));
                }
            },
            None => {
                self.handlers.push(entry);
                proof {
                    let n = before.handlers@.len() as int;
                    assert forall|a: int, b: int|
                        0 <= a < b < self.handlers@.len() implies (#[trigger] self.handlers@[a]).0@
                        != (#[trigger] self.handlers@[b]).0@ by {
                        if b == n {
                            assert(before.handlers@[a] == self.handlers@[a]);
                            assert(!before.routes().dom().contains(verb@));
                        } else {
                            assert(before.handlers@[a].0@ != before.handlers@[b].0@);
                        }
                    }
                    assert forall|v: Seq<char>| #[trigger] self.routes().dom().contains(v)
                        <==> before.routes().insert(verb@, handler).dom().contains(v) by {
                        if self.routes().dom().contains(v) {
                            let k = choose|k: int| 0 <= k < self.handlers@.len() && (#[trigger] self.handlers@[k]).0@ == v;
                            if k != n {
                                assert(before.handlers@[k].0@ == v);
                            }
                        }
                        if before.routes().dom().contains(v) {
                            let k = choose|k: int| 0 <= k < before.handlers@.len() && (#[trigger] before.handlers@[k]).0@ == v;
                            assert(self.handlers@[k].0@ == v);
                        }
                        if v == verb@ {
                            assert(self.handlers@[n].0@ == v);
                        }
                    }
                    assert forall|v: Seq<char>| #[trigger] self.routes().dom().contains(v) implies self.routes()[v]
                        == before.routes().insert(verb@, handler)[v] by {
                        let k = choose|k: int| 0 <= k < self.handlers@.len() && (#[trigger] self.handlers@[k]).0@ == v;
                        self.lemma_slot(k);
                        if k != n {
                            before.lemma_slot(k);
                        }
                    }
                    assert(self.routes() =~= before.routes().insert(verb@, handler));
                }
            },
        }
    }

    /// Hands `env` to the handler of its verb and returns that handler's
    /// reply; replies with an `unknown_verb` error where the verb has none.
    pub fn dispatch(&self, env: &Envelope) -> (r: Envelope)
        requires
            self.wf(),
        ensures
            self.routes().dom().contains(env.verb@) ==> call_ensures(
                <H as Handler>::handle,
                (&self.routes()[env.verb@], env),
                r,
            ),
            !self.routes().dom().contains(env.verb@) ==> {
                &&& r.id@ == env.id@
                &&& r.verb@ == env.verb@
                &&& !r.ok
                &&& r.body@ == error_body_text("unknown_verb"@, unknown_verb_message(env.verb@))
            },
    {
        match self.find(env.verb.as_str()) {
            Some(i) => {
                proof {
                    self.lemma_slot(i as int);
                }
                self.handlers[i].1.handle(env)
            },
            None => {
                let mut message = String::from_str("no handler for verb: ");
                message.append(env.verb.as_str());
                Envelope::err(env.id.as_str(), env.verb.as_str(), "unknown_verb", message.as_str())
            },
        }
    }

    /// The reply to one request line of a connection, given the line read
    /// as an envelope, or what the reader said of it where it is none: the
    /// dispatched reply, or a `parse_error` reply.
    pub fn answer_line(&self, parsed: Result<Envelope, String>) -> (r: Envelope)
        requires
            self.wf(),
        ensures
            match parsed {
                Ok(env) => {
                    &&& self.routes().dom().contains(env.verb@) ==> call_ensures(
                        <H as Handler>::handle,
                        (&self.routes()[env.verb@], &env),
                        r,
                    )
                    &&& !self.routes().dom().contains(env.verb@) ==> {
                        &&& r.id@ == env.id@
                        &&& r.verb@ == env.verb@
                        &&& !r.ok
                        &&& r.body@ == error_body_text("unknown_verb"@, unknown_verb_message(env.verb@))
                    }
                },
                Err(detail) => {
                    &&& r.id@ == "parse-error"@
                    &&& r.verb@ == "unknown"@
                    &&& !r.ok
                    &&& r.body@ == error_body_text("parse_error"@, parse_failure_message(detail@))
                },
            },
    {
        match parsed {
            Ok(env) => self.dispatch(&env),
            Err(detail) => {
                let mut message = String::from_str("failed to parse JSON: ");
                message.append(detail.as_str());
                Envelope::err("parse-error", "unknown", "parse_error", message.as_str())
            },
        }
    }
}

/// Once `verb` is registered with `handler`, an envelope of that verb is
/// handed to `handler`, whatever was registered for it before; the other
/// verbs keep their handlers.
pub proof fn lemma_dispatch_after_register<H: Handler>(before: Dispatcher<H>, after: Dispatcher<H>, verb: Seq<char>, handler: H, other: Seq<char>)
    requires
        after.routes() == before.routes().insert(verb, handler),
    ensures
        after.routes().dom().contains(verb),
        after.routes()[verb] == handler,
        other != verb ==> (after.routes().dom().contains(other) <==> before.routes().dom().contains(other)),
        other != verb && before.routes().dom().contains(other) ==> after.routes()[other] == before.routes()[other],
{
}

impl<H: Handler> Default for Dispatcher<H> {
    fn default() -> (d: Dispatcher<H>)
        ensures
            d.wf(),
            d.routes() == Map::<Seq<char>, H>::empty(),
    {
        Dispatcher::new()
    }
}

} // verus!

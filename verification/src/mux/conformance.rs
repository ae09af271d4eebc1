//! The conformance suite every multiplexer backend must pass.

use vstd::prelude::*;
use vstd::string::StringExecFns;
use crate::mux::{Mux, MuxError};

verus! {

/// Whether what `discover` returned passes: a session list, or a retryable
/// error.
pub open spec fn discover_passes(result: Result<Vec<String>, MuxError>) -> bool {
    match result {
        Ok(_) => true,
        Err(e) => e is Io || e is NotAvailable,
    }
}

/// The verdict on what `discover` returned: a session list, or a retryable
/// error (the backend is not running here), passes; any other error fails.
pub fn judge_discover(result: Result<Vec<String>, MuxError>) -> (r: Result<(), String>)
    ensures
        r is Ok <==> discover_passes(result),
        r matches Err(m) ==> m@.take(27) == "discover() failed fatally: "@,
{
    match result {
        Ok(_) => Ok(()),
        Err(e) => {
            if e.is_retryable() {
                Ok(())
            } else {
                let mut m = String::from_str("discover() failed fatally: ");
                m.append(e.to_string().as_str());
                proof {
                    reveal_strlit("discover() failed fatally: ");
                    assert(m@.take(27) =~= "discover() failed fatally: "@);
                }
                Err(m)
            }
        },
    }
}

/// Runs the conformance suite against a backend: `discover` must succeed
/// (or fail only in a retryable way) and `capabilities` must answer. The
/// verdict is that on what the backend's `discover` returned.
pub fn run<M: Mux>(mux: &M) -> (r: Result<(), String>)
    ensures
        exists|d: Result<Vec<String>, MuxError>| #[trigger] call_ensures(<M as Mux>::discover, (mux,), d) && (
        r is Ok <==> discover_passes(d)),
        r matches Err(m) ==> m@.take(27) == "discover() failed fatally: "@,
{
    let discovered = mux.discover();
    let ghost d = discovered;
    let verdict = judge_discover(discovered);
    assert(call_ensures(<M as Mux>::discover, (mux,), d));
    let _caps = mux.capabilities();
    verdict
}

} // verus!

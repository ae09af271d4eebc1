//! The command line of `resurreccion-cli`, which asks the daemon whether it
//! is healthy.

use vstd::prelude::*;
use vstd::string::StringExecFns;
use crate::chars::{same_text, trim, trim_text, contains_text, occurs_in};
use crate::proto::{DEFAULT_SOCKET_PATH, default_socket_path};

verus! {

/// What to do.
#[derive(Debug, Clone, Copy, PartialEq, Eq, Structural)]
pub enum Command {
    /// Ask the daemon for its health, printing its JSON reply where `json`.
    Doctor { json: bool },
}

/// The parsed arguments.
#[derive(Debug, Clone, PartialEq, Eq)]
pub struct Args {
    pub command: Command,
    pub socket_path: String,
}

/// The usage text.
pub open spec fn help_message() -> Seq<char> {
    "Usage:\n  resurreccion-cli doctor [--socket PATH] [--json]"@
}

/// The usage text.
pub fn help_text() -> (r: String)
    ensures
        r@ == help_message(),
{
    let mut s = String::from_str("Usage:");
    s.append("\n");
    s.append("  resurreccion-cli doctor [--socket PATH] [--json]");
    proof {
        reveal_strlit("Usage:");
        reveal_strlit("\n");
        reveal_strlit("  resurreccion-cli doctor [--socket PATH] [--json]");
        reveal_strlit("Usage:\n  resurreccion-cli doctor [--socket PATH] [--json]");
    }
    assert(s@ =~= help_message());
    s
}

/// The arguments `args[i..]`, read with `--json` and the socket path so far:
/// `doctor` is the only command and may be left out, `--json` asks for JSON
/// output, `--socket` takes the next argument as the socket path (the last
/// one given counts), `--help` and `-h` answer the usage text, anything else
/// is refused.
pub open spec fn args_scan(args: Seq<Seq<char>>, i: int, json: bool, socket: Seq<char>) -> Result<(bool, Seq<char>), Seq<char>>
    decreases args.len() - i,
{
    if i < 0 || i >= args.len() {
        Ok((json, socket))
    } else {
        let t = args[i];
        if t == "doctor"@ {
            args_scan(args, i + 1, json, socket)
        } else if t == "--json"@ {
            args_scan(args, i + 1, true, socket)
        } else if t == "--socket"@ {
            if i + 1 >= args.len() {
                Err("missing value for --socket"@)
            } else {
                args_scan(args, i + 2, json, args[i + 1])
            }
        } else if t == "--help"@ || t == "-h"@ {
            Err(help_message())
        } else {
            Err("unknown argument: "@ + t + "\n\n"@ + help_message())
        }
    }
}

/// The texts of the arguments.
pub open spec fn string_texts(args: Seq<String>) -> Seq<Seq<char>> {
    args.map_values(|a: String| a@)
}

impl Args {
    /// Parses the arguments that follow the program's name.
    pub fn parse(args: &[String]) -> (r: Result<Args, String>)
        ensures
            match args_scan(string_texts(args@), 0, false, DEFAULT_SOCKET_PATH@) {
                Ok(m) => r matches Ok(a) && a.command == (Command::Doctor { json: m.0 }) && a.socket_path@
                    == m.1,
                Err(e) => r matches Err(x) && x@ == e,
            },
    {
        let ghost a = string_texts(args@);
        let mut json = false;
        let mut socket_path = default_socket_path();
        let mut i: usize = 0;
        while i < args.len()
            invariant
                a == string_texts(args@),
                args_scan(a, 0, false, DEFAULT_SOCKET_PATH@) == args_scan(a, i as int, json, socket_path@),
            decreases args@.len() - i,
        {
            let t = args[i].as_str();
            assert(a[i as int] == t@);
            if same_text(t, "doctor") {
                i = i + 1;
            } else if same_text(t, "--json") {
                json = true;
                i = i + 1;
            } else if same_text(t, "--socket") {
                if i + 1 >= args.len() {
                    return Err("missing value for --socket".to_owned());
                }
                assert(a[i + 1] == args@[i + 1]@);
                socket_path = args[i + 1].clone();
                i = i + 2;
            } else if same_text(t, "--help") || same_text(t, "-h") {
                return Err(help_text());
            } else {
                let mut m = String::from_str("unknown argument: ");
                m.append(t);
                m.append("\n\n");
                m.append(help_text().as_str());
                return Err(m);
            }
        }
        Ok(Args { command: Command::Doctor { json }, socket_path })
    }
}

/// What the health check makes of the daemon's reply: the trimmed reply
/// where it reports success (holds `"ok":true`), an error naming it
/// otherwise.
pub fn health_outcome(reply: &str) -> (r: Result<String, String>)
    ensures
        occurs_in(reply@, "\"ok\":true"@) ==> (r matches Ok(t) && t@ == trim_text(reply@)),
        !occurs_in(reply@, "\"ok\":true"@) ==> (r matches Err(m) && m@ == "daemon returned unexpected response: "@
            + trim_text(reply@)),
{
    let trimmed = trim(reply);
    if contains_text(reply, "\"ok\":true") {
        Ok(trimmed.to_owned())
    } else {
        let mut m = String::from_str("daemon returned unexpected response: ");
        m.append(trimmed);
        Err(m)
    }
}

} // verus!

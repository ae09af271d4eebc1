//! The daemon's wire protocol: line requests over a Unix socket and their
//! JSON replies.

pub mod verbs;
pub mod envelope;
pub mod capability;

use vstd::prelude::*;
use vstd::string::{StringExecFns, StrSliceExecFns};
use crate::chars::{trim, trim_text, same_text, white_space, lead_ws, trail_ws};

verus! {

/// Where the daemon listens unless told otherwise.
pub const DEFAULT_SOCKET_PATH: &'static str = "/tmp/resurreccion.sock";

/// The service name reported by the health check.
pub const SERVICE_NAME: &'static str = "resurreccion-daemon";

/// Version of the envelope protocol spoken by this build.
pub const PROTO_VERSION: u32 = 1;

/// A request to receive the daemon's events: those of one workspace (all
/// where none is named), after an event id (from the first where none is
/// named).
#[derive(Debug, Clone, PartialEq, Eq)]
pub struct SubscribeRequest {
    pub workspace_id: Option<String>,
    pub after_id: Option<String>,
}

/// The line a request is written as.
pub open spec fn wire_text(r: Request) -> Seq<char> {
    match r {
        Request::Health => "health\n"@,
    }
}

/// The word a request line holds once trimmed.
pub open spec fn request_word(r: Request) -> Seq<char> {
    match r {
        Request::Health => "health"@,
    }
}

/// What is written on the wire reads back as the same request: the line
/// trims to the request's word, which `Request::parse` accepts as it.
pub proof fn lemma_wire_round_trip(r: Request)
    ensures
        trim_text(wire_text(r)) == request_word(r),
{
    reveal_strlit("health\n");
    reveal_strlit("health");
    let w = wire_text(r);
    assert(!white_space(w[0]));
    assert(lead_ws(w) == 0) by {
        reveal_with_fuel(lead_ws, 2);
    }
    assert(w.skip(0) =~= w);
    assert(white_space(w.last()));
    assert(!white_space(w.drop_last().last()));
    assert(trail_ws(w) == 1) by {
        reveal_with_fuel(trail_ws, 3);
    }
    assert(w.take(w.len() - 1) =~= request_word(r));
}

/// A request line sent to the daemon.
#[derive(Debug, Clone, Copy, PartialEq, Eq, Structural)]
pub enum Request {
    Health,
}

impl Request {
    /// Parses a request line, ignoring surrounding white space.
    pub fn parse(input: &str) -> (r: Result<Request, String>)
        ensures
            trim_text(input@) == "health"@ ==> r == Ok::<Request, String>(Request::Health),
            trim_text(input@) != "health"@ ==> (r matches Err(m) && m@ == "unknown request: "@
                + trim_text(input@)),
    {
        let t = trim(input);
        if same_text(t, "health") {
            Ok(Request::Health)
        } else {
            let mut m = String::from_str("unknown request: ");
            m.append(t);
            Err(m)
        }
    }

    /// The request as it is written on the socket.
    pub fn as_wire(&self) -> (r: &'static str)
        ensures
            r@ == wire_text(*self),
    {
        match self {
            Request::Health => "health\n",
        }
    }
}

/// The error part of a reply.
#[derive(Debug, Clone, PartialEq, Eq)]
pub struct ErrorResponse {
    pub code: String,
    pub message: String,
}

/// The reply to a health check.
#[derive(Debug, Clone, PartialEq, Eq)]
pub struct HealthResponse {
    pub service: &'static str,
    pub status: &'static str,
    pub socket_path: String,
}

/// A reply written back on the socket.
#[derive(Debug, Clone, PartialEq, Eq)]
pub enum Response {
    Health(HealthResponse),
    Error(ErrorResponse),
}

/// The JSON escape of one character.
pub open spec fn escaped_char(c: char) -> Seq<char> {
    if c == '\\' {
        "\\\\"@
    } else if c == '"' {
        "\\\""@
    } else if c == '\n' {
        "\\n"@
    } else if c == '\r' {
        "\\r"@
    } else if c == '\t' {
        "\\t"@
    } else {
        seq![c]
    }
}

/// `s` with backslash, quote, newline, carriage return and tab escaped.
pub open spec fn escape_text(s: Seq<char>) -> Seq<char>
    decreases s.len(),
{
    if s.len() == 0 {
        Seq::empty()
    } else {
        escape_text(s.drop_last()) + escaped_char(s.last())
    }
}

/// The lower-case hexadecimal digit of `d` (0 to 15).
pub open spec fn hex_lower(d: int) -> char {
    if d < 10 {
        (d + 48) as char
    } else {
        (d + 87) as char
    }
}

/// The JSON escape of one character as `serde_json` writes strings:
/// backslash, quote and the control characters below U+0020 are escaped,
/// with the short forms `\b`, `\t`, `\n`, `\f`, `\r` where JSON has one
/// and `\u00XX` (lower-case hex) otherwise.
pub open spec fn json_escaped_char(c: char) -> Seq<char> {
    if c == '\\' {
        "\\\\"@
    } else if c == '"' {
        "\\\""@
    } else if c == '\u{8}' {
        "\\b"@
    } else if c == '\t' {
        "\\t"@
    } else if c == '\n' {
        "\\n"@
    } else if c == '\u{c}' {
        "\\f"@
    } else if c == '\r' {
        "\\r"@
    } else if (c as int) < 0x20 {
        "\\u00"@ + seq![hex_lower((c as int) / 16), hex_lower((c as int) % 16)]
    } else {
        seq![c]
    }
}

/// `s` escaped for a JSON string as `serde_json` escapes it.
pub open spec fn json_escape_text(s: Seq<char>) -> Seq<char>
    decreases s.len(),
{
    if s.len() == 0 {
        Seq::empty()
    } else {
        json_escape_text(s.drop_last()) + json_escaped_char(s.last())
    }
}

/// The character that a backslash followed by `c` stands for.
pub open spec fn unescaped_char(c: char) -> char {
    if c == 'n' {
        '\n'
    } else if c == 'r' {
        '\r'
    } else if c == 't' {
        '\t'
    } else {
        c
    }
}

/// `s` with JSON escapes read back: a backslash followed by `n`, `r` or `t`
/// is a newline, carriage return or tab, followed by any other character it
/// is that character.
pub open spec fn unescape_text(s: Seq<char>) -> Seq<char>
    decreases s.len(),
{
    if s.len() == 0 {
        Seq::empty()
    } else if s[0] == '\\' && s.len() >= 2 {
        seq![unescaped_char(s[1])] + unescape_text(s.skip(2))
    } else {
        seq![s[0]] + unescape_text(s.skip(1))
    }
}

proof fn lemma_escape_concat(a: Seq<char>, b: Seq<char>)
    ensures
        escape_text(a + b) == escape_text(a) + escape_text(b),
    decreases b.len(),
{
    if b.len() == 0 {
        assert(a + b =~= a);
        assert(escape_text(a) + escape_text(b) =~= escape_text(a));
    } else {
        lemma_escape_concat(a, b.drop_last());
        assert((a + b).drop_last() =~= a + b.drop_last());
        assert((a + b).last() == b.last());
        assert(escape_text(a) + escape_text(b) =~= escape_text(a) + escape_text(b.drop_last()) + escaped_char(b.last()));
    }
}

/// Escaping loses nothing: reading the escapes back gives the text again.
pub proof fn lemma_escape_reversible(s: Seq<char>)
    ensures
        unescape_text(escape_text(s)) == s,
    decreases s.len(),
{
    if s.len() > 0 {
        let c = s[0];
        let rest = s.skip(1);
        assert(s =~= seq![c] + rest);
        lemma_escape_concat(seq![c], rest);
        assert(seq![c].drop_last() =~= Seq::<char>::empty());
        assert(seq![c].last() == c);
        assert(escape_text(Seq::<char>::empty()) =~= Seq::<char>::empty());
        assert(escape_text(seq![c]) =~= escaped_char(c));
        let e = escaped_char(c);
        let t = e + escape_text(rest);
        lemma_escape_reversible(rest);
        reveal_strlit("\\\\");
        reveal_strlit("\\\"");
        reveal_strlit("\\n");
        reveal_strlit("\\r");
        reveal_strlit("\\t");
        if e.len() == 2 {
            assert(t[0] == '\\');
            assert(t.skip(2) =~= escape_text(rest));
            assert(unescape_text(t) == seq![unescaped_char(t[1])] + unescape_text(t.skip(2)));
        } else {
            assert(e == seq![c]);
            assert(t.skip(1) =~= escape_text(rest));
            assert(c != '\\');
        }
        assert(unescape_text(t) =~= s);
    }
}

/// The JSON text of a reply.
pub open spec fn response_json(r: Response) -> Seq<char> {
    match r {
        Response::Health(h) => "{\"ok\":true,\"data\":{\"service\":\""@ + escape_text(h.service@)
            + "\",\"status\":\""@ + escape_text(h.status@) + "\",\"socket_path\":\""@ + escape_text(
            h.socket_path@,
        ) + "\"}}"@,
        Response::Error(e) => "{\"ok\":false,\"error\":{\"code\":\""@ + escape_text(e.code@)
            + "\",\"message\":\""@ + escape_text(e.message@) + "\"}}"@,
    }
}

impl Response {
    /// The healthy reply of a daemon listening at `socket_path`.
    pub fn health(socket_path: &str) -> (r: Response)
        ensures
            r matches Response::Health(h) && h.service@ == SERVICE_NAME@ && h.status@ == "ok"@
                && h.socket_path@ == socket_path@,
    {
        Response::Health(
            HealthResponse { service: SERVICE_NAME, status: "ok", socket_path: socket_path.to_owned() },
        )
    }

    /// An error reply.
    pub fn error(code: &str, message: &str) -> (r: Response)
        ensures
            r matches Response::Error(e) && e.code@ == code@ && e.message@ == message@,
    {
        Response::Error(ErrorResponse { code: code.to_owned(), message: message.to_owned() })
    }

    /// The reply as one line of JSON.
    pub fn to_json(&self) -> (r: String)
        ensures
            r@ == response_json(*self),
    {
        match self {
            Response::Health(h) => {
                let mut s = String::from_str("{\"ok\":true,\"data\":{\"service\":\"");
                s.append(escape_json(h.service).as_str());
                s.append("\",\"status\":\"");
                s.append(escape_json(h.status).as_str());
                s.append("\",\"socket_path\":\"");
                s.append(escape_json(h.socket_path.as_str()).as_str());
                s.append("\"}}");
                s
            },
            Response::Error(e) => {
                let mut s = String::from_str("{\"ok\":false,\"error\":{\"code\":\"");
                s.append(escape_json(e.code.as_str()).as_str());
                s.append("\",\"message\":\"");
                s.append(escape_json(e.message.as_str()).as_str());
                s.append("\"}}");
                s
            },
        }
    }
}

/// The socket path used when none is given.
pub fn default_socket_path() -> (r: String)
    ensures
        r@ == DEFAULT_SOCKET_PATH@,
{
    DEFAULT_SOCKET_PATH.to_owned()
}

/// Escapes backslash, quote, newline, carriage return and tab for a JSON
/// string.
pub fn escape_json(input: &str) -> (r: String)
    ensures
        r@ == escape_text(input@),
{
    let mut out = String::new();
    let n = input.unicode_len();
    let mut i: usize = 0;
    while i < n
        invariant
            n == input@.len(),
            i <= n,
            out@ == escape_text(input@.take(i as int)),
        decreases n - i,
    {
        let c = input.get_char(i);
        let ghost before = out@;
        if c == '\\' {
            out.append("\\\\");
        } else if c == '"' {
            out.append("\\\"");
        } else if c == '\n' {
            out.append("\\n");
        } else if c == '\r' {
            out.append("\\r");
        } else if c == '\t' {
            out.append("\\t");
        } else {
            out.append(input.substring_char(i, i + 1));
            assert(input@.subrange(i as int, i + 1) =~= seq![c]);
        }
        proof {
            assert(input@.take(i + 1).drop_last() =~= input@.take(i as int));
            assert(input@.take(i + 1).last() == c);
        }
        i = i + 1;
    }
    assert(input@.take(n as int) =~= input@);
    out
}

/// The lower-case hexadecimal digit of `d`.
fn hex_digit(d: u32) -> (r: &'static str)
    requires
        d < 16,
    ensures
        r@ == seq![hex_lower(d as int)],
{
    if d == 0 {
        proof {
            reveal_strlit("0");
        }
        "0"
    } else if d == 1 {
        proof {
            reveal_strlit("1");
        }
        "1"
    } else if d == 2 {
        proof {
            reveal_strlit("2");
        }
        "2"
    } else if d == 3 {
        proof {
            reveal_strlit("3");
        }
        "3"
    } else if d == 4 {
        proof {
            reveal_strlit("4");
        }
        "4"
    } else if d == 5 {
        proof {
            reveal_strlit("5");
        }
        "5"
    } else if d == 6 {
        proof {
            reveal_strlit("6");
        }
        "6"
    } else if d == 7 {
        proof {
            reveal_strlit("7");
        }
        "7"
    } else if d == 8 {
        proof {
            reveal_strlit("8");
        }
        "8"
    } else if d == 9 {
        proof {
            reveal_strlit("9");
        }
        "9"
    } else if d == 10 {
        proof {
            reveal_strlit("a");
        }
        "a"
    } else if d == 11 {
        proof {
            reveal_strlit("b");
        }
        "b"
    } else if d == 12 {
        proof {
            reveal_strlit("c");
        }
        "c"
    } else if d == 13 {
        proof {
            reveal_strlit("d");
        }
        "d"
    } else if d == 14 {
        proof {
            reveal_strlit("e");
        }
        "e"
    } else {
        proof {
            reveal_strlit("f");
        }
        "f"
    }
}

/// Escapes a text for a JSON string as `serde_json` escapes strings.
pub fn escape_json_string(input: &str) -> (r: String)
    ensures
        r@ == json_escape_text(input@),
{
    let mut out = String::new();
    let n = input.unicode_len();
    let mut i: usize = 0;
    while i < n
        invariant
            n == input@.len(),
            i <= n,
            out@ == json_escape_text(input@.take(i as int)),
        decreases n - i,
    {
        let c = input.get_char(i);
        let code = c as u32;
        proof {
            reveal_strlit("\\\\");
            reveal_strlit("\\\"");
            reveal_strlit("\\b");
            reveal_strlit("\\t");
            reveal_strlit("\\n");
            reveal_strlit("\\f");
            reveal_strlit("\\r");
            reveal_strlit("\\u00");
        }
        if c == '\\' {
            out.append("\\\\");
        } else if c == '"' {
            out.append("\\\"");
        } else if c == '\u{8}' {
            out.append("\\b");
        } else if c == '\t' {
            out.append("\\t");
        } else if c == '\n' {
            out.append("\\n");
        } else if c == '\u{c}' {
            out.append("\\f");
        } else if c == '\r' {
            out.append("\\r");
        } else if code < 0x20 {
            out.append("\\u00");
            out.append(hex_digit(code / 16));
            out.append(hex_digit(code % 16));
        } else {
            out.append(input.substring_char(i, i + 1));
            assert(input@.subrange(i as int, i + 1) =~= seq![c]);
        }
        proof {
            assert(input@.take(i + 1).drop_last() =~= input@.take(i as int));
            assert(input@.take(i + 1).last() == c);
        }
        i = i + 1;
    }
    assert(input@.take(n as int) =~= input@);
    out
}

} // verus!

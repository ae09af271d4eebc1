//! The Emacs adapter, which talks to a running Emacs through `emacsclient`.

use vstd::prelude::*;
use vstd::string::{StringExecFns, StrSliceExecFns};
use crate::chars::{is_white_space, white_space, trim, trim_text, lead_ws, trail_ws};
use crate::dag::graph::texts;
use crate::editor::{EditorCapture, Editor};

verus! {

/// Emacs editor adapter.
pub struct EmacsAdapter {
    /// The server socket `emacsclient` connects to; its default where none.
    pub socket_name: Option<String>,
}

/// Where the reader of a list is: between items, inside a bare token, or
/// inside a quoted string with the characters read so far.
pub enum ScanState {
    Between,
    Bare,
    Quoted { text: Seq<char>, escaped: bool },
}

/// The reader's state after the character `c`, with the strings `found`
/// so far. White space separates items; a quoted string ends at an
/// unescaped quote, a backslash escapes the next character; bare tokens such
/// as `nil` are skipped, and so are empty strings.
pub open spec fn scan_step(c: char, st: ScanState, found: Seq<Seq<char>>) -> (ScanState, Seq<Seq<char>>) {
    match st {
        ScanState::Between => if white_space(c) {
            (ScanState::Between, found)
        } else if c == '"' {
            (ScanState::Quoted { text: Seq::empty(), escaped: false }, found)
        } else {
            (ScanState::Bare, found)
        },
        ScanState::Bare => if white_space(c) {
            (ScanState::Between, found)
        } else {
            (ScanState::Bare, found)
        },
        ScanState::Quoted { text, escaped } => if escaped {
            (ScanState::Quoted { text: text.push(c), escaped: false }, found)
        } else if c == '\\' {
            (ScanState::Quoted { text, escaped: true }, found)
        } else if c == '"' {
            (ScanState::Between, if text.len() > 0 {
                found.push(text)
            } else {
                found
            })
        } else {
            (ScanState::Quoted { text: text.push(c), escaped: false }, found)
        },
    }
}

/// The strings found once the text ends: an unterminated quoted string
/// counts.
pub open spec fn scan_end(st: ScanState, found: Seq<Seq<char>>) -> Seq<Seq<char>> {
    match st {
        ScanState::Quoted { text, .. } => if text.len() > 0 {
            found.push(text)
        } else {
            found
        },
        _ => found,
    }
}

/// The quoted strings of `s[i..]`, read from state `st` with `found` read
/// already.
pub open spec fn scan(s: Seq<char>, i: int, st: ScanState, found: Seq<Seq<char>>) -> Seq<Seq<char>>
    decreases s.len() - i,
{
    if i < 0 || i >= s.len() {
        scan_end(st, found)
    } else {
        let next = scan_step(s[i], st, found);
        scan(s, i + 1, next.0, next.1)
    }
}

/// `t` without its surrounding parentheses, where it has both.
pub open spec fn unparenthesized(t: Seq<char>) -> Seq<char> {
    if t.len() >= 2 && t[0] == '(' && t.last() == ')' {
        t.subrange(1, t.len() - 1)
    } else {
        t
    }
}

/// The strings of an Emacs list such as `("/a/file.rs" "/b/file.txt" nil)`.
pub open spec fn elisp_strings(input: Seq<char>) -> Seq<Seq<char>> {
    scan(unparenthesized(trim_text(input)), 0, ScanState::Between, Seq::empty())
}

/// Every string read is non-empty.
proof fn lemma_scan_nonempty(s: Seq<char>, i: int, st: ScanState, found: Seq<Seq<char>>)
    requires
        forall|k: int| 0 <= k < found.len() ==> (#[trigger] found[k]).len() > 0,
    ensures
        forall|k: int| 0 <= k < scan(s, i, st, found).len() ==> (#[trigger] scan(s, i, st, found)[k]).len() > 0,
    decreases s.len() - i,
{
    if i < 0 || i >= s.len() {
        let f2 = scan_end(st, found);
        assert(scan(s, i, st, found) == f2);
        assert forall|k: int| 0 <= k < f2.len() implies (#[trigger] f2[k]).len() > 0 by {
            if k < found.len() {
                assert(f2[k] == found[k]);
            }
        }
    } else {
        let next = scan_step(s[i], st, found);
        let f2 = next.1;
        assert forall|k: int| 0 <= k < f2.len() implies (#[trigger] f2[k]).len() > 0 by {
            if k < found.len() {
                assert(f2[k] == found[k]);
            }
        }
        lemma_scan_nonempty(s, i + 1, next.0, f2);
        assert(scan(s, i, st, found) == scan(s, i + 1, next.0, f2));
    }
}

/// How Emacs prints one character of a string: `"` and `\\` behind a
/// backslash.
pub open spec fn elisp_escaped_char(c: char) -> Seq<char> {
    if c == '"' || c == '\\' {
        seq!['\\', c]
    } else {
        seq![c]
    }
}

/// How Emacs prints the characters of a string.
pub open spec fn elisp_escaped(s: Seq<char>) -> Seq<char>
    decreases s.len(),
{
    if s.len() == 0 {
        Seq::empty()
    } else {
        elisp_escaped_char(s[0]) + elisp_escaped(s.skip(1))
    }
}

/// How Emacs prints a buffer's file name: a quoted string, or `nil` for a
/// buffer without a file.
pub open spec fn elisp_item(o: Option<Seq<char>>) -> Seq<char> {
    match o {
        Some(s) => seq!['"'] + elisp_escaped(s) + seq!['"'],
        None => seq!['n', 'i', 'l'],
    }
}

/// The items of a printed list, separated by spaces.
pub open spec fn elisp_items(items: Seq<Option<Seq<char>>>) -> Seq<char>
    decreases items.len(),
{
    if items.len() == 0 {
        Seq::empty()
    } else if items.len() == 1 {
        elisp_item(items[0])
    } else {
        elisp_item(items[0]) + seq![' '] + elisp_items(items.skip(1))
    }
}

/// How Emacs prints a list of file names.
pub open spec fn elisp_list(items: Seq<Option<Seq<char>>>) -> Seq<char> {
    seq!['('] + elisp_items(items) + seq![')']
}

/// The non-empty file names of a list, in order.
pub open spec fn file_names(items: Seq<Option<Seq<char>>>) -> Seq<Seq<char>>
    decreases items.len(),
{
    if items.len() == 0 {
        Seq::empty()
    } else {
        let rest = file_names(items.skip(1));
        match items[0] {
            Some(s) => if s.len() > 0 {
                seq![s] + rest
            } else {
                rest
            },
            None => rest,
        }
    }
}

proof fn lemma_escaped_len(x: Seq<char>)
    ensures
        elisp_escaped(x).len() >= x.len(),
    decreases x.len(),
{
    if x.len() > 0 {
        lemma_escaped_len(x.skip(1));
    }
}

/// Reading a printed string's characters inside the quotes collects them.
proof fn lemma_scan_escaped(s: Seq<char>, i: int, x: Seq<char>, acc: Seq<char>, found: Seq<Seq<char>>)
    requires
        0 <= i,
        i + elisp_escaped(x).len() <= s.len(),
        s.subrange(i, i + elisp_escaped(x).len()) == elisp_escaped(x),
    ensures
        scan(s, i, ScanState::Quoted { text: acc, escaped: false }, found) == scan(
            s,
            i + elisp_escaped(x).len(),
            ScanState::Quoted { text: acc + x, escaped: false },
            found,
        ),
    decreases x.len(),
{
    let e = elisp_escaped(x);
    if x.len() == 0 {
        assert(acc + x =~= acc);
    } else {
        let c = x[0];
        let rest = x.skip(1);
        let er = elisp_escaped(rest);
        let ec = elisp_escaped_char(c);
        assert(e == ec + er);
        let k = ec.len() as int;
        assert(s.subrange(i + k, i + k + er.len()) =~= er) by {
            assert forall|t: int| 0 <= t < er.len() implies s.subrange(i + k, i + k + er.len())[t] == er[t] by {
                assert(s.subrange(i, i + e.len())[k + t] == e[k + t]);
            }
        }
        assert(s[i] == e[0]) by {
            assert(s.subrange(i, i + e.len())[0] == e[0]);
        }
        assert(acc.push(c) + rest =~= acc + x);
        if c == '"' || c == '\\' {
            assert(s[i + 1] == e[1]) by {
                assert(s.subrange(i, i + e.len())[1] == e[1]);
            }
            assert(scan(s, i, ScanState::Quoted { text: acc, escaped: false }, found) == scan(
                s,
                i + 1,
                ScanState::Quoted { text: acc, escaped: true },
                found,
            ));
            assert(scan(s, i + 1, ScanState::Quoted { text: acc, escaped: true }, found) == scan(
                s,
                i + 2,
                ScanState::Quoted { text: acc.push(c), escaped: false },
                found,
            ));
        } else {
            assert(scan(s, i, ScanState::Quoted { text: acc, escaped: false }, found) == scan(
                s,
                i + 1,
                ScanState::Quoted { text: acc.push(c), escaped: false },
                found,
            ));
        }
        lemma_scan_escaped(s, i + k, rest, acc.push(c), found);
    }
}

/// The file name read from one printed item.
pub open spec fn item_found(o: Option<Seq<char>>, found: Seq<Seq<char>>) -> Seq<Seq<char>> {
    match o {
        Some(x) => if x.len() > 0 {
            found.push(x)
        } else {
            found
        },
        None => found,
    }
}

/// Reading one printed item between items.
proof fn lemma_scan_item(s: Seq<char>, i: int, o: Option<Seq<char>>, found: Seq<Seq<char>>)
    requires
        0 <= i,
        i + elisp_item(o).len() <= s.len(),
        s.subrange(i, i + elisp_item(o).len()) == elisp_item(o),
    ensures
        scan(s, i, ScanState::Between, found) == scan(
            s,
            i + elisp_item(o).len(),
            match o {
                Some(_) => ScanState::Between,
                None => ScanState::Bare,
            },
            item_found(o, found),
        ),
{
    let it = elisp_item(o);
    assert forall|t: int| 0 <= t < it.len() implies s[i + t] == it[t] by {
        assert(s.subrange(i, i + it.len())[t] == it[t]);
    }
    match o {
        Some(x) => {
            let e = elisp_escaped(x);
            assert(it == seq!['"'] + e + seq!['"']);
            assert(it.len() == e.len() + 2);
            assert(it[0] == '"');
            assert(it[1 + e.len() as int] == '"');
            assert(forall|t: int| 0 <= t < e.len() ==> it[1 + t] == e[t]);
            assert(s[i] == it[0]);
            assert(s[i] == '"');
            assert(!white_space('"'));
            assert(scan(s, i, ScanState::Between, found) == scan(
                s,
                i + 1,
                ScanState::Quoted { text: Seq::empty(), escaped: false },
                found,
            ));
            assert(s.subrange(i + 1, i + 1 + e.len()) =~= e) by {
                assert forall|t: int| 0 <= t < e.len() implies s.subrange(i + 1, i + 1 + e.len())[t] == e[t] by {
                    assert(s[i + 1 + t] == it[1 + t]);
                }
            }
            lemma_scan_escaped(s, i + 1, x, Seq::empty(), found);
            assert(Seq::<char>::empty() + x =~= x);
            assert(s[i + 1 + e.len()] == it[1 + e.len() as int]);
            assert(scan(s, i + 1 + e.len(), ScanState::Quoted { text: x, escaped: false }, found) == scan(
                s,
                i + 2 + e.len(),
                ScanState::Between,
                item_found(o, found),
            ));
        },
        None => {
            assert(it[0] == 'n' && it[1] == 'i' && it[2] == 'l');
            assert(s[i] == it[0] && s[i + 1] == it[1] && s[i + 2] == it[2]);
            assert(s[i] == 'n' && s[i + 1] == 'i' && s[i + 2] == 'l');
            assert(!white_space('n') && !white_space('i') && !white_space('l'));
            assert(scan(s, i, ScanState::Between, found) == scan(s, i + 1, ScanState::Bare, found));
            assert(scan(s, i + 1, ScanState::Bare, found) == scan(s, i + 2, ScanState::Bare, found));
            assert(scan(s, i + 2, ScanState::Bare, found) == scan(s, i + 3, ScanState::Bare, found));
        },
    }
}

proof fn lemma_file_names_found(items: Seq<Option<Seq<char>>>, found: Seq<Seq<char>>)
    requires
        items.len() > 0,
    ensures
        item_found(items[0], found) + file_names(items.skip(1)) == found + file_names(items),
{
    let rest = file_names(items.skip(1));
    match items[0] {
        Some(x) => if x.len() > 0 {
            assert(found.push(x) + rest =~= found + (seq![x] + rest));
        } else {
        },
        None => {},
    }
}

/// Reading printed items that run to the end of the text.
proof fn lemma_scan_items(s: Seq<char>, i: int, items: Seq<Option<Seq<char>>>, found: Seq<Seq<char>>)
    requires
        0 <= i,
        i + elisp_items(items).len() == s.len(),
        s.subrange(i, s.len() as int) == elisp_items(items),
    ensures
        scan(s, i, ScanState::Between, found) == found + file_names(items),
    decreases items.len(),
{
    let text = elisp_items(items);
    if items.len() == 0 {
        assert(found + file_names(items) =~= found);
    } else {
        let o = items[0];
        let it = elisp_item(o);
        let n = it.len() as int;
        if items.len() == 1 {
            assert(text == it);
        } else {
            assert(text == it + seq![' '] + elisp_items(items.skip(1)));
        }
        assert(s.subrange(i, i + n) =~= it) by {
            assert forall|t: int| 0 <= t < n implies s.subrange(i, i + n)[t] == it[t] by {
                assert(s.subrange(i, s.len() as int)[t] == text[t]);
            }
        }
        lemma_scan_item(s, i, o, found);
        let st = match o {
            Some(_) => ScanState::Between,
            None => ScanState::Bare,
        };
        let f2 = item_found(o, found);
        lemma_file_names_found(items, found);
        if items.len() == 1 {
            assert(i + n == s.len());
            assert(items.skip(1).len() == 0);
            assert(file_names(items.skip(1)) =~= Seq::<Seq<char>>::empty());
            assert(f2 + file_names(items.skip(1)) =~= f2);
        } else {
            let rest_text = elisp_items(items.skip(1));
            assert(s[i + n] == ' ') by {
                assert(s.subrange(i, s.len() as int)[n] == text[n]);
            }
            assert(white_space(' '));
            assert(scan(s, i + n, st, f2) == scan(s, i + n + 1, ScanState::Between, f2));
            assert(s.subrange(i + n + 1, s.len() as int) =~= rest_text) by {
                assert forall|t: int| 0 <= t < rest_text.len() implies s.subrange(i + n + 1, s.len() as int)[t]
                    == rest_text[t] by {
                    assert(s.subrange(i, s.len() as int)[n + 1 + t] == text[n + 1 + t]);
                }
            }
            lemma_scan_items(s, i + n + 1, items.skip(1), f2);
        }
    }
}

/// Reading back what Emacs prints for a list of buffer file names gives the
/// file names, in order; `nil` entries and empty names are skipped.
pub proof fn lemma_elisp_list_round_trip(items: Seq<Option<Seq<char>>>)
    ensures
        elisp_strings(elisp_list(items)) == file_names(items),
{
    let l = elisp_list(items);
    let body = elisp_items(items);
    assert(l[0] == '(');
    assert(l.last() == ')');
    assert(!white_space('(') && !white_space(')'));
    assert(lead_ws(l) == 0);
    assert(l.skip(0) =~= l);
    assert(trail_ws(l) == 0);
    assert(l.take(l.len() as int) =~= l);
    assert(trim_text(l) == l);
    assert(unparenthesized(l) =~= body);
    assert(body.subrange(0, body.len() as int) =~= body);
    lemma_scan_items(body, 0, items, Seq::empty());
    assert(Seq::<Seq<char>>::empty() + file_names(items) =~= file_names(items));
}

/// The arguments that select the adapter's socket, where it names one.
pub open spec fn socket_args(socket_name: Option<String>) -> Seq<Seq<char>> {
    match socket_name {
        Some(s) => seq!["--socket-name"@, s@],
        None => Seq::<Seq<char>>::empty(),
    }
}

/// The state recorded when `emacsclient` did not answer.
pub open spec fn client_missing_state() -> Seq<char> {
    "{\"error\":\"emacsclient not available\"}"@
}

impl EmacsAdapter {
    /// An adapter for the socket named by `EMACS_SOCKET_NAME`, given as the
    /// variable's value (`None` where it is unset).
    pub fn new(env_socket_name: Option<String>) -> (a: EmacsAdapter)
        ensures
            a.socket_name == env_socket_name,
    {
        EmacsAdapter { socket_name: env_socket_name }
    }

    /// An adapter for an explicit socket name.
    pub fn with_socket(name: &str) -> (a: EmacsAdapter)
        ensures
            a.socket_name matches Some(s) && s@ == name@,
    {
        EmacsAdapter { socket_name: Some(name.to_owned()) }
    }

    /// The arguments of an `emacsclient` call: the socket option where there
    /// is a socket name, then `extra_args`.
    pub fn client_args(&self, extra_args: &[&str]) -> (r: Vec<String>)
        ensures
            texts(r@) == match self.socket_name {
                Some(s) => seq!["--socket-name"@, s@],
                None => Seq::<Seq<char>>::empty(),
            } + extra_args@.map_values(|a: &str| a@),
    {
        let mut r: Vec<String> = Vec::new();
        match &self.socket_name {
            Some(s) => {
                r.push("--socket-name".to_owned());
                r.push(s.clone());
            },
            None => {},
        }
        let ghost head = texts(r@);
        let mut i: usize = 0;
        while i < extra_args.len()
            invariant
                i <= extra_args@.len(),
                texts(r@) == head + extra_args@.take(i as int).map_values(|a: &str| a@),
            decreases extra_args@.len() - i,
        {
            let ghost before = r@;
            r.push(extra_args[i].to_owned());
            proof {
                assert(texts(r@) =~= texts(before).push(extra_args@[i as int]@));
                assert(extra_args@.take(i + 1).map_values(|a: &str| a@) =~= extra_args@.take(
                    i as int,
                ).map_values(|a: &str| a@).push(extra_args@[i as int]@));
                assert(texts(r@) =~= head + extra_args@.take(i + 1).map_values(|a: &str| a@));
            }
            i = i + 1;
        }
        assert(extra_args@.take(i as int) =~= extra_args@);
        r
    }

    /// The arguments of the `emacsclient` call that lists the files of the
    /// open buffers.
    pub fn capture_args(&self) -> (r: Vec<String>)
        ensures
            texts(r@) == socket_args(self.socket_name) + seq!["--eval"@, "(mapcar 'buffer-file-name (buffer-list))"@],
    {
        let r = self.client_args(&["--eval", "(mapcar 'buffer-file-name (buffer-list))"]);
        proof {
            reveal_strlit("--eval");
            reveal_strlit("(mapcar 'buffer-file-name (buffer-list))");
        }
        r
    }

    /// The capture of an Emacs session in working directory `cwd`, given
    /// what `emacsclient` printed for the buffers' files (`None` where it
    /// is missing, failed or timed out): the files of that list, or none
    /// and an error state.
    pub fn capture_from(cwd: String, reply: Option<&str>) -> (c: EditorCapture)
        ensures
            c.editor_name@ == "emacs"@,
            c.cwd@ == cwd@,
            match reply {
                Some(out) => texts(c.open_files@) == elisp_strings(out@) && c.raw_state@ == "{}"@,
                None => c.open_files@.len() == 0 && c.raw_state@ == client_missing_state(),
            },
    {
        match reply {
            Some(out) => EditorCapture {
                editor_name: "emacs".to_owned(),
                cwd,
                open_files: Self::parse_elisp_list(out),
                raw_state: "{}".to_owned(),
            },
            None => EditorCapture {
                editor_name: "emacs".to_owned(),
                cwd,
                open_files: Vec::new(),
                raw_state: "{\"error\":\"emacsclient not available\"}".to_owned(),
            },
        }
    }

    /// The `emacsclient` calls that restore a capture: one per open file,
    /// without waiting, in order.
    pub fn restore_calls(&self, capture: &EditorCapture) -> (r: Vec<Vec<String>>)
        ensures
            r@.len() == capture.open_files@.len(),
            forall|i: int|
                0 <= i < r@.len() ==> texts((#[trigger] r@[i])@) == socket_args(self.socket_name) + seq![
                    "--no-wait"@,
                    capture.open_files@[i]@,
                ],
    {
        let mut r: Vec<Vec<String>> = Vec::new();
        let mut i: usize = 0;
        while i < capture.open_files.len()
            invariant
                i <= capture.open_files@.len(),
                r@.len() == i,
                forall|j: int|
                    0 <= j < i ==> texts((#[trigger] r@[j])@) == socket_args(self.socket_name) + seq![
                        "--no-wait"@,
                        capture.open_files@[j]@,
                    ],
            decreases capture.open_files@.len() - i,
        {
            let call = self.client_args(&["--no-wait", capture.open_files[i].as_str()]);
            proof {
                reveal_strlit("--no-wait");
            }
            r.push(call);
            i = i + 1;
        }
        r
    }

    /// Reads the strings of an Emacs list such as
    /// `("/a/file.rs" "/b/file.txt" nil)`: `nil` entries (buffers without a
    /// file) and other bare tokens are skipped.
    pub fn parse_elisp_list(input: &str) -> (r: Vec<String>)
        ensures
            texts(r@) == elisp_strings(input@),
            forall|k: int| 0 <= k < r@.len() ==> (#[trigger] r@[k])@.len() > 0,
    {
        let t = trim(input);
        let n = t.unicode_len();
        let (lo, hi) = if n >= 2 && t.get_char(0) == '(' && t.get_char(n - 1) == ')' {
            (1, n - 1)
        } else {
            (0, n)
        };
        let ghost s = unparenthesized(t@);
        assert(s =~= t@.subrange(lo as int, hi as int));
        let mut result: Vec<String> = Vec::new();
        let mut bare = false;
        let mut quoted = false;
        let mut escaped = false;
        let mut text = String::new();
        let mut i: usize = lo;
        assert(texts(result@) =~= Seq::<Seq<char>>::empty());
        while i < hi
            invariant
                lo <= i <= hi <= n,
                n == t@.len(),
                s == t@.subrange(lo as int, hi as int),
                !(bare && quoted),
                !quoted ==> !escaped,
                scan(s, 0, ScanState::Between, Seq::empty()) == scan(
                    s,
                    i - lo,
                    if quoted {
                        ScanState::Quoted { text: text@, escaped }
                    } else if bare {
                        ScanState::Bare
                    } else {
                        ScanState::Between
                    },
                    texts(result@),
                ),
            decreases hi - i,
        {
            let c = t.get_char(i);
            assert(s[i - lo] == c);
            let ghost before = texts(result@);
            let ghost st0 = if quoted {
                ScanState::Quoted { text: text@, escaped }
            } else if bare {
                ScanState::Bare
            } else {
                ScanState::Between
            };
            if quoted {
                if escaped {
                    let ghost old_text = text@;
                    text.append(t.substring_char(i, i + 1));
                    assert(t@.subrange(i as int, i + 1) =~= seq![c]);
                    assert(text@ =~= old_text.push(c));
                    escaped = false;
                } else if c == '\\' {
                    escaped = true;
                } else if c == '"' {
                    if text.unicode_len() > 0 {
                        result.push(text);
                        assert(texts(result@) =~= before.push(text@));
                    }
                    text = String::new();
                    quoted = false;
                } else {
                    let ghost old_text = text@;
                    text.append(t.substring_char(i, i + 1));
                    assert(t@.subrange(i as int, i + 1) =~= seq![c]);
                    assert(text@ =~= old_text.push(c));
                }
            } else if bare {
                if is_white_space(c) {
                    bare = false;
                }
            } else {
                if is_white_space(c) {
                } else if c == '"' {
                    quoted = true;
                    text = String::new();
                } else {
                    bare = true;
                }
            }
            proof {
                let st1 = if quoted {
                    ScanState::Quoted { text: text@, escaped }
                } else if bare {
                    ScanState::Bare
                } else {
                    ScanState::Between
                };
                assert(scan(s, i - lo, st0, before) == scan(s, i - lo + 1, st1, texts(result@)));
            }
            i = i + 1;
        }
        if quoted && text.unicode_len() > 0 {
            let ghost before = texts(result@);
            result.push(text);
            assert(texts(result@) =~= before.push(text@));
        }
        proof {
            lemma_scan_nonempty(s, 0, ScanState::Between, Seq::empty());
            assert forall|k: int| 0 <= k < result@.len() implies (#[trigger] result@[k])@.len() > 0 by {
                assert(texts(result@)[k] == result@[k]@);
            }
        }
        result
    }
}

impl Editor for EmacsAdapter {
    fn editor_name(&self) -> (r: &str)
        ensures
            r@ == "emacs"@,
    {
        "emacs"
    }
}

} // verus!

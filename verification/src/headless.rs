//! Headless (CI) mode: a batch of verbs read from a JSON file or standard
//! input, and their results written as JSON lines.
//!
//! Reading the batch, asking the store and writing each result as JSON are
//! done by the caller.

use vstd::prelude::*;
use vstd::string::StringExecFns;
use crate::chars::same_text;
use crate::dag::graph::texts;

verus! {

/// One command of a batch.
#[derive(Debug, Clone)]
pub struct HeadlessCommand {
    /// The verb to run.
    pub verb: String,
    /// Its body, as JSON text.
    pub body: String,
}

/// The result of one command.
#[derive(Debug, Clone)]
pub struct HeadlessResult {
    /// The verb that ran.
    pub verb: String,
    /// Whether it succeeded.
    pub success: bool,
    /// Its reply, as JSON text.
    pub body: String,
    /// What went wrong, where it failed.
    pub error: Option<String>,
}

/// A batch of commands.
#[derive(Debug, Clone)]
pub struct HeadlessBatch {
    pub commands: Vec<HeadlessCommand>,
}

impl HeadlessBatch {
    /// The batch of one command.
    pub fn from_single(verb: &str, body: String) -> (b: HeadlessBatch)
        ensures
            b.commands@.len() == 1,
            b.commands@[0].verb@ == verb@,
            b.commands@[0].body@ == body@,
    {
        HeadlessBatch { commands: vec![HeadlessCommand { verb: verb.to_owned(), body }] }
    }
}

/// The message of a verb that headless mode does not run.
pub open spec fn unsupported_message(verb: Seq<char>) -> Seq<char> {
    "verb not supported in headless mode: "@ + verb
}

/// The result of a command that headless mode answers without the store:
/// every verb but `workspace.list` fails, with a null body. `None` for
/// `workspace.list`, which the store answers.
pub fn answer_without_store(cmd: &HeadlessCommand) -> (r: Option<HeadlessResult>)
    ensures
        cmd.verb@ == "workspace.list"@ <==> r is None,
        r matches Some(res) ==> {
            &&& res.verb@ == cmd.verb@
            &&& !res.success
            &&& res.body@ == "null"@
            &&& res.error matches Some(m) && m@ == unsupported_message(cmd.verb@)
        },
{
    if same_text(cmd.verb.as_str(), "workspace.list") {
        None
    } else {
        let mut m = String::from_str("verb not supported in headless mode: ");
        m.append(cmd.verb.as_str());
        Some(HeadlessResult { verb: cmd.verb.clone(), success: false, body: "null".to_owned(), error: Some(m) })
    }
}

/// What the store answered to a listing of its workspaces: the rows as JSON
/// text, or the store's error message.
pub open spec fn listing_view(listing: Result<String, String>) -> Result<Seq<char>, Seq<char>> {
    match listing {
        Ok(rows) => Ok(rows@),
        Err(m) => Err(m@),
    }
}

/// Whether `r` is the result of `cmd`, the store having answered `listing`
/// to a listing of its workspaces: `workspace.list` gives the rows or the
/// store's error; every other verb fails as unsupported.
pub open spec fn is_result_of(cmd: HeadlessCommand, listing: Result<Seq<char>, Seq<char>>, r: HeadlessResult) -> bool {
    &&& r.verb@ == cmd.verb@
    &&& if cmd.verb@ == "workspace.list"@ {
        match listing {
            Ok(rows) => r.success && r.body@ == rows && r.error is None,
            Err(m) => !r.success && r.body@ == "null"@ && (r.error matches Some(e) && e@ == m),
        }
    } else {
        !r.success && r.body@ == "null"@ && (r.error matches Some(e) && e@ == unsupported_message(cmd.verb@))
    }
}

/// The result of one command, the store having answered `listing` to a
/// listing of its workspaces.
pub fn execute_one(cmd: &HeadlessCommand, listing: &Result<String, String>) -> (r: HeadlessResult)
    ensures
        is_result_of(*cmd, listing_view(*listing), r),
{
    match answer_without_store(cmd) {
        Some(res) => res,
        None => match listing {
            Ok(rows) => HeadlessResult { verb: cmd.verb.clone(), success: true, body: rows.clone(), error: None },
            Err(m) => HeadlessResult {
                verb: cmd.verb.clone(),
                success: false,
                body: "null".to_owned(),
                error: Some(m.clone()),
            },
        },
    }
}

/// The results of a batch, one per command and in order. Headless mode
/// only reads the store, so one listing of its workspaces, `listing`,
/// answers every `workspace.list` of the batch.
pub fn execute_batch(batch: &HeadlessBatch, listing: &Result<String, String>) -> (r: Vec<HeadlessResult>)
    ensures
        r@.len() == batch.commands@.len(),
        forall|i: int| 0 <= i < r@.len() ==> is_result_of(batch.commands@[i], listing_view(*listing), #[trigger] r@[i]),
{
    let mut r: Vec<HeadlessResult> = Vec::new();
    let mut i: usize = 0;
    while i < batch.commands.len()
        invariant
            i <= batch.commands@.len(),
            r@.len() == i,
            forall|j: int| 0 <= j < i ==> is_result_of(batch.commands@[j], listing_view(*listing), #[trigger] r@[j]),
        decreases batch.commands@.len() - i,
    {
        let res = execute_one(&batch.commands[i], listing);
        r.push(res);
        i = i + 1;
    }
    r
}

/// `lines` joined by newlines.
pub open spec fn newline_joined(lines: Seq<Seq<char>>) -> Seq<char>
    decreases lines.len(),
{
    if lines.len() == 0 {
        Seq::empty()
    } else if lines.len() == 1 {
        lines[0]
    } else {
        newline_joined(lines.drop_last()) + "\n"@ + lines.last()
    }
}

/// The results, each already written as one line of JSON, as
/// newline-delimited JSON.
pub fn results_to_ndjson(lines: &[String]) -> (r: String)
    ensures
        r@ == newline_joined(texts(lines@)),
{
    let mut r = String::new();
    let ghost t = texts(lines@);
    let mut i: usize = 0;
    while i < lines.len()
        invariant
            i <= lines@.len(),
            t == texts(lines@),
            r@ == newline_joined(t.take(i as int)),
        decreases lines@.len() - i,
    {
        let ghost before = r@;
        if i > 0 {
            r.append("\n");
        }
        r.append(lines[i].as_str());
        proof {
            let u = t.take(i + 1);
            assert(u.drop_last() =~= t.take(i as int));
            assert(u.last() == lines@[i as int]@);
            if i == 0 {
                assert(r@ =~= u[0]);
            }
        }
        i = i + 1;
    }
    assert(t.take(i as int) =~= t);
    r
}

} // verus!

//! The command line of the workspace manager, `muxon`.

pub mod doctor;

use vstd::prelude::*;
use vstd::string::StrSliceExecFns;
use crate::chars::{same_text, starts_with_text};

verus! {

/// The parsed command line.
#[derive(Debug, Clone)]
pub struct Cli {
    /// Workspace directory (`--dir`).
    pub dir: Option<String>,
    /// Output as JSON (`--json`).
    pub json: bool,
    /// Socket path for daemon communication (`--socket`).
    pub socket: Option<String>,
    /// The subcommand.
    pub command: Commands,
}

/// The subcommands.
#[derive(Debug, Clone, Copy, PartialEq, Eq, Structural)]
pub enum Commands {
    /// Health check.
    Doctor,
    /// Save workspace state.
    Save,
    /// Restore workspace state.
    Restore,
    /// Show the workspace tree (not yet implemented).
    Tree,
    /// Event streaming.
    Events(EventsWrapper),
    /// Workspace management.
    Workspace(WorkspaceWrapper),
}

/// The `events` subcommand and its own subcommand.
#[derive(Debug, Clone, Copy, PartialEq, Eq, Structural)]
pub struct EventsWrapper {
    pub cmd: EventsCmd,
}

/// The `workspace` subcommand and its own subcommand.
#[derive(Debug, Clone, Copy, PartialEq, Eq, Structural)]
pub struct WorkspaceWrapper {
    pub cmd: WorkspaceCmd,
}

/// Subcommands of `events`.
#[derive(Debug, Clone, Copy, PartialEq, Eq, Structural)]
pub enum EventsCmd {
    /// Tail the event stream.
    Tail,
}

/// Subcommands of `workspace`.
#[derive(Debug, Clone, Copy, PartialEq, Eq, Structural)]
pub enum WorkspaceCmd {
    /// Create a workspace.
    Create,
    /// Show a workspace.
    Get,
    /// List workspaces.
    List,
}

/// Why a command line was refused.
#[derive(Debug, Clone, Copy, PartialEq, Eq, Structural)]
pub enum CliErrorKind {
    /// Help was asked for (`--help`, `-h`, `help`).
    Help,
    /// No subcommand (or no subcommand of `events` / `workspace`) was given.
    MissingSubcommand,
    /// An option or subcommand that does not exist.
    UnknownArgument,
    /// A word after the subcommand is complete.
    UnexpectedArgument,
    /// An option that takes a value was given none.
    MissingValue,
    /// An option was given twice.
    RepeatedArgument,
}

/// A refused command line: why, and the argument at fault (empty where
/// none is).
#[derive(Debug, Clone)]
pub struct CliError {
    pub kind: CliErrorKind,
    pub argument: String,
}

/// How far the subcommand has been read.
#[derive(Debug, Clone, Copy, PartialEq, Eq, Structural)]
pub enum Stage {
    /// No subcommand yet.
    Top,
    /// `events`, waiting for its subcommand.
    Events,
    /// `workspace`, waiting for its subcommand.
    Workspace,
    /// The subcommand is complete.
    Chosen(Commands),
}

/// The options and subcommand read so far.
pub type CliModel = (Option<Seq<char>>, bool, Option<Seq<char>>, Commands);

/// A value of an option: not empty, and not an option itself.
pub open spec fn is_value(v: Seq<char>) -> bool {
    v.len() > 0 && v[0] != '-'
}

/// The stage after the word `w`, or the refusal of `w`.
pub open spec fn word_step(stage: Stage, w: Seq<char>) -> Result<Stage, CliErrorKind> {
    match stage {
        Stage::Top => if w == "doctor"@ {
            Ok(Stage::Chosen(Commands::Doctor))
        } else if w == "save"@ {
            Ok(Stage::Chosen(Commands::Save))
        } else if w == "restore"@ {
            Ok(Stage::Chosen(Commands::Restore))
        } else if w == "tree"@ {
            Ok(Stage::Chosen(Commands::Tree))
        } else if w == "events"@ {
            Ok(Stage::Events)
        } else if w == "workspace"@ {
            Ok(Stage::Workspace)
        } else if w == "help"@ {
            Err(CliErrorKind::Help)
        } else {
            Err(CliErrorKind::UnknownArgument)
        },
        Stage::Events => if w == "tail"@ {
            Ok(Stage::Chosen(Commands::Events(EventsWrapper { cmd: EventsCmd::Tail })))
        } else if w == "help"@ {
            Err(CliErrorKind::Help)
        } else {
            Err(CliErrorKind::UnknownArgument)
        },
        Stage::Workspace => if w == "create"@ {
            Ok(Stage::Chosen(Commands::Workspace(WorkspaceWrapper { cmd: WorkspaceCmd::Create })))
        } else if w == "get"@ {
            Ok(Stage::Chosen(Commands::Workspace(WorkspaceWrapper { cmd: WorkspaceCmd::Get })))
        } else if w == "list"@ {
            Ok(Stage::Chosen(Commands::Workspace(WorkspaceWrapper { cmd: WorkspaceCmd::List })))
        } else if w == "help"@ {
            Err(CliErrorKind::Help)
        } else {
            Err(CliErrorKind::UnknownArgument)
        },
        Stage::Chosen(_) => Err(CliErrorKind::UnexpectedArgument),
    }
}

/// The command line `args[i..]`, read with the options and stage so far.
///
/// `--dir`, `--json` and `--socket` may stand anywhere, each at most once;
/// `--dir` and `--socket` take the next argument (`--dir PATH`) or the text
/// after `=` (`--dir=PATH`) as their value. The first word is the
/// subcommand (`doctor`, `save`, `restore`, `tree`, `events`, `workspace`);
/// `events` and `workspace` take one more word (`tail`; `create`, `get`,
/// `list`). The first argument at fault decides the refusal.
pub open spec fn cli_scan(
    args: Seq<Seq<char>>,
    i: int,
    dir: Option<Seq<char>>,
    json: bool,
    socket: Option<Seq<char>>,
    stage: Stage,
) -> Result<CliModel, (CliErrorKind, Seq<char>)>
    decreases args.len() - i,
{
    if i < 0 || i >= args.len() {
        match stage {
            Stage::Chosen(c) => Ok((dir, json, socket, c)),
            _ => Err((CliErrorKind::MissingSubcommand, Seq::empty())),
        }
    } else {
        let t = args[i];
        if t == "--help"@ || t == "-h"@ {
            Err((CliErrorKind::Help, t))
        } else if t == "--json"@ {
            if json {
                Err((CliErrorKind::RepeatedArgument, t))
            } else {
                cli_scan(args, i + 1, dir, true, socket, stage)
            }
        } else if t == "--dir"@ {
            if i + 1 >= args.len() || !is_value(args[i + 1]) {
                Err((CliErrorKind::MissingValue, t))
            } else if dir is Some {
                Err((CliErrorKind::RepeatedArgument, t))
            } else {
                cli_scan(args, i + 2, Some(args[i + 1]), json, socket, stage)
            }
        } else if t == "--socket"@ {
            if i + 1 >= args.len() || !is_value(args[i + 1]) {
                Err((CliErrorKind::MissingValue, t))
            } else if socket is Some {
                Err((CliErrorKind::RepeatedArgument, t))
            } else {
                cli_scan(args, i + 2, dir, json, Some(args[i + 1]), stage)
            }
        } else if t.len() >= 6 && t.take(6) == "--dir="@ {
            if t.len() == 6 {
                Err((CliErrorKind::MissingValue, "--dir"@))
            } else if dir is Some {
                Err((CliErrorKind::RepeatedArgument, "--dir"@))
            } else {
                cli_scan(args, i + 1, Some(t.skip(6)), json, socket, stage)
            }
        } else if t.len() >= 9 && t.take(9) == "--socket="@ {
            if t.len() == 9 {
                Err((CliErrorKind::MissingValue, "--socket"@))
            } else if socket is Some {
                Err((CliErrorKind::RepeatedArgument, "--socket"@))
            } else {
                cli_scan(args, i + 1, dir, json, Some(t.skip(9)), stage)
            }
        } else if t.len() > 1 && t[0] == '-' {
            Err((CliErrorKind::UnknownArgument, t))
        } else {
            match word_step(stage, t) {
                Ok(next) => cli_scan(args, i + 1, dir, json, socket, next),
                Err(kind) => Err((kind, t)),
            }
        }
    }
}

/// The texts of the arguments.
pub open spec fn arg_texts(args: Seq<&str>) -> Seq<Seq<char>> {
    args.map_values(|a: &str| a@)
}

/// What a command line means: its first argument is the program's name.
pub open spec fn cli_parse(args: Seq<&str>) -> Result<CliModel, (CliErrorKind, Seq<char>)> {
    cli_scan(arg_texts(args), 1, None, false, None, Stage::Top)
}

/// The words that name a command on the command line: the subcommand, and
/// for `events` and `workspace` the subcommand's own word.
pub open spec fn command_words(c: Commands) -> Seq<Seq<char>> {
    match c {
        Commands::Doctor => seq!["doctor"@],
        Commands::Save => seq!["save"@],
        Commands::Restore => seq!["restore"@],
        Commands::Tree => seq!["tree"@],
        Commands::Events(e) => match e.cmd {
            EventsCmd::Tail => seq!["events"@, "tail"@],
        },
        Commands::Workspace(w) => match w.cmd {
            WorkspaceCmd::Create => seq!["workspace"@, "create"@],
            WorkspaceCmd::Get => seq!["workspace"@, "get"@],
            WorkspaceCmd::List => seq!["workspace"@, "list"@],
        },
    }
}

/// The arguments of `args[i..]` that are no option and no option's value:
/// `--dir` and `--socket` take the argument after them, and any other
/// argument that starts with `-` is an option of its own.
pub open spec fn plain_words(args: Seq<Seq<char>>, i: int) -> Seq<Seq<char>>
    decreases args.len() + 1 - i,
{
    if i < 0 || i >= args.len() {
        Seq::empty()
    } else if args[i] == "--dir"@ || args[i] == "--socket"@ {
        plain_words(args, i + 2)
    } else if args[i].len() > 0 && args[i][0] == '-' {
        plain_words(args, i + 1)
    } else {
        seq![args[i]] + plain_words(args, i + 1)
    }
}

/// The words read so far at a stage.
spec fn stage_words(stage: Stage) -> Seq<Seq<char>> {
    match stage {
        Stage::Top => Seq::empty(),
        Stage::Events => seq!["events"@],
        Stage::Workspace => seq!["workspace"@],
        Stage::Chosen(c) => command_words(c),
    }
}

proof fn lemma_word_step_words(stage: Stage, w: Seq<char>)
    requires
        word_step(stage, w) is Ok,
    ensures
        stage_words(stage).push(w) == stage_words(word_step(stage, w)->Ok_0),
        w.len() > 0 && w[0] != '-',
{
    reveal_strlit("doctor");
    reveal_strlit("save");
    reveal_strlit("restore");
    reveal_strlit("tree");
    reveal_strlit("events");
    reveal_strlit("workspace");
    reveal_strlit("tail");
    reveal_strlit("create");
    reveal_strlit("get");
    reveal_strlit("list");
    assert(Seq::<Seq<char>>::empty().push(w) =~= seq![w]);
    assert(seq!["events"@].push(w) =~= seq!["events"@, w]);
    assert(seq!["workspace"@].push(w) =~= seq!["workspace"@, w]);
}

proof fn lemma_scan_words(
    args: Seq<Seq<char>>,
    i: int,
    dir: Option<Seq<char>>,
    json: bool,
    socket: Option<Seq<char>>,
    stage: Stage,
)
    requires
        1 <= i,
        cli_scan(args, i, dir, json, socket, stage) is Ok,
    ensures
        stage_words(stage) + plain_words(args, i) == command_words(cli_scan(args, i, dir, json, socket, stage)->Ok_0.3),
    decreases args.len() - i,
{
    reveal_strlit("--dir");
    reveal_strlit("--socket");
    reveal_strlit("--dir=");
    reveal_strlit("--socket=");
    reveal_strlit("--json");
    if i >= args.len() {
        assert(stage_words(stage) + Seq::<Seq<char>>::empty() =~= stage_words(stage));
    } else {
        let t = args[i];
        if t == "--help"@ || t == "-h"@ {
        } else if t == "--json"@ {
            lemma_scan_words(args, i + 1, dir, true, socket, stage);
        } else if t == "--dir"@ {
            lemma_scan_words(args, i + 2, Some(args[i + 1]), json, socket, stage);
        } else if t == "--socket"@ {
            lemma_scan_words(args, i + 2, dir, json, Some(args[i + 1]), stage);
        } else if t.len() >= 6 && t.take(6) == "--dir="@ {
            assert(t[0] == t.take(6)[0]);
            lemma_scan_words(args, i + 1, Some(t.skip(6)), json, socket, stage);
        } else if t.len() >= 9 && t.take(9) == "--socket="@ {
            assert(t[0] == t.take(9)[0]);
            lemma_scan_words(args, i + 1, dir, json, Some(t.skip(9)), stage);
        } else if t.len() > 1 && t[0] == '-' {
        } else {
            let next = word_step(stage, t)->Ok_0;
            lemma_word_step_words(stage, t);
            lemma_scan_words(args, i + 1, dir, json, socket, next);
            assert(plain_words(args, i) == seq![t] + plain_words(args, i + 1));
            assert(stage_words(stage) + (seq![t] + plain_words(args, i + 1)) =~= stage_words(stage).push(t)
                + plain_words(args, i + 1));
        }
    }
}

/// A parsed command line names its command by its words: the arguments
/// after the program's name that are no option and no option's value are
/// exactly the words of the command (`save` for `Save`, `workspace list`
/// for the listing of workspaces, and so on).
pub proof fn lemma_parsed_command_is_named_by_its_words(args: Seq<&str>)
    requires
        cli_parse(args) is Ok,
    ensures
        plain_words(arg_texts(args), 1) == command_words(cli_parse(args)->Ok_0.3),
{
    lemma_scan_words(arg_texts(args), 1, None, false, None, Stage::Top);
    assert(Seq::<Seq<char>>::empty() + plain_words(arg_texts(args), 1) =~= plain_words(arg_texts(args), 1));
}

/// Each command's words, after the program's name and with nothing else,
/// parse as that command: `muxon save` is `Save`, `muxon restore` is
/// `Restore`, `muxon workspace list` lists workspaces, and so on.
pub proof fn lemma_command_words_parse(args: Seq<&str>, c: Commands)
    requires
        args.len() >= 1,
        arg_texts(args).skip(1) == command_words(c),
    ensures
        cli_parse(args) == Ok::<CliModel, (CliErrorKind, Seq<char>)>((None, false, None, c)),
{
    reveal_strlit("doctor");
    reveal_strlit("save");
    reveal_strlit("restore");
    reveal_strlit("tree");
    reveal_strlit("events");
    reveal_strlit("workspace");
    reveal_strlit("tail");
    reveal_strlit("create");
    reveal_strlit("get");
    reveal_strlit("list");
    reveal_strlit("help");
    reveal_strlit("--help");
    reveal_strlit("-h");
    reveal_strlit("--json");
    reveal_strlit("--dir");
    reveal_strlit("--socket");
    reveal_strlit("--dir=");
    reveal_strlit("--socket=");
    let a = arg_texts(args);
    let w = command_words(c);
    assert(a.len() == w.len() + 1);
    assert(a[1] == w[0]);
    if w.len() == 2 {
        assert(a[2] == w[1]);
    }
    assert(a[1].len() < 6 || a[1].take(6) != "--dir="@) by {
        if a[1].len() >= 6 {
            assert(a[1].take(6)[0] != '-');
        }
    }
    assert(a[1].len() < 9 || a[1].take(9) != "--socket="@) by {
        if a[1].len() >= 9 {
            assert(a[1].take(9)[0] != '-');
        }
    }
    let s1 = word_step(Stage::Top, a[1]);
    assert(s1 is Ok);
    assert(cli_scan(a, 1, None, false, None, Stage::Top) == cli_scan(a, 2, None, false, None, s1->Ok_0));
    if w.len() == 2 {
        assert(a[2].len() < 6 || a[2].take(6) != "--dir="@) by {
            if a[2].len() >= 6 {
                assert(a[2].take(6)[0] != '-');
            }
        }
        assert(a[2].len() < 9 || a[2].take(9) != "--socket="@) by {
            if a[2].len() >= 9 {
                assert(a[2].take(9)[0] != '-');
            }
        }
        let s2 = word_step(s1->Ok_0, a[2]);
        assert(s2 == Ok::<Stage, CliErrorKind>(Stage::Chosen(c)));
        assert(cli_scan(a, 2, None, false, None, s1->Ok_0) == cli_scan(a, 3, None, false, None, Stage::Chosen(c)));
    } else {
        assert(s1 == Ok::<Stage, CliErrorKind>(Stage::Chosen(c)));
    }
}

/// The text of an optional value.
pub open spec fn opt_text(o: Option<String>) -> Option<Seq<char>> {
    match o {
        Some(s) => Some(s@),
        None => None,
    }
}

/// The stage after the word `w`.
fn word_stage(stage: Stage, w: &str) -> (r: Result<Stage, CliErrorKind>)
    ensures
        r == word_step(stage, w@),
{
    match stage {
        Stage::Top => if same_text(w, "doctor") {
            Ok(Stage::Chosen(Commands::Doctor))
        } else if same_text(w, "save") {
            Ok(Stage::Chosen(Commands::Save))
        } else if same_text(w, "restore") {
            Ok(Stage::Chosen(Commands::Restore))
        } else if same_text(w, "tree") {
            Ok(Stage::Chosen(Commands::Tree))
        } else if same_text(w, "events") {
            Ok(Stage::Events)
        } else if same_text(w, "workspace") {
            Ok(Stage::Workspace)
        } else if same_text(w, "help") {
            Err(CliErrorKind::Help)
        } else {
            Err(CliErrorKind::UnknownArgument)
        },
        Stage::Events => if same_text(w, "tail") {
            Ok(Stage::Chosen(Commands::Events(EventsWrapper { cmd: EventsCmd::Tail })))
        } else if same_text(w, "help") {
            Err(CliErrorKind::Help)
        } else {
            Err(CliErrorKind::UnknownArgument)
        },
        Stage::Workspace => if same_text(w, "create") {
            Ok(Stage::Chosen(Commands::Workspace(WorkspaceWrapper { cmd: WorkspaceCmd::Create })))
        } else if same_text(w, "get") {
            Ok(Stage::Chosen(Commands::Workspace(WorkspaceWrapper { cmd: WorkspaceCmd::Get })))
        } else if same_text(w, "list") {
            Ok(Stage::Chosen(Commands::Workspace(WorkspaceWrapper { cmd: WorkspaceCmd::List })))
        } else if same_text(w, "help") {
            Err(CliErrorKind::Help)
        } else {
            Err(CliErrorKind::UnknownArgument)
        },
        Stage::Chosen(_) => Err(CliErrorKind::UnexpectedArgument),
    }
}

/// Whether `v` can be an option's value.
fn is_option_value(v: &str) -> (r: bool)
    ensures
        r == is_value(v@),
{
    v.unicode_len() > 0 && v.get_char(0) != '-'
}

/// A refusal.
fn refuse(kind: CliErrorKind, argument: &str) -> (e: CliError)
    ensures
        e.kind == kind,
        e.argument@ == argument@,
{
    CliError { kind, argument: argument.to_owned() }
}

impl Cli {
    /// Parses a command line whose first argument is the program's name.
    pub fn try_parse_from(args: &[&str]) -> (r: Result<Cli, CliError>)
        ensures
            match cli_parse(args@) {
                Ok(m) => r matches Ok(c) && opt_text(c.dir) == m.0 && c.json == m.1 && opt_text(c.socket)
                    == m.2 && c.command == m.3,
                Err(e) => r matches Err(x) && x.kind == e.0 && x.argument@ == e.1,
            },
    {
        let ghost a = arg_texts(args@);
        let mut dir: Option<String> = None;
        let mut json = false;
        let mut socket: Option<String> = None;
        let mut stage = Stage::Top;
        let mut i: usize = 1;
        while i < args.len()
            invariant
                1 <= i,
                a == arg_texts(args@),
                cli_parse(args@) == cli_scan(a, i as int, opt_text(dir), json, opt_text(socket), stage),
            decreases args@.len() - i,
        {
            let t = args[i];
            assert(a[i as int] == t@);
            if same_text(t, "--help") || same_text(t, "-h") {
                return Err(refuse(CliErrorKind::Help, t));
            } else if same_text(t, "--json") {
                if json {
                    return Err(refuse(CliErrorKind::RepeatedArgument, t));
                }
                json = true;
                i = i + 1;
            } else if same_text(t, "--dir") {
                if i + 1 >= args.len() || !is_option_value(args[i + 1]) {
                    return Err(refuse(CliErrorKind::MissingValue, t));
                }
                if dir.is_some() {
                    return Err(refuse(CliErrorKind::RepeatedArgument, t));
                }
                assert(a[i + 1] == args@[i + 1]@);
                dir = Some(args[i + 1].to_owned());
                i = i + 2;
            } else if same_text(t, "--socket") {
                if i + 1 >= args.len() || !is_option_value(args[i + 1]) {
                    return Err(refuse(CliErrorKind::MissingValue, t));
                }
                if socket.is_some() {
                    return Err(refuse(CliErrorKind::RepeatedArgument, t));
                }
                assert(a[i + 1] == args@[i + 1]@);
                socket = Some(args[i + 1].to_owned());
                i = i + 2;
            } else if starts_with_text(t, "--dir=") {
                proof {
                    reveal_strlit("--dir=");
                }
                let n = t.unicode_len();
                if n == 6 {
                    return Err(refuse(CliErrorKind::MissingValue, "--dir"));
                }
                if dir.is_some() {
                    return Err(refuse(CliErrorKind::RepeatedArgument, "--dir"));
                }
                dir = Some(t.substring_char(6, n).to_owned());
                assert(t@.subrange(6, n as int) =~= t@.skip(6));
                i = i + 1;
            } else if starts_with_text(t, "--socket=") {
                proof {
                    reveal_strlit("--socket=");
                }
                let n = t.unicode_len();
                if n == 9 {
                    return Err(refuse(CliErrorKind::MissingValue, "--socket"));
                }
                if socket.is_some() {
                    return Err(refuse(CliErrorKind::RepeatedArgument, "--socket"));
                }
                socket = Some(t.substring_char(9, n).to_owned());
                assert(t@.subrange(9, n as int) =~= t@.skip(9));
                i = i + 1;
            } else if t.unicode_len() > 1 && t.get_char(0) == '-' {
                return Err(refuse(CliErrorKind::UnknownArgument, t));
            } else {
                match word_stage(stage, t) {
                    Ok(next) => {
                        stage = next;
                        i = i + 1;
                    },
                    Err(kind) => {
                        return Err(refuse(kind, t));
                    },
                }
            }
        }
        match stage {
            Stage::Chosen(command) => Ok(Cli { dir, json, socket, command }),
            _ => {
                proof {
                    reveal_strlit("");
                }
                Err(refuse(CliErrorKind::MissingSubcommand, ""))
            },
        }
    }
}

} // verus!

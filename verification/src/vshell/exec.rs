//! Interpreter.
//!
//! Runs the built-ins in process. Where a script needs the operating system (a file, a
//! directory, a child process) the run stops with the `Action` it needs; running the
//! script again with the answer added to the list of replies carries it on. A run is thus
//! a function of the shell state, the script and the replies.

use std::sync::atomic::AtomicBool;
use std::sync::Arc;

use vstd::prelude::*;
use vstd::utf8::*;

use super::lex::{bodies_below, parse_error, word_view, Part, Word, WordPart};
use super::parse::{
    argv_view, assigns_view, chain_below, command_below, items_view, parse, pipeline_below,
    redir_below, redirects_view, script_items, tail_view, unit_below, units_below, Chain, Command,
    Item, Pipeline, Redir, Redirect, SeqOp, Sequence, SimpleCommand, Unit,
};
use super::{fault_text, Fault, ShellError};
use crate::paths::{path_for, path_in};
use crate::table::{copy_texts, Names, Table};
use crate::text::{
    bytes_copy, chars_of, dec, find_char, lemma_encode_concat, maybe, parse_i32, push_bytes,
    push_dec, push_text, readable, seek_char, signed_value, text_eq, text_of, texts, utf8_lossy,
};

verus! {

/// Cap on what is captured of each stream of a child.
pub const OUTPUT_CAP_BYTES: usize = 8388608;

/// Time that a child may take where nothing else is set.
pub const DEFAULT_TIMEOUT_SECS: u64 = 300;

/// A span of time.
#[derive(Debug, Clone, Copy, PartialEq, Eq, Structural)]
pub struct Span {
    pub secs: u64,
    pub nanos: u32,
}

/// How a file is opened.
#[derive(Debug, Clone, Copy, PartialEq, Eq, Structural)]
pub enum OpenMode {
    /// Created or truncated, for writing.
    Create,
    /// Created where it is missing, written at its end.
    Append,
    /// Opened for reading; it has to exist.
    Read,
    /// Written at its end; it has to exist.
    AppendExisting,
}

/// What a child reads.
#[derive(Debug)]
pub enum ChildInput {
    Null,
    Bytes(Vec<u8>),
    /// The file that the reply with this index opened.
    File(usize),
}

/// A child process to run.
#[derive(Debug)]
pub struct ChildSpec {
    pub program: String,
    pub args: Vec<String>,
    pub cwd: String,
    /// The whole environment of the child.
    pub env: Table<String>,
    pub stdin: ChildInput,
    /// The file that takes the output, by the index of the reply that opened it; captured
    /// where there is none.
    pub stdout: Option<usize>,
    pub stderr: Option<usize>,
}

/// What the shell needs from the operating system.
#[derive(Debug)]
pub enum Action {
    /// Resolve a directory to its canonical path.
    Canonicalize(String),
    Open { path: String, mode: OpenMode },
    /// Write to the file that the reply with index `file` opened.
    Write { file: usize, data: Vec<u8> },
    Spawn(ChildSpec),
}

/// How a child came to its end.
#[derive(Debug, Clone, Copy, PartialEq, Eq, Structural)]
pub enum ChildOutcome {
    Exited(i32),
    TimedOut,
    Cancelled,
    StdoutOverflow,
    StderrOverflow,
}

/// The operating system's answer to an `Action`.
#[derive(Debug)]
pub enum Reply {
    /// It failed, with this error text.
    Failed(String),
    /// It was done.
    Done,
    /// The canonical path.
    Path(String),
    /// The child ran.
    Child { outcome: ChildOutcome, stdout: Vec<u8>, stderr: Vec<u8> },
}

/// Mathematical form of a `ChildInput`.
pub enum Input {
    Null,
    Bytes(Seq<u8>),
    File(int),
}

/// Mathematical form of an `Action`.
pub enum Need {
    Canonicalize(Seq<char>),
    Open { path: Seq<char>, mode: OpenMode },
    Write { file: int, data: Seq<u8> },
    Spawn {
        program: Seq<char>,
        args: Seq<Seq<char>>,
        cwd: Seq<char>,
        env: Map<Seq<char>, Seq<char>>,
        stdin: Input,
        stdout: Option<int>,
        stderr: Option<int>,
    },
}

/// Mathematical form of a `Reply`.
pub enum Answer {
    Failed(Seq<char>),
    Done,
    Path(Seq<char>),
    Child { outcome: ChildOutcome, stdout: Seq<u8>, stderr: Seq<u8> },
}

/// A table of texts as a map.
pub open spec fn text_map(m: Map<Seq<char>, String>) -> Map<Seq<char>, Seq<char>> {
    Map::new(|k: Seq<char>| m.contains_key(k), |k: Seq<char>| m[k]@)
}

/// A file index as a number.
pub open spec fn slot(f: Option<usize>) -> Option<int> {
    match f {
        Some(n) => Some(n as int),
        None => None,
    }
}

impl View for ChildInput {
    type V = Input;

    open spec fn view(&self) -> Input {
        match *self {
            ChildInput::Null => Input::Null,
            ChildInput::Bytes(b) => Input::Bytes(b@),
            ChildInput::File(n) => Input::File(n as int),
        }
    }
}

impl View for Action {
    type V = Need;

    open spec fn view(&self) -> Need {
        match *self {
            Action::Canonicalize(p) => Need::Canonicalize(p@),
            Action::Open { path, mode } => Need::Open { path: path@, mode },
            Action::Write { file, data } => Need::Write { file: file as int, data: data@ },
            Action::Spawn(c) => Need::Spawn {
                program: c.program@,
                args: texts(c.args@),
                cwd: c.cwd@,
                env: text_map(c.env@),
                stdin: c.stdin@,
                stdout: slot(c.stdout),
                stderr: slot(c.stderr),
            },
        }
    }
}

impl View for Reply {
    type V = Answer;

    open spec fn view(&self) -> Answer {
        match *self {
            Reply::Failed(m) => Answer::Failed(m@),
            Reply::Done => Answer::Done,
            Reply::Path(p) => Answer::Path(p@),
            Reply::Child { outcome, stdout, stderr } => Answer::Child {
                outcome,
                stdout: stdout@,
                stderr: stderr@,
            },
        }
    }
}

/// Mathematical form of a list of replies.
pub open spec fn answers(r: Seq<Reply>) -> Seq<Answer> {
    Seq::new(r.len(), |i: int| r[i]@)
}

/// Mathematical form of the shell's variables and place.
pub struct Shell {
    pub cwd: Seq<char>,
    pub env: Map<Seq<char>, Seq<char>>,
    pub exported: Set<Seq<char>>,
    pub last_exit: i32,
}

/// A run in progress: the shell, what was written so far, how many replies were used and
/// the time a child may take.
pub struct World {
    pub sh: Shell,
    pub out: Seq<u8>,
    pub err: Seq<u8>,
    pub used: int,
    pub timeout_secs: int,
}

/// What a step of a run comes to.
pub enum Run<T> {
    Done(T, World),
    Fail(Fault, World),
    Need(Need),
}

/// Whether a script goes on behind a command or is left.
#[derive(Clone, Copy)]
pub enum Flow {
    Done(i32),
    Exit(i32),
}

// ---------------------------------------------------------------------------------
// Meaning of the pieces
// ---------------------------------------------------------------------------------
/// Takes the next reply as the answer to `need`.
pub open spec fn ask(w: World, rs: Seq<Answer>, need: Need) -> Run<Answer> {
    if 0 <= w.used < rs.len() {
        Run::Done(rs[w.used], World { used: w.used + 1, ..w })
    } else {
        Run::Need(need)
    }
}

/// A text without its trailing newlines.
pub open spec fn strip_newlines(s: Seq<char>) -> Seq<char>
    decreases s.len(),
{
    if s.len() > 0 && s.last() == '\n' {
        strip_newlines(s.drop_last())
    } else {
        s
    }
}

/// A line of error output.
pub open spec fn line(s: Seq<char>) -> Seq<u8> {
    encode_utf8(s + "\n"@)
}

pub open spec fn with_err(w: World, more: Seq<u8>) -> World {
    World { err: w.err + more, ..w }
}

pub open spec fn set_var(sh: Shell, k: Seq<char>, v: Seq<char>) -> Shell {
    Shell { env: sh.env.insert(k, v), ..sh }
}

/// Sets the variables of a list from `i` on.
pub open spec fn set_vars(sh: Shell, l: Seq<(Seq<char>, Seq<char>)>, i: int) -> Shell
    decreases l.len() - i,
{
    if i < 0 || i >= l.len() {
        sh
    } else {
        set_vars(set_var(sh, l[i].0, l[i].1), l, i + 1)
    }
}

/// Sets the entries of a list from `i` on in a map.
pub open spec fn overlay(
    m: Map<Seq<char>, Seq<char>>,
    l: Seq<(Seq<char>, Seq<char>)>,
    i: int,
) -> Map<Seq<char>, Seq<char>>
    decreases l.len() - i,
{
    if i < 0 || i >= l.len() {
        m
    } else {
        overlay(m.insert(l[i].0, l[i].1), l, i + 1)
    }
}

/// The environment of a child: the exported variables that are set, and over them the
/// assignments in front of the command.
pub open spec fn child_env(sh: Shell, local: Seq<(Seq<char>, Seq<char>)>) -> Map<
    Seq<char>,
    Seq<char>,
> {
    overlay(sh.env.restrict(sh.exported), local, 0)
}

pub open spec fn has_merge(r: Seq<Redir>) -> bool {
    exists|i: int| 0 <= i < r.len() && (#[trigger] r[i]) is Err2Out
}

/// Expands a word where no command may be run.
pub open spec fn expand_plain(sh: Shell, parts: Seq<Part>, k: int, acc: Seq<char>) -> Result<
    Seq<char>,
    Fault,
>
    decreases parts.len() - k,
{
    if k < 0 || k >= parts.len() {
        Ok(acc)
    } else {
        match parts[k] {
            Part::Literal(s) => expand_plain(sh, parts, k + 1, acc + s),
            Part::Var(name) => if sh.env.contains_key(name) {
                expand_plain(sh, parts, k + 1, acc + sh.env[name])
            } else {
                expand_plain(sh, parts, k + 1, acc)
            },
            Part::CmdSub(_) => Err(
                Fault::Parse { msg: "command substitution not allowed here"@, pos: 0 },
            ),
        }
    }
}

/// Opens a file for a redirection: the index of the reply that opened it.
pub open spec fn open_file(w: World, rs: Seq<Answer>, path: Seq<char>, mode: OpenMode) -> Run<int> {
    match ask(w, rs, Need::Open { path, mode }) {
        Run::Done(a, w2) => match a {
            Answer::Failed(m) => Run::Fail(Fault::Io(m), w2),
            _ => Run::Done(w.used, w2),
        },
        Run::Fail(e, w2) => Run::Fail(e, w2),
        Run::Need(n) => Run::Need(n),
    }
}

/// Touches the targets of the redirections of a command without a name.
pub open spec fn touch(w: World, rs: Seq<Answer>, r: Seq<Redir>, k: int) -> Run<()>
    decreases r.len() - k,
{
    if k < 0 || k >= r.len() {
        Run::Done((), w)
    } else {
        let (word, mode) = match r[k] {
            Redir::StdoutTrunc(x) => (Some(x), OpenMode::Create),
            Redir::StderrTrunc(x) => (Some(x), OpenMode::Create),
            Redir::StdoutAppend(x) => (Some(x), OpenMode::Append),
            Redir::StderrAppend(x) => (Some(x), OpenMode::Append),
            _ => (None, OpenMode::Read),
        };
        match word {
            None => touch(w, rs, r, k + 1),
            Some(x) => match expand_plain(w.sh, x, 0, Seq::empty()) {
                Err(e) => Run::Fail(e, w),
                Ok(p) => match open_file(w, rs, path_in(w.sh.cwd, p), mode) {
                    Run::Done(_, w2) => touch(w2, rs, r, k + 1),
                    Run::Fail(e, w2) => Run::Fail(e, w2),
                    Run::Need(n) => Run::Need(n),
                },
            },
        }
    }
}

/// Where the streams of a command go.
pub struct Wiring {
    pub stdin: Option<Seq<char>>,
    pub stdout: Option<int>,
    pub stderr: Option<int>,
}

pub open spec fn unwired() -> Wiring {
    Wiring { stdin: None, stdout: None, stderr: None }
}

/// The arguments from `i` on, each behind a space but for the first.
pub open spec fn spaced(argv: Seq<Seq<char>>, start: int, i: int) -> Seq<u8>
    decreases i - start,
{
    if i <= start {
        Seq::empty()
    } else if i == start + 1 {
        encode_utf8(argv[start])
    } else {
        spaced(argv, start, i - 1) + encode_utf8(" "@) + encode_utf8(argv[i - 1])
    }
}

/// Output of `echo`.
pub open spec fn echo_output(argv: Seq<Seq<char>>) -> Seq<u8> {
    if argv.len() > 1 && argv[1] == "-n"@ {
        spaced(argv, 2, argv.len() as int)
    } else {
        spaced(argv, 1, argv.len() as int) + encode_utf8("\n"@)
    }
}

/// What a built-in produced: its output, its error output and its exit code.
pub struct Told {
    pub out: Seq<u8>,
    pub err: Seq<u8>,
    pub code: i32,
}

pub open spec fn told(code: i32) -> Told {
    Told { out: Seq::empty(), err: Seq::empty(), code }
}

pub open spec fn complaint(s: Seq<char>) -> Told {
    Told { out: Seq::empty(), err: line(s), code: 1 }
}

/// `cd`
pub open spec fn cd(w: World, rs: Seq<Answer>, argv: Seq<Seq<char>>) -> Run<Told> {
    if argv.len() <= 1 && !w.sh.env.contains_key("HOME"@) {
        Run::Done(complaint("cd: HOME not set"@), w)
    } else {
        let dir = path_in(
            w.sh.cwd,
            if argv.len() <= 1 {
                w.sh.env["HOME"@]
            } else {
                argv[1]
            },
        );
        match ask(w, rs, Need::Canonicalize(dir)) {
            Run::Done(a, w2) => match a {
                Answer::Path(p) => Run::Done(
                    told(0),
                    World { sh: Shell { cwd: p, ..w2.sh }, ..w2 },
                ),
                Answer::Failed(m) => Run::Done(complaint("cd: "@ + dir + ": "@ + m), w2),
                _ => Run::Done(complaint("cd: "@ + dir + ": "@), w2),
            },
            Run::Fail(e, w2) => Run::Fail(e, w2),
            Run::Need(n) => Run::Need(n),
        }
    }
}

/// `export`, from argument `k` on.
pub open spec fn export(sh: Shell, argv: Seq<Seq<char>>, k: int) -> (Told, Shell)
    decreases argv.len() - k,
{
    if k < 0 || k >= argv.len() {
        (told(0), sh)
    } else {
        let a = argv[k];
        let eq = seek_char(a, 0, '=');
        if eq == 0 && a.len() > 0 {
            (complaint("export: invalid name"@), sh)
        } else if eq < a.len() {
            let sh2 = set_var(sh, a.take(eq), a.skip(eq + 1));
            export(Shell { exported: sh2.exported.insert(a.take(eq)), ..sh2 }, argv, k + 1)
        } else {
            export(Shell { exported: sh.exported.insert(a), ..sh }, argv, k + 1)
        }
    }
}

/// `unset`, from argument `k` on.
pub open spec fn unset(sh: Shell, argv: Seq<Seq<char>>, k: int) -> Shell
    decreases argv.len() - k,
{
    if k < 0 || k >= argv.len() {
        sh
    } else {
        unset(
            Shell { env: sh.env.remove(argv[k]), exported: sh.exported.remove(argv[k]), ..sh },
            argv,
            k + 1,
        )
    }
}

pub open spec fn is_builtin(name: Seq<char>) -> bool {
    name == "echo"@ || name == "pwd"@ || name == "cd"@ || name == "export"@ || name == "unset"@
        || name == "exit"@ || name == "true"@ || name == "false"@ || name == ":"@
}

/// Runs a built-in other than `exit`. The ones that change the shell refuse to run inside
/// a pipeline.
pub open spec fn run_told(w: World, rs: Seq<Answer>, argv: Seq<Seq<char>>, piped: bool) -> Run<
    Told,
> {
    let name = argv[0];
    if name == "echo"@ {
        Run::Done(Told { out: echo_output(argv), ..told(0) }, w)
    } else if name == "pwd"@ {
        Run::Done(Told { out: line(w.sh.cwd), ..told(0) }, w)
    } else if name == "cd"@ {
        if piped {
            Run::Done(complaint("cd: not supported inside a pipeline"@), w)
        } else {
            cd(w, rs, argv)
        }
    } else if name == "export"@ {
        if piped {
            Run::Done(complaint("export: not supported inside a pipeline"@), w)
        } else if argv.len() == 1 {
            Run::Done(complaint("export: missing argument"@), w)
        } else {
            let (t, sh) = export(w.sh, argv, 1);
            Run::Done(t, World { sh, ..w })
        }
    } else if name == "unset"@ {
        if piped {
            Run::Done(complaint("unset: not supported inside a pipeline"@), w)
        } else {
            Run::Done(told(0), World { sh: unset(w.sh, argv, 1), ..w })
        }
    } else if name == "false"@ {
        Run::Done(told(1), w)
    } else {
        Run::Done(told(0), w)
    }
}

/// Exit code that `exit` asks for.
pub open spec fn exit_code(sh: Shell, argv: Seq<Seq<char>>) -> i32 {
    if argv.len() > 1 {
        match signed_value(argv[1], i32::MIN as int, i32::MAX as int) {
            Some(n) => n as i32,
            None => 2,
        }
    } else {
        sh.last_exit
    }
}

/// Sends what a built-in produced to where its streams go.
pub open spec fn route(w: World, rs: Seq<Answer>, wiring: Wiring, merge: bool, t: Told) -> Run<
    Flow,
> {
    match route_out(w, rs, wiring.stdout, merge, t) {
        Run::Done(err, w2) => match wiring.stderr {
            Some(file) => match ask(w2, rs, Need::Write { file, data: err }) {
                Run::Done(_, w3) => Run::Done(Flow::Done(t.code), w3),
                Run::Fail(e, w3) => Run::Fail(e, w3),
                Run::Need(n) => Run::Need(n),
            },
            None => Run::Done(Flow::Done(t.code), with_err(w2, err)),
        },
        Run::Fail(e, w2) => Run::Fail(e, w2),
        Run::Need(n) => Run::Need(n),
    }
}

/// Sends the output, and merged error output with it; the error output that is left.
pub open spec fn route_out(
    w: World,
    rs: Seq<Answer>,
    stdout: Option<int>,
    merge: bool,
    t: Told,
) -> Run<Seq<u8>> {
    match stdout {
        Some(file) => match ask(w, rs, Need::Write { file, data: t.out }) {
            Run::Done(_, w2) => if merge {
                match ask(w2, rs, Need::Write { file, data: t.err }) {
                    Run::Done(_, w3) => Run::Done(Seq::empty(), w3),
                    Run::Fail(e, w3) => Run::Fail(e, w3),
                    Run::Need(n) => Run::Need(n),
                }
            } else {
                Run::Done(t.err, w2)
            },
            Run::Fail(e, w2) => Run::Fail(e, w2),
            Run::Need(n) => Run::Need(n),
        },
        None => if merge {
            Run::Done(Seq::empty(), World { out: w.out + t.out + t.err, ..w })
        } else {
            Run::Done(t.err, World { out: w.out + t.out, ..w })
        },
    }
}

/// What becomes of a child's answer. `merging` sends its captured error output to the
/// output.
pub open spec fn child_result(w: World, name: Seq<char>, merging: bool, a: Answer) -> (i32, World) {
    let who = "vshell: "@ + name + ": "@;
    match a {
        Answer::Child { outcome, stdout, stderr } => match outcome {
            ChildOutcome::Exited(code) => (
                code,
                if merging {
                    World { out: w.out + stdout + stderr, ..w }
                } else {
                    World { out: w.out + stdout, err: w.err + stderr, ..w }
                },
            ),
            ChildOutcome::TimedOut => (
                124,
                with_err(
                    w,
                    line(
                        who + "killed after "@ + dec(w.timeout_secs as nat) + "s timeout"@,
                    ),
                ),
            ),
            ChildOutcome::Cancelled => (130, with_err(w, line(who + "cancelled"@))),
            ChildOutcome::StdoutOverflow => (
                1,
                with_err(w, line(who + "stdout exceeded 8 MiB cap"@)),
            ),
            ChildOutcome::StderrOverflow => (
                1,
                with_err(w, line(who + "stderr exceeded 8 MiB cap"@)),
            ),
        },
        Answer::Failed(m) => (127, with_err(w, line(who + m))),
        _ => (127, with_err(w, line(who))),
    }
}

// ---------------------------------------------------------------------------------
// Meaning of a script
//
// The functions below call one another; `n` bounds the length of the `$(...)` bodies.
// ---------------------------------------------------------------------------------
/// Expands a word from part `k` on.
pub open spec fn expand(
    w: World,
    rs: Seq<Answer>,
    n: nat,
    parts: Seq<Part>,
    k: int,
    acc: Seq<char>,
) -> Run<Seq<char>>
    decreases n, 1nat, parts.len() - k,
{
    if k < 0 || k >= parts.len() {
        Run::Done(acc, w)
    } else {
        match parts[k] {
            Part::Literal(s) => expand(w, rs, n, parts, k + 1, acc + s),
            Part::Var(name) => if w.sh.env.contains_key(name) {
                expand(w, rs, n, parts, k + 1, acc + w.sh.env[name])
            } else {
                expand(w, rs, n, parts, k + 1, acc)
            },
            Part::CmdSub(body) => if encode_utf8(body).len() < n {
                match script(World { out: Seq::empty(), err: Seq::empty(), ..w }, rs, body) {
                    Run::Done(code, w2) => expand(
                        World {
                            sh: Shell { last_exit: code, ..w2.sh },
                            out: w.out,
                            err: w.err + w2.err,
                            ..w2
                        },
                        rs,
                        n,
                        parts,
                        k + 1,
                        acc + strip_newlines(readable(w2.out)),
                    ),
                    Run::Fail(e, w2) => Run::Fail(
                        e,
                        World {
                            out: w.out,
                            err: w.err + line("vshell: $(): "@ + fault_text(e)),
                            ..w2
                        },
                    ),
                    Run::Need(need) => Run::Need(need),
                }
            } else {
                // Not reached: a body is shorter than the script it is cut from.
                Run::Done(acc, w)
            },
        }
    }
}

/// Expands the values of the assignments from `k` on.
pub open spec fn expand_assigns(
    w: World,
    rs: Seq<Answer>,
    n: nat,
    l: Seq<(Seq<char>, Seq<Part>)>,
    k: int,
    acc: Seq<(Seq<char>, Seq<char>)>,
) -> Run<Seq<(Seq<char>, Seq<char>)>>
    decreases n, 2nat, l.len() - k,
{
    if k < 0 || k >= l.len() {
        Run::Done(acc, w)
    } else {
        match expand(w, rs, n, l[k].1, 0, Seq::empty()) {
            Run::Done(v, w2) => expand_assigns(w2, rs, n, l, k + 1, acc.push((l[k].0, v))),
            Run::Fail(e, w2) => Run::Fail(e, w2),
            Run::Need(need) => Run::Need(need),
        }
    }
}

/// Expands the words of a command from `k` on.
pub open spec fn expand_argv(
    w: World,
    rs: Seq<Answer>,
    n: nat,
    l: Seq<Seq<Part>>,
    k: int,
    acc: Seq<Seq<char>>,
) -> Run<Seq<Seq<char>>>
    decreases n, 2nat, l.len() - k,
{
    if k < 0 || k >= l.len() {
        Run::Done(acc, w)
    } else {
        match expand(w, rs, n, l[k], 0, Seq::empty()) {
            Run::Done(v, w2) => expand_argv(w2, rs, n, l, k + 1, acc.push(v)),
            Run::Fail(e, w2) => Run::Fail(e, w2),
            Run::Need(need) => Run::Need(need),
        }
    }
}

/// The word and the way of opening of a redirection.
pub open spec fn redir_target(r: Redir) -> Option<(Seq<Part>, OpenMode)> {
    match r {
        Redir::StdoutTrunc(x) => Some((x, OpenMode::Create)),
        Redir::StderrTrunc(x) => Some((x, OpenMode::Create)),
        Redir::StdoutAppend(x) => Some((x, OpenMode::Append)),
        Redir::StderrAppend(x) => Some((x, OpenMode::Append)),
        Redir::Stdin(x) => Some((x, OpenMode::Read)),
        Redir::Err2Out => None,
    }
}

/// Resolves the redirections from `k` on: files to write are opened, the file to read is
/// only named.
pub open spec fn resolve(
    w: World,
    rs: Seq<Answer>,
    n: nat,
    r: Seq<Redir>,
    k: int,
    acc: Wiring,
) -> Run<Wiring>
    decreases n, 2nat, r.len() - k,
{
    if k < 0 || k >= r.len() {
        Run::Done(acc, w)
    } else {
        match redir_target(r[k]) {
            None => resolve(w, rs, n, r, k + 1, acc),
            Some((x, mode)) => match expand(w, rs, n, x, 0, Seq::empty()) {
                Run::Done(p, w2) => {
                    let path = path_in(w2.sh.cwd, p);
                    if mode == OpenMode::Read {
                        resolve(w2, rs, n, r, k + 1, Wiring { stdin: Some(path), ..acc })
                    } else {
                        match open_file(w2, rs, path, mode) {
                            Run::Done(file, w3) => if r[k] is StdoutTrunc || r[k]
                                is StdoutAppend {
                                resolve(w3, rs, n, r, k + 1, Wiring { stdout: Some(file), ..acc })
                            } else {
                                resolve(w3, rs, n, r, k + 1, Wiring { stderr: Some(file), ..acc })
                            },
                            Run::Fail(e, w3) => Run::Fail(e, w3),
                            Run::Need(need) => Run::Need(need),
                        }
                    }
                },
                Run::Fail(e, w2) => Run::Fail(e, w2),
                Run::Need(need) => Run::Need(need),
            },
        }
    }
}

/// Runs a built-in.
pub open spec fn builtin(
    w: World,
    rs: Seq<Answer>,
    n: nat,
    argv: Seq<Seq<char>>,
    r: Seq<Redir>,
    piped: bool,
) -> Run<Flow>
    decreases n, 3nat, 0nat,
{
    match resolve(w, rs, n, r, 0, unwired()) {
        Run::Done(wiring, w2) => if argv[0] == "exit"@ {
            Run::Done(Flow::Exit(exit_code(w2.sh, argv)), w2)
        } else {
            match run_told(w2, rs, argv, piped) {
                Run::Done(t, w3) => route(w3, rs, wiring, has_merge(r), t),
                Run::Fail(e, w3) => Run::Fail(e, w3),
                Run::Need(need) => Run::Need(need),
            }
        },
        Run::Fail(e, w2) => Run::Fail(e, w2),
        Run::Need(need) => Run::Need(need),
    }
}

/// Position of the first redirection of the output at or after `k`.
pub open spec fn first_out(r: Seq<Redir>, k: int) -> int
    decreases r.len() - k,
{
    if k < 0 || k >= r.len() || r[k] is StdoutTrunc || r[k] is StdoutAppend {
        k
    } else {
        first_out(r, k + 1)
    }
}

/// Where the error output of a child goes. With `2>&1` and the output in a file, that file
/// is opened once more.
pub open spec fn child_stderr(
    w: World,
    rs: Seq<Answer>,
    n: nat,
    r: Seq<Redir>,
    wiring: Wiring,
) -> Run<Option<int>>
    decreases n, 2nat, 0nat,
{
    if wiring.stderr is Some || !has_merge(r) || wiring.stdout is None {
        Run::Done(wiring.stderr, w)
    } else {
        let k = first_out(r, 0);
        if 0 <= k < r.len() {
            match expand(w, rs, n, redir_target(r[k]).unwrap().0, 0, Seq::empty()) {
                Run::Done(p, w2) => match open_file(
                    w2,
                    rs,
                    path_in(w2.sh.cwd, p),
                    OpenMode::AppendExisting,
                ) {
                    Run::Done(file, w3) => Run::Done(Some(file), w3),
                    Run::Fail(e, w3) => Run::Fail(e, w3),
                    Run::Need(need) => Run::Need(need),
                },
                Run::Fail(e, w2) => Run::Fail(e, w2),
                Run::Need(need) => Run::Need(need),
            }
        } else {
            Run::Done(None, w)
        }
    }
}

/// What a child reads.
pub open spec fn child_stdin(
    w: World,
    rs: Seq<Answer>,
    file: Option<Seq<char>>,
    stdin: Option<Seq<u8>>,
) -> Run<Input> {
    match file {
        Some(path) => match open_file(w, rs, path, OpenMode::Read) {
            Run::Done(f, w2) => Run::Done(Input::File(f), w2),
            Run::Fail(e, w2) => Run::Fail(e, w2),
            Run::Need(need) => Run::Need(need),
        },
        None => match stdin {
            Some(b) => if b.len() > 0 {
                Run::Done(Input::Bytes(b), w)
            } else {
                Run::Done(Input::Null, w)
            },
            None => Run::Done(Input::Null, w),
        },
    }
}

/// Runs a command that is not a built-in.
pub open spec fn external(
    w: World,
    rs: Seq<Answer>,
    n: nat,
    argv: Seq<Seq<char>>,
    local: Seq<(Seq<char>, Seq<char>)>,
    r: Seq<Redir>,
    wiring: Wiring,
    stdin: Option<Seq<u8>>,
) -> Run<Flow>
    decreases n, 3nat, 0nat,
{
    let env = child_env(w.sh, local);
    let cwd = w.sh.cwd;
    match child_stdin(w, rs, wiring.stdin, stdin) {
        Run::Done(input, w2) => match child_stderr(w2, rs, n, r, wiring) {
            Run::Done(err, w3) => {
                let need = Need::Spawn {
                    program: argv[0],
                    args: argv.skip(1),
                    cwd,
                    env,
                    stdin: input,
                    stdout: wiring.stdout,
                    stderr: err,
                };
                match ask(w3, rs, need) {
                    Run::Done(a, w4) => {
                        let merging = has_merge(r) && wiring.stdout is None;
                        let (code, w5) = child_result(w4, argv[0], merging, a);
                        Run::Done(Flow::Done(code), w5)
                    },
                    Run::Fail(e, w4) => Run::Fail(e, w4),
                    Run::Need(m) => Run::Need(m),
                }
            },
            Run::Fail(e, w3) => Run::Fail(e, w3),
            Run::Need(need) => Run::Need(need),
        },
        Run::Fail(e, w2) => Run::Fail(e, w2),
        Run::Need(need) => Run::Need(need),
    }
}

/// Runs a simple command. Inside a pipeline `stdin` holds the output of the stage before.
pub open spec fn simple(
    w: World,
    rs: Seq<Answer>,
    n: nat,
    c: Command,
    stdin: Option<Seq<u8>>,
) -> Run<Flow>
    decreases n, 4nat, 0nat,
{
    match expand_assigns(w, rs, n, c.assigns, 0, Seq::empty()) {
        Run::Done(local, w2) => if c.argv.len() == 0 {
            match touch(World { sh: set_vars(w2.sh, local, 0), ..w2 }, rs, c.redirects, 0) {
                Run::Done(_, w3) => Run::Done(Flow::Done(0), w3),
                Run::Fail(e, w3) => Run::Fail(e, w3),
                Run::Need(need) => Run::Need(need),
            }
        } else {
            match expand_argv(w2, rs, n, c.argv, 0, Seq::empty()) {
                Run::Done(argv, w3) => match resolve(w3, rs, n, c.redirects, 0, unwired()) {
                    Run::Done(wiring, w4) => if is_builtin(argv[0]) {
                        builtin(w4, rs, n, argv, c.redirects, stdin is Some)
                    } else {
                        external(w4, rs, n, argv, local, c.redirects, wiring, stdin)
                    },
                    Run::Fail(e, w4) => Run::Fail(e, w4),
                    Run::Need(need) => Run::Need(need),
                },
                Run::Fail(e, w3) => Run::Fail(e, w3),
                Run::Need(need) => Run::Need(need),
            }
        },
        Run::Fail(e, w2) => Run::Fail(e, w2),
        Run::Need(need) => Run::Need(need),
    }
}

/// Runs the stages of a pipeline from `k` on. Each reads what the one before wrote; the
/// last writes to the output of the pipeline.
pub open spec fn stages(
    w: World,
    rs: Seq<Answer>,
    n: nat,
    p: Seq<Command>,
    k: int,
    input: Seq<u8>,
) -> Run<Flow>
    decreases n, 5nat, p.len() - k,
{
    if k < 0 || k >= p.len() {
        Run::Done(Flow::Done(0), w)
    } else if k + 1 == p.len() {
        simple(w, rs, n, p[k], Some(input))
    } else {
        match simple(World { out: Seq::empty(), ..w }, rs, n, p[k], Some(input)) {
            Run::Done(flow, w2) => match flow {
                Flow::Exit(_) => Run::Done(flow, World { out: w.out, ..w2 }),
                Flow::Done(_) => stages(World { out: w.out, ..w2 }, rs, n, p, k + 1, w2.out),
            },
            Run::Fail(e, w2) => Run::Fail(e, World { out: w.out, ..w2 }),
            Run::Need(need) => Run::Need(need),
        }
    }
}

/// Runs a pipeline.
pub open spec fn pipe(w: World, rs: Seq<Answer>, n: nat, p: Seq<Command>) -> Run<Flow>
    decreases n, 6nat, 0nat,
{
    if p.len() == 1 {
        simple(w, rs, n, p[0], None)
    } else {
        stages(w, rs, n, p, 0, Seq::empty())
    }
}

/// Runs the `&&` and `||` steps from `k` on; `last` is the exit code so far.
pub open spec fn chain_steps(
    w: World,
    rs: Seq<Answer>,
    n: nat,
    tail: Seq<(SeqOp, Seq<Command>)>,
    k: int,
    last: i32,
) -> Run<Flow>
    decreases n, 7nat, tail.len() - k,
{
    if k < 0 || k >= tail.len() {
        Run::Done(Flow::Done(last), w)
    } else if (tail[k].0 == SeqOp::AndIf) == (last == 0) {
        match pipe(w, rs, n, tail[k].1) {
            Run::Done(flow, w2) => match flow {
                Flow::Exit(_) => Run::Done(flow, w2),
                Flow::Done(code) => chain_steps(w2, rs, n, tail, k + 1, code),
            },
            Run::Fail(e, w2) => Run::Fail(e, w2),
            Run::Need(need) => Run::Need(need),
        }
    } else {
        chain_steps(w, rs, n, tail, k + 1, last)
    }
}

/// Runs a chain of pipelines.
pub open spec fn run_chain(w: World, rs: Seq<Answer>, n: nat, c: Chain) -> Run<Flow>
    decreases n, 8nat, 0nat,
{
    match pipe(w, rs, n, c.head) {
        Run::Done(flow, w2) => match flow {
            Flow::Exit(_) => Run::Done(flow, w2),
            Flow::Done(code) => chain_steps(w2, rs, n, c.tail, 0, code),
        },
        Run::Fail(e, w2) => Run::Fail(e, w2),
        Run::Need(need) => Run::Need(need),
    }
}

/// Runs the items of a script from `k` on: the exit code.
pub open spec fn run_units(w: World, rs: Seq<Answer>, n: nat, u: Seq<Unit>, k: int) -> Run<i32>
    decreases n, 9nat, u.len() - k,
{
    if k < 0 || k >= u.len() {
        Run::Done(w.sh.last_exit, w)
    } else {
        match u[k] {
            Unit::Assign(name, word) => match expand(w, rs, n, word, 0, Seq::empty()) {
                Run::Done(v, w2) => run_units(
                    World { sh: Shell { last_exit: 0, ..set_var(w2.sh, name, v) }, ..w2 },
                    rs,
                    n,
                    u,
                    k + 1,
                ),
                Run::Fail(e, w2) => Run::Fail(e, w2),
                Run::Need(need) => Run::Need(need),
            },
            Unit::Run(c) => match run_chain(w, rs, n, c) {
                Run::Done(flow, w2) => match flow {
                    Flow::Exit(code) => Run::Done(code, w2),
                    Flow::Done(code) => run_units(
                        World { sh: Shell { last_exit: code, ..w2.sh }, ..w2 },
                        rs,
                        n,
                        u,
                        k + 1,
                    ),
                },
                Run::Fail(e, w2) => Run::Fail(e, w2),
                Run::Need(need) => Run::Need(need),
            },
        }
    }
}

/// Runs a script: its exit code.
pub open spec fn script(w: World, rs: Seq<Answer>, src: Seq<char>) -> Run<i32>
    decreases encode_utf8(src).len(), 10nat, 0nat,
{
    match script_items(src) {
        Ok(u) => run_units(w, rs, encode_utf8(src).len(), u, 0),
        Err(e) => Run::Fail(e, w),
    }
}

// ---------------------------------------------------------------------------------
// Interpreter
// ---------------------------------------------------------------------------------
/// The shell's variables and place.
#[derive(Debug)]
struct State {
    cwd: String,
    env: Table<String>,
    exported: Names,
    last_exit: i32,
}

impl View for State {
    type V = Shell;

    closed spec fn view(&self) -> Shell {
        Shell {
            cwd: self.cwd@,
            env: text_map(self.env@),
            exported: self.exported@,
            last_exit: self.last_exit,
        }
    }
}

/// A run in progress.
struct Work {
    sh: State,
    out: Vec<u8>,
    err: Vec<u8>,
    used: usize,
    timeout_secs: u64,
}

impl View for Work {
    type V = World;

    closed spec fn view(&self) -> World {
        World {
            sh: self.sh@,
            out: self.out@,
            err: self.err@,
            used: self.used as int,
            timeout_secs: self.timeout_secs as int,
        }
    }
}

/// What a step of a run comes to.
enum Step<T> {
    Done(T),
    Fail(ShellError),
    Need(Action),
}

impl State {
    fn set_var(&mut self, name: String, value: String)
        ensures
            final(self)@ == set_var(old(self)@, name@, value@),
    {
        self.env.set(name, value);
        proof {
            assert(text_map(self.env@) =~= text_map(old(self).env@).insert(name@, value@));
        }
    }

    fn var(&self, name: &str) -> (res: Option<&String>)
        ensures
            match res {
                Some(v) => self@.env.contains_key(name@) && self@.env[name@] == v@,
                None => !self@.env.contains_key(name@),
            },
    {
        self.env.get(name)
    }

    fn copy(&self) -> (res: State)
        ensures
            res@ == self@,
    {
        State {
            cwd: self.cwd.clone(),
            env: copy_texts(&self.env),
            exported: self.exported.copy(),
            last_exit: self.last_exit,
        }
    }
}

/// The next reply, if there is one.
fn next_reply<'a>(w: &mut Work, rs: &'a Vec<Reply>) -> (res: Option<&'a Reply>)
    ensures
        match res {
            Some(a) => {
                &&& old(w)@.used < answers(rs@).len()
                &&& a@ == answers(rs@)[old(w)@.used]
                &&& final(w)@ == (World { used: old(w)@.used + 1, ..old(w)@ })
            },
            None => old(w)@.used >= answers(rs@).len() && *final(w) == *old(w),
        },
{
    if w.used < rs.len() {
        let a = &rs[w.used];
        w.used += 1;
        Some(a)
    } else {
        None
    }
}

/// Appends a line of error output.
fn push_line(out: &mut Vec<u8>, s: &str)
    ensures
        final(out)@ == old(out)@ + line(s@),
{
    let ghost start = out@;
    push_text(out, s);
    push_text(out, "\n");
    proof {
        lemma_encode_concat(s@, "\n"@);
        assert(out@ =~= start + line(s@));
    }
}

/// A text without its trailing newlines.
fn without_newlines(s: &str) -> (res: String)
    ensures
        res@ == strip_newlines(s@),
{
    let chars = chars_of(s);
    let mut to: usize = chars.len();
    proof {
        assert(chars@.subrange(0, to as int) =~= chars@);
    }
    while to > 0 && chars[to - 1] == '\n'
        invariant
            to <= chars@.len(),
            strip_newlines(chars@) == strip_newlines(chars@.subrange(0, to as int)),
        decreases to,
    {
        proof {
            assert(chars@.subrange(0, to as int).drop_last() =~= chars@.subrange(0, to - 1));
        }
        to -= 1;
    }
    text_of(chars.as_slice(), 0, to)
}

fn merges(r: &Vec<Redirect>) -> (res: bool)
    ensures
        res == has_merge(redirects_view(r@)),
{
    let mut i: usize = 0;
    while i < r.len()
        invariant
            i <= r@.len(),
            forall|k: int| 0 <= k < i ==> !((#[trigger] redirects_view(r@)[k]) is Err2Out),
        decreases r.len() - i,
    {
        proof {
            assert(redirects_view(r@)[i as int] == r@[i as int]@);
        }
        if matches!(r[i], Redirect::Err2Out) {
            return true;
        }
        i += 1;
    }
    false
}

/// Opens a file.
fn open(w: &mut Work, rs: &Vec<Reply>, path: String, mode: OpenMode) -> (res: Step<usize>)
    ensures
        match res {
            Step::Done(f) => open_file(old(w)@, answers(rs@), path@, mode) == Run::Done(
                f as int,
                final(w)@,
            ),
            Step::Fail(e) => open_file(old(w)@, answers(rs@), path@, mode) == Run::<int>::Fail(
                e@,
                final(w)@,
            ),
            Step::Need(a) => open_file(old(w)@, answers(rs@), path@, mode) == Run::<int>::Need(a@),
        },
{
    let file = w.used;
    match next_reply(w, rs) {
        Some(Reply::Failed(m)) => Step::Fail(ShellError::Io(m.clone())),
        Some(_) => Step::Done(file),
        None => Step::Need(Action::Open { path, mode }),
    }
}

/// Writes to an open file.
fn write(w: &mut Work, rs: &Vec<Reply>, file: usize, data: Vec<u8>) -> (res: Step<()>)
    ensures
        match res {
            Step::Done(_) => ask(
                old(w)@,
                answers(rs@),
                (Need::Write { file: file as int, data: data@ }),
            ) matches Run::Done(_, w2) && w2 == final(w)@,
            Step::Fail(e) => false,
            Step::Need(a) => ask(
                old(w)@,
                answers(rs@),
                (Need::Write { file: file as int, data: data@ }),
            ) == Run::<Answer>::Need(a@),
        },
{
    match next_reply(w, rs) {
        Some(_) => Step::Done(()),
        None => Step::Need(Action::Write { file, data }),
    }
}

/// Expands a word where no command may be run.
fn expand_word_no_subst(sh: &State, word: &Word) -> (res: Result<String, ShellError>)
    ensures
        match res {
            Ok(s) => expand_plain(sh@, word_view(word@), 0, Seq::empty()) == Ok::<_, Fault>(s@),
            Err(e) => expand_plain(sh@, word_view(word@), 0, Seq::empty()) == Err::<Seq<char>, _>(
                e@,
            ),
        },
{
    let ghost parts = word_view(word@);
    let ghost goal = expand_plain(sh@, parts, 0, Seq::empty());
    let mut out = String::new();
    let mut k: usize = 0;
    while k < word.len()
        invariant
            k <= word@.len(),
            parts == word_view(word@),
            goal == expand_plain(sh@, parts, 0, Seq::empty()),
            goal == expand_plain(sh@, parts, k as int, out@),
        decreases word.len() - k,
    {
        proof {
            assert(parts[k as int] == word@[k as int]@);
        }
        match &word[k] {
            WordPart::Literal(s) => {
                out.push_str(s.as_str());
            },
            WordPart::Var(name) => {
                if let Some(v) = sh.var(name.as_str()) {
                    out.push_str(v.as_str());
                }
            },
            WordPart::CmdSub(_) => {
                return Err(parse_error("command substitution not allowed here", 0));
            },
        }
        k += 1;
    }
    Ok(out)
}

/// Touches the targets of the redirections of a command without a name.
fn touch_redirects(w: &mut Work, rs: &Vec<Reply>, r: &Vec<Redirect>) -> (res: Step<()>)
    ensures
        match res {
            Step::Done(_) => touch(old(w)@, answers(rs@), redirects_view(r@), 0) == Run::Done(
                (),
                final(w)@,
            ),
            Step::Fail(e) => touch(old(w)@, answers(rs@), redirects_view(r@), 0) == Run::<
                (),
            >::Fail(e@, final(w)@),
            Step::Need(a) => touch(old(w)@, answers(rs@), redirects_view(r@), 0) == Run::<
                (),
            >::Need(a@),
        },
{
    let ghost v = redirects_view(r@);
    let ghost goal = touch(w@, answers(rs@), v, 0);
    let mut k: usize = 0;
    while k < r.len()
        invariant
            k <= r@.len(),
            v == redirects_view(r@),
            goal == touch(old(w)@, answers(rs@), v, 0),
            goal == touch(w@, answers(rs@), v, k as int),
        decreases r.len() - k,
    {
        proof {
            assert(v[k as int] == r@[k as int]@);
        }
        let target = match &r[k] {
            Redirect::StdoutTrunc(x) => Some((x, OpenMode::Create)),
            Redirect::StderrTrunc(x) => Some((x, OpenMode::Create)),
            Redirect::StdoutAppend(x) => Some((x, OpenMode::Append)),
            Redirect::StderrAppend(x) => Some((x, OpenMode::Append)),
            _ => None,
        };
        if let Some((x, mode)) = target {
            match expand_word_no_subst(&w.sh, x) {
                Err(e) => {
                    return Step::Fail(e);
                },
                Ok(p) => {
                    let path = path_for(w.sh.cwd.as_str(), p.as_str());
                    match open(w, rs, path, mode) {
                        Step::Done(_) => {},
                        Step::Fail(e) => {
                            return Step::Fail(e);
                        },
                        Step::Need(a) => {
                            return Step::Need(a);
                        },
                    }
                },
            }
        }
        k += 1;
    }
    Step::Done(())
}

// ---------------------------------------------------------------------------------
// Built-ins
// ---------------------------------------------------------------------------------
/// What a built-in produced.
struct Output {
    out: Vec<u8>,
    err: Vec<u8>,
    code: i32,
}

impl View for Output {
    type V = Told;

    closed spec fn view(&self) -> Told {
        Told { out: self.out@, err: self.err@, code: self.code }
    }
}

fn quiet(code: i32) -> (res: Output)
    ensures
        res@ == told(code),
{
    let res = Output { out: Vec::new(), err: Vec::new(), code };
    proof {
        assert(res.out@ =~= told(code).out);
        assert(res.err@ =~= told(code).err);
    }
    res
}

fn complain(s: &str) -> (res: Output)
    ensures
        res@ == complaint(s@),
{
    let mut err: Vec<u8> = Vec::new();
    push_line(&mut err, s);
    let res = Output { out: Vec::new(), err, code: 1 };
    proof {
        assert(res.out@ =~= complaint(s@).out);
        assert(res.err@ =~= complaint(s@).err);
    }
    res
}

fn builtin_echo(argv: &Vec<String>) -> (res: Output)
    requires
        argv@.len() > 0,
    ensures
        res@ == (Told { out: echo_output(texts(argv@)), ..told(0) }),
{
    let ghost v = texts(argv@);
    let mut res = quiet(0);
    let flag = argv.len() > 1 && text_eq(argv[1].as_str(), "-n");
    let start: usize = if flag {
        2
    } else {
        1
    };
    let mut i: usize = start;
    while i < argv.len()
        invariant
            start <= i <= argv@.len() || (i == start && start > argv@.len()),
            v == texts(argv@),
            res.out@ =~= spaced(v, start as int, i as int),
            res.err@ == told(0).err,
            res.code == 0,
        decreases argv.len() - i,
    {
        if i > start {
            push_text(&mut res.out, " ");
        }
        push_text(&mut res.out, argv[i].as_str());
        proof {
            assert(v[i as int] == argv@[i as int]@);
        }
        i += 1;
    }
    if !flag {
        push_text(&mut res.out, "\n");
    }
    res
}

fn builtin_pwd(cwd: &str) -> (res: Output)
    ensures
        res@ == (Told { out: line(cwd@), ..told(0) }),
{
    let mut res = quiet(0);
    push_line(&mut res.out, cwd);
    proof {
        assert(res.out@ =~= line(cwd@));
    }
    res
}

fn builtin_cd(w: &mut Work, rs: &Vec<Reply>, argv: &Vec<String>) -> (res: Step<Output>)
    requires
        argv@.len() > 0,
    ensures
        match res {
            Step::Done(t) => cd(old(w)@, answers(rs@), texts(argv@)) == Run::Done(t@, final(w)@),
            Step::Fail(e) => false,
            Step::Need(a) => cd(old(w)@, answers(rs@), texts(argv@)) == Run::<Told>::Need(a@),
        },
{
    let dir = if argv.len() <= 1 {
        match w.sh.var("HOME") {
            Some(h) => path_for(w.sh.cwd.as_str(), h.as_str()),
            None => {
                return Step::Done(complain("cd: HOME not set"));
            },
        }
    } else {
        path_for(w.sh.cwd.as_str(), argv[1].as_str())
    };
    match next_reply(w, rs) {
        Some(Reply::Path(p)) => {
            w.sh.cwd = p.clone();
            Step::Done(quiet(0))
        },
        Some(a) => {
            let mut msg = "cd: ".to_owned();
            msg.push_str(dir.as_str());
            msg.push_str(": ");
            if let Reply::Failed(m) = a {
                msg.push_str(m.as_str());
            }
            Step::Done(complain(msg.as_str()))
        },
        None => Step::Need(Action::Canonicalize(dir)),
    }
}

fn builtin_export(sh: &mut State, argv: &Vec<String>) -> (res: Output)
    requires
        argv@.len() > 1,
    ensures
        (res@, final(sh)@) == export(old(sh)@, texts(argv@), 1),
{
    let ghost v = texts(argv@);
    let ghost goal = export(sh@, v, 1);
    let mut k: usize = 1;
    while k < argv.len()
        invariant
            1 <= k <= argv@.len(),
            v == texts(argv@),
            goal == export(old(sh)@, v, 1),
            goal == export(sh@, v, k as int),
        decreases argv.len() - k,
    {
        let a = &argv[k];
        proof {
            assert(v[k as int] == a@);
        }
        let chars = chars_of(a.as_str());
        let eq = find_char(chars.as_slice(), 0, '=');
        if eq == 0 && chars.len() > 0 {
            return complain("export: invalid name");
        }
        if eq < chars.len() {
            let name = text_of(chars.as_slice(), 0, eq);
            let value = text_of(chars.as_slice(), eq + 1, chars.len());
            proof {
                assert(a@.subrange(0, eq as int) =~= a@.take(eq as int));
                assert(a@.subrange(eq + 1, a@.len() as int) =~= a@.skip(eq + 1));
            }
            sh.set_var(name.clone(), value);
            sh.exported.insert(name);
        } else {
            sh.exported.insert(a.clone());
        }
        k += 1;
    }
    quiet(0)
}

fn builtin_unset(sh: &mut State, argv: &Vec<String>) -> (res: Output)
    requires
        argv@.len() > 0,
    ensures
        res@ == told(0),
        final(sh)@ == unset(old(sh)@, texts(argv@), 1),
{
    let ghost v = texts(argv@);
    let ghost goal = unset(sh@, v, 1);
    let mut k: usize = 1;
    while k < argv.len()
        invariant
            1 <= k <= argv@.len(),
            v == texts(argv@),
            goal == unset(old(sh)@, v, 1),
            goal == unset(sh@, v, k as int),
        decreases argv.len() - k,
    {
        let ghost before = sh@;
        proof {
            assert(v[k as int] == argv@[k as int]@);
        }
        let ghost m = sh.env@;
        sh.env.remove(argv[k].as_str());
        sh.exported.remove(argv[k].as_str());
        proof {
            assert(text_map(sh.env@) =~= text_map(m).remove(v[k as int]));
        }
        k += 1;
    }
    quiet(0)
}

fn builtin_name(name: &str) -> (res: bool)
    ensures
        res == is_builtin(name@),
{
    text_eq(name, "echo") || text_eq(name, "pwd") || text_eq(name, "cd") || text_eq(name, "export")
        || text_eq(name, "unset") || text_eq(name, "exit") || text_eq(name, "true") || text_eq(
        name,
        "false",
    ) || text_eq(name, ":")
}

/// Runs a built-in other than `exit`.
fn produce(w: &mut Work, rs: &Vec<Reply>, argv: &Vec<String>, piped: bool) -> (res: Step<Output>)
    requires
        argv@.len() > 0,
    ensures
        match res {
            Step::Done(t) => run_told(old(w)@, answers(rs@), texts(argv@), piped) == Run::Done(
                t@,
                final(w)@,
            ),
            Step::Fail(e) => false,
            Step::Need(a) => run_told(old(w)@, answers(rs@), texts(argv@), piped) == Run::<
                Told,
            >::Need(a@),
        },
{
    let name = argv[0].as_str();
    proof {
        assert(texts(argv@)[0] == argv@[0]@);
    }
    if text_eq(name, "echo") {
        Step::Done(builtin_echo(argv))
    } else if text_eq(name, "pwd") {
        Step::Done(builtin_pwd(w.sh.cwd.as_str()))
    } else if text_eq(name, "cd") {
        if piped {
            Step::Done(complain("cd: not supported inside a pipeline"))
        } else {
            builtin_cd(w, rs, argv)
        }
    } else if text_eq(name, "export") {
        if piped {
            Step::Done(complain("export: not supported inside a pipeline"))
        } else if argv.len() == 1 {
            Step::Done(complain("export: missing argument"))
        } else {
            Step::Done(builtin_export(&mut w.sh, argv))
        }
    } else if text_eq(name, "unset") {
        if piped {
            Step::Done(complain("unset: not supported inside a pipeline"))
        } else {
            Step::Done(builtin_unset(&mut w.sh, argv))
        }
    } else if text_eq(name, "false") {
        Step::Done(quiet(1))
    } else {
        Step::Done(quiet(0))
    }
}

/// Sends what a built-in produced to where its streams go.
fn deliver(
    w: &mut Work,
    rs: &Vec<Reply>,
    wiring: &Streams,
    merge: bool,
    t: Output,
) -> (res: Step<Flow>)
    ensures
        match res {
            Step::Done(x) => route(old(w)@, answers(rs@), wiring@, merge, t@) == Run::Done(x, final(w)@),
            Step::Fail(e) => route(old(w)@, answers(rs@), wiring@, merge, t@) == Run::<Flow>::Fail(e@, final(w)@),
            Step::Need(a) => route(old(w)@, answers(rs@), wiring@, merge, t@) == Run::<Flow>::Need(a@),
        },
{
    let Output { out, err, code } = t;
    let mut left = err;
    match wiring.stdout {
        Some(file) => {
            match write(w, rs, file, out) {
                Step::Done(_) => {},
                Step::Fail(e) => {
                    return Step::Fail(e);
                },
                Step::Need(a) => {
                    return Step::Need(a);
                },
            }
            if merge {
                let mut merged: Vec<u8> = Vec::new();
                core::mem::swap(&mut merged, &mut left);
                match write(w, rs, file, merged) {
                    Step::Done(_) => {},
                    Step::Fail(e) => {
                        return Step::Fail(e);
                    },
                    Step::Need(a) => {
                        return Step::Need(a);
                    },
                }
            }
        },
        None => {
            push_bytes(&mut w.out, out.as_slice());
            if merge {
                push_bytes(&mut w.out, left.as_slice());
                left = Vec::new();
            }
        },
    }
    proof {
        assert(merge ==> left@ =~= Seq::<u8>::empty());
    }
    match wiring.stderr {
        Some(file) => {
            match write(w, rs, file, left) {
                Step::Done(_) => {},
                Step::Fail(e) => {
                    return Step::Fail(e);
                },
                Step::Need(a) => {
                    return Step::Need(a);
                },
            }
        },
        None => {
            push_bytes(&mut w.err, left.as_slice());
        },
    }
    Step::Done(Flow::Done(code))
}

// ---------------------------------------------------------------------------------
// Running
// ---------------------------------------------------------------------------------
/// Where the streams of a command go.
struct Streams {
    stdin: Option<String>,
    stdout: Option<usize>,
    stderr: Option<usize>,
}

impl View for Streams {
    type V = Wiring;

    closed spec fn view(&self) -> Wiring {
        Wiring { stdin: maybe(self.stdin), stdout: slot(self.stdout), stderr: slot(self.stderr) }
    }
}

/// Pairs of texts.
pub open spec fn pairs(v: Seq<(String, String)>) -> Seq<(Seq<char>, Seq<char>)> {
    Seq::new(v.len(), |i: int| (v[i].0@, v[i].1@))
}

/// Bytes that may be missing.
pub open spec fn maybe_bytes(b: Option<Vec<u8>>) -> Option<Seq<u8>> {
    match b {
        Some(v) => Some(v@),
        None => None,
    }
}

/// Expands a word.
fn expand_word(w: &mut Work, rs: &Vec<Reply>, n: usize, word: &Word) -> (res: Step<String>)
    requires
        bodies_below(word_view(word@), n as int),
    ensures
        match res {
            Step::Done(x) => expand(old(w)@, answers(rs@), n as nat, word_view(word@), 0, Seq::empty()) == Run::Done(x@, final(w)@),
            Step::Fail(e) => expand(old(w)@, answers(rs@), n as nat, word_view(word@), 0, Seq::empty()) == Run::<Seq<char>>::Fail(e@, final(w)@),
            Step::Need(a) => expand(old(w)@, answers(rs@), n as nat, word_view(word@), 0, Seq::empty()) == Run::<Seq<char>>::Need(a@),
        },
    decreases n, 1nat,
{
    let ghost parts = word_view(word@);
    let ghost goal = expand(w@, answers(rs@), n as nat, parts, 0, Seq::empty());
    let mut out = String::new();
    let mut k: usize = 0;
    while k < word.len()
        invariant
            k <= word@.len(),
            parts == word_view(word@),
            bodies_below(parts, n as int),
            goal == expand(old(w)@, answers(rs@), n as nat, parts, 0, Seq::empty()),
            goal == expand(w@, answers(rs@), n as nat, parts, k as int, out@),
        decreases word.len() - k,
    {
        proof {
            assert(parts[k as int] == word@[k as int]@);
        }
        match &word[k] {
            WordPart::Literal(s) => {
                out.push_str(s.as_str());
            },
            WordPart::Var(name) => {
                if let Some(v) = w.sh.var(name.as_str()) {
                    out.push_str(v.as_str());
                }
            },
            WordPart::CmdSub(body) => {
                let ghost before = w@;
                let mut outer_out: Vec<u8> = Vec::new();
                let mut outer_err: Vec<u8> = Vec::new();
                core::mem::swap(&mut outer_out, &mut w.out);
                core::mem::swap(&mut outer_err, &mut w.err);
                proof {
                    assert(w.out@ =~= Seq::<u8>::empty());
                    assert(w.err@ =~= Seq::<u8>::empty());
                    assert(w@ == (World { out: Seq::empty(), err: Seq::empty(), ..before }));
                }
                let r = run_script(w, rs, body.as_str());
                core::mem::swap(&mut outer_out, &mut w.out);
                core::mem::swap(&mut outer_err, &mut w.err);
                match r {
                    Step::Done(code) => {
                        push_bytes(&mut w.err, outer_err.as_slice());
                        w.sh.last_exit = code;
                        let all = utf8_lossy(outer_out.as_slice());
                        out.push_str(without_newlines(all.as_str()).as_str());
                    },
                    Step::Fail(e) => {
                        let mut msg = "vshell: $(): ".to_owned();
                        msg.push_str(e.message().as_str());
                        push_line(&mut w.err, msg.as_str());
                        return Step::Fail(e);
                    },
                    Step::Need(a) => {
                        return Step::Need(a);
                    },
                }
            },
        }
        k += 1;
    }
    Step::Done(out)
}

/// Expands the values of a command's assignments.
fn expand_local(
    w: &mut Work,
    rs: &Vec<Reply>,
    n: usize,
    l: &Vec<(String, Word)>,
) -> (res: Step<Vec<(String, String)>>)
    requires
        forall|i: int|
            0 <= i < l@.len() ==> bodies_below(#[trigger] assigns_view(l@)[i].1, n as int),
    ensures
        match res {
            Step::Done(x) => expand_assigns(old(w)@, answers(rs@), n as nat, assigns_view(l@), 0, Seq::empty()) == Run::Done(pairs(x@), final(w)@),
            Step::Fail(e) => expand_assigns(old(w)@, answers(rs@), n as nat, assigns_view(l@), 0, Seq::empty()) == Run::<Seq<(Seq<char>, Seq<char>)>>::Fail(e@, final(w)@),
            Step::Need(a) => expand_assigns(old(w)@, answers(rs@), n as nat, assigns_view(l@), 0, Seq::empty()) == Run::<Seq<(Seq<char>, Seq<char>)>>::Need(a@),
        },
    decreases n, 2nat,
{
    let ghost v = assigns_view(l@);
    let ghost goal = expand_assigns(w@, answers(rs@), n as nat, v, 0, Seq::empty());
    let mut acc: Vec<(String, String)> = Vec::new();
    let mut k: usize = 0;
    proof {
        assert(pairs(acc@) =~= Seq::<(Seq<char>, Seq<char>)>::empty());
    }
    while k < l.len()
        invariant
            k <= l@.len(),
            v == assigns_view(l@),
            forall|i: int| 0 <= i < l@.len() ==> bodies_below(#[trigger] v[i].1, n as int),
            goal == expand_assigns(old(w)@, answers(rs@), n as nat, v, 0, Seq::empty()),
            goal == expand_assigns(w@, answers(rs@), n as nat, v, k as int, pairs(acc@)),
        decreases l.len() - k,
    {
        let ghost before = acc@;
        proof {
            assert(v[k as int] == (l@[k as int].0@, word_view(l@[k as int].1@)));
            assert(bodies_below(v[k as int].1, n as int));
        }
        match expand_word(w, rs, n, &l[k].1) {
            Step::Done(x) => {
                acc.push((l[k].0.clone(), x));
                proof {
                    assert(pairs(acc@) =~= pairs(before).push((l@[k as int].0@, x@)));
                }
            },
            Step::Fail(e) => {
                return Step::Fail(e);
            },
            Step::Need(a) => {
                return Step::Need(a);
            },
        }
        k += 1;
    }
    Step::Done(acc)
}

/// Expands the words of a command.
fn expand_words(w: &mut Work, rs: &Vec<Reply>, n: usize, l: &Vec<Word>) -> (res: Step<Vec<String>>)
    requires
        forall|i: int| 0 <= i < l@.len() ==> bodies_below(#[trigger] argv_view(l@)[i], n as int),
    ensures
        match res {
            Step::Done(x) => expand_argv(old(w)@, answers(rs@), n as nat, argv_view(l@), 0, Seq::empty()) == Run::Done(texts(x@), final(w)@),
            Step::Fail(e) => expand_argv(old(w)@, answers(rs@), n as nat, argv_view(l@), 0, Seq::empty()) == Run::<Seq<Seq<char>>>::Fail(e@, final(w)@),
            Step::Need(a) => expand_argv(old(w)@, answers(rs@), n as nat, argv_view(l@), 0, Seq::empty()) == Run::<Seq<Seq<char>>>::Need(a@),
        },
        res matches Step::Done(x) ==> x@.len() == l@.len(),
    decreases n, 2nat,
{
    let ghost v = argv_view(l@);
    let ghost goal = expand_argv(w@, answers(rs@), n as nat, v, 0, Seq::empty());
    let mut acc: Vec<String> = Vec::new();
    let mut k: usize = 0;
    proof {
        assert(texts(acc@) =~= Seq::<Seq<char>>::empty());
    }
    while k < l.len()
        invariant
            k <= l@.len(),
            acc@.len() == k,
            v == argv_view(l@),
            forall|i: int| 0 <= i < l@.len() ==> bodies_below(#[trigger] v[i], n as int),
            goal == expand_argv(old(w)@, answers(rs@), n as nat, v, 0, Seq::empty()),
            goal == expand_argv(w@, answers(rs@), n as nat, v, k as int, texts(acc@)),
        decreases l.len() - k,
    {
        let ghost before = acc@;
        proof {
            assert(v[k as int] == word_view(l@[k as int]@));
            assert(bodies_below(v[k as int], n as int));
        }
        match expand_word(w, rs, n, &l[k]) {
            Step::Done(x) => {
                acc.push(x);
                proof {
                    assert(texts(acc@) =~= texts(before).push(x@));
                }
            },
            Step::Fail(e) => {
                return Step::Fail(e);
            },
            Step::Need(a) => {
                return Step::Need(a);
            },
        }
        k += 1;
    }
    Step::Done(acc)
}

/// The word and the way of opening of a redirection.
fn redirect_target(r: &Redirect) -> (res: Option<(&Word, OpenMode)>)
    ensures
        match res {
            Some((x, m)) => redir_target(r@) == Some((word_view(x@), m)),
            None => redir_target(r@) is None,
        },
{
    match r {
        Redirect::StdoutTrunc(x) => Some((x, OpenMode::Create)),
        Redirect::StderrTrunc(x) => Some((x, OpenMode::Create)),
        Redirect::StdoutAppend(x) => Some((x, OpenMode::Append)),
        Redirect::StderrAppend(x) => Some((x, OpenMode::Append)),
        Redirect::Stdin(x) => Some((x, OpenMode::Read)),
        Redirect::Err2Out => None,
    }
}

/// Resolves the redirections of a command.
fn resolve_redirects(w: &mut Work, rs: &Vec<Reply>, n: usize, r: &Vec<Redirect>) -> (res: Step<
    Streams,
>)
    requires
        forall|i: int|
            0 <= i < r@.len() ==> redir_below(#[trigger] redirects_view(r@)[i], n as int),
    ensures
        match res {
            Step::Done(x) => resolve(old(w)@, answers(rs@), n as nat, redirects_view(r@), 0, unwired()) == Run::Done(x@, final(w)@),
            Step::Fail(e) => resolve(old(w)@, answers(rs@), n as nat, redirects_view(r@), 0, unwired()) == Run::<Wiring>::Fail(e@, final(w)@),
            Step::Need(a) => resolve(old(w)@, answers(rs@), n as nat, redirects_view(r@), 0, unwired()) == Run::<Wiring>::Need(a@),
        },
    decreases n, 2nat,
{
    let ghost v = redirects_view(r@);
    let ghost goal = resolve(w@, answers(rs@), n as nat, v, 0, unwired());
    let mut acc = Streams { stdin: None, stdout: None, stderr: None };
    let mut k: usize = 0;
    while k < r.len()
        invariant
            k <= r@.len(),
            v == redirects_view(r@),
            forall|i: int| 0 <= i < r@.len() ==> redir_below(#[trigger] v[i], n as int),
            goal == resolve(old(w)@, answers(rs@), n as nat, v, 0, unwired()),
            goal == resolve(w@, answers(rs@), n as nat, v, k as int, acc@),
        decreases r.len() - k,
    {
        proof {
            assert(v[k as int] == r@[k as int]@);
            assert(redir_below(v[k as int], n as int));
        }
        if let Some((x, mode)) = redirect_target(&r[k]) {
            let p = match expand_word(w, rs, n, x) {
                Step::Done(p) => p,
                Step::Fail(e) => {
                    return Step::Fail(e);
                },
                Step::Need(a) => {
                    return Step::Need(a);
                },
            };
            let path = path_for(w.sh.cwd.as_str(), p.as_str());
            if mode == OpenMode::Read {
                acc.stdin = Some(path);
            } else {
                match open(w, rs, path, mode) {
                    Step::Done(file) => {
                        if matches!(r[k], Redirect::StdoutTrunc(_) | Redirect::StdoutAppend(_)) {
                            acc.stdout = Some(file);
                        } else {
                            acc.stderr = Some(file);
                        }
                    },
                    Step::Fail(e) => {
                        return Step::Fail(e);
                    },
                    Step::Need(a) => {
                        return Step::Need(a);
                    },
                }
            }
        }
        k += 1;
    }
    Step::Done(acc)
}

/// Runs a built-in.
fn run_builtin(
    w: &mut Work,
    rs: &Vec<Reply>,
    n: usize,
    argv: &Vec<String>,
    r: &Vec<Redirect>,
    piped: bool,
) -> (res: Step<Flow>)
    requires
        argv@.len() > 0,
        forall|i: int|
            0 <= i < r@.len() ==> redir_below(#[trigger] redirects_view(r@)[i], n as int),
    ensures
        match res {
            Step::Done(x) => builtin(old(w)@, answers(rs@), n as nat, texts(argv@), redirects_view(r@), piped) == Run::Done(x, final(w)@),
            Step::Fail(e) => builtin(old(w)@, answers(rs@), n as nat, texts(argv@), redirects_view(r@), piped) == Run::<Flow>::Fail(e@, final(w)@),
            Step::Need(a) => builtin(old(w)@, answers(rs@), n as nat, texts(argv@), redirects_view(r@), piped) == Run::<Flow>::Need(a@),
        },
    decreases n, 3nat,
{
    // The redirections were already opened once on the way here; a built-in opens them
    // again for itself.
    let wiring = match resolve_redirects(w, rs, n, r) {
        Step::Done(x) => x,
        Step::Fail(e) => {
            return Step::Fail(e);
        },
        Step::Need(a) => {
            return Step::Need(a);
        },
    };
    proof {
        assert(texts(argv@)[0] == argv@[0]@);
    }
    if text_eq(argv[0].as_str(), "exit") {
        let code = if argv.len() > 1 {
            proof {
                assert(texts(argv@)[1] == argv@[1]@);
            }
            match parse_i32(argv[1].as_str()) {
                Some(c) => c,
                None => 2,
            }
        } else {
            w.sh.last_exit
        };
        return Step::Done(Flow::Exit(code));
    }
    match produce(w, rs, argv, piped) {
        Step::Done(t) => deliver(w, rs, &wiring, merges(r), t),
        Step::Fail(e) => Step::Fail(e),
        Step::Need(a) => Step::Need(a),
    }
}

/// Where the error output of a child goes.
fn find_child_stderr(
    w: &mut Work,
    rs: &Vec<Reply>,
    n: usize,
    r: &Vec<Redirect>,
    wiring: &Streams,
) -> (res: Step<Option<usize>>)
    requires
        forall|i: int|
            0 <= i < r@.len() ==> redir_below(#[trigger] redirects_view(r@)[i], n as int),
    ensures
        match res {
            Step::Done(x) => child_stderr(old(w)@, answers(rs@), n as nat, redirects_view(r@), wiring@) == Run::Done(slot(x), final(w)@),
            Step::Fail(e) => child_stderr(old(w)@, answers(rs@), n as nat, redirects_view(r@), wiring@) == Run::<Option<int>>::Fail(e@, final(w)@),
            Step::Need(a) => child_stderr(old(w)@, answers(rs@), n as nat, redirects_view(r@), wiring@) == Run::<Option<int>>::Need(a@),
        },
    decreases n, 2nat,
{
    let ghost v = redirects_view(r@);
    if wiring.stderr.is_some() || !merges(r) || wiring.stdout.is_none() {
        return Step::Done(wiring.stderr);
    }
    let mut k: usize = 0;
    while k < r.len() && !matches!(r[k], Redirect::StdoutTrunc(_) | Redirect::StdoutAppend(_))
        invariant
            k <= r@.len(),
            v == redirects_view(r@),
            first_out(v, 0) == first_out(v, k as int),
        decreases r.len() - k,
    {
        proof {
            assert(v[k as int] == r@[k as int]@);
        }
        k += 1;
    }
    if k < r.len() {
        proof {
            assert(v[k as int] == r@[k as int]@);
            assert(redir_below(v[k as int], n as int));
        }
        if let Some((x, _)) = redirect_target(&r[k]) {
            return match expand_word(w, rs, n, x) {
                Step::Done(p) => {
                    let path = path_for(w.sh.cwd.as_str(), p.as_str());
                    match open(w, rs, path, OpenMode::AppendExisting) {
                        Step::Done(file) => Step::Done(Some(file)),
                        Step::Fail(e) => Step::Fail(e),
                        Step::Need(a) => Step::Need(a),
                    }
                },
                Step::Fail(e) => Step::Fail(e),
                Step::Need(a) => Step::Need(a),
            };
        }
    }
    Step::Done(None)
}

/// What a child reads.
fn find_child_stdin(
    w: &mut Work,
    rs: &Vec<Reply>,
    file: &Option<String>,
    stdin: &Option<Vec<u8>>,
) -> (res: Step<ChildInput>)
    ensures
        match res {
            Step::Done(x) => child_stdin(old(w)@, answers(rs@), maybe(*file), maybe_bytes(*stdin)) == Run::Done(x@, final(w)@),
            Step::Fail(e) => child_stdin(old(w)@, answers(rs@), maybe(*file), maybe_bytes(*stdin)) == Run::<Input>::Fail(e@, final(w)@),
            Step::Need(a) => child_stdin(old(w)@, answers(rs@), maybe(*file), maybe_bytes(*stdin)) == Run::<Input>::Need(a@),
        },
{
    match file {
        Some(path) => match open(w, rs, path.clone(), OpenMode::Read) {
            Step::Done(f) => Step::Done(ChildInput::File(f)),
            Step::Fail(e) => Step::Fail(e),
            Step::Need(a) => Step::Need(a),
        },
        None => match stdin {
            Some(b) => if b.len() > 0 {
                Step::Done(ChildInput::Bytes(bytes_copy(b.as_slice())))
            } else {
                Step::Done(ChildInput::Null)
            },
            None => Step::Done(ChildInput::Null),
        },
    }
}

/// The entries of `e` whose names are in `names`, as a map.
pub open spec fn kept(e: Seq<(String, String)>, names: Set<Seq<char>>) -> Map<Seq<char>, Seq<char>>
    decreases e.len(),
{
    if e.len() == 0 {
        Map::empty()
    } else if names.contains(e.last().0@) {
        kept(e.drop_last(), names).insert(e.last().0@, e.last().1@)
    } else {
        kept(e.drop_last(), names)
    }
}

proof fn lemma_kept(e: Seq<(String, String)>, names: Set<Seq<char>>)
    ensures
        kept(e, names) =~= text_map(crate::table::as_map(e)).restrict(names),
    decreases e.len(),
{
    if e.len() > 0 {
        lemma_kept(e.drop_last(), names);
        let m = crate::table::as_map(e.drop_last());
        let (k, v) = (e.last().0@, e.last().1);
        assert(text_map(m.insert(k, v)) =~= text_map(m).insert(k, v@));
        if names.contains(k) {
            assert(text_map(m).insert(k, v@).restrict(names) =~= text_map(m).restrict(
                names,
            ).insert(k, v@));
        } else {
            assert(text_map(m).insert(k, v@).restrict(names) =~= text_map(m).restrict(names));
        }
    } else {
        assert(text_map(crate::table::as_map(e)).restrict(names) =~= Map::empty());
    }
}

/// The environment of a child.
fn build_env(sh: &State, local: &Vec<(String, String)>) -> (res: Table<String>)
    ensures
        text_map(res@) == child_env(sh@, pairs(local@)),
{
    let mut env: Table<String> = Table::new();
    let ghost e = sh.env.entries_view();
    let mut i: usize = 0;
    proof {
        assert(text_map(env@) =~= Map::empty());
        assert(e.take(0) =~= Seq::<(String, String)>::empty());
    }
    while i < sh.env.len()
        invariant
            e == sh.env.entries_view(),
            i <= e.len(),
            text_map(env@) == kept(e.take(i as int), sh.exported@),
        decreases e.len() - i,
    {
        let (k, v) = sh.env.entry(i);
        proof {
            assert(e.take(i + 1).drop_last() =~= e.take(i as int));
            assert(e.take(i + 1).last() == e[i as int]);
        }
        if sh.exported.contains(k.as_str()) {
            let ghost m = env@;
            env.set(k.clone(), v.clone());
            proof {
                assert(text_map(env@) =~= text_map(m).insert(k@, v@));
            }
        }
        i += 1;
    }
    proof {
        assert(e.take(i as int) =~= e);
        lemma_kept(e, sh.exported@);
        sh.env.lemma_entries();
    }
    let ghost goal = child_env(sh@, pairs(local@));
    let mut j: usize = 0;
    while j < local.len()
        invariant
            j <= local@.len(),
            goal == overlay(text_map(env@), pairs(local@), j as int),
        decreases local.len() - j,
    {
        let ghost m = env@;
        let (k, v) = &local[j];
        env.set(k.clone(), v.clone());
        proof {
            assert(text_map(env@) =~= text_map(m).insert(k@, v@));
            assert(pairs(local@)[j as int] == (k@, v@));
        }
        j += 1;
    }
    env
}

/// Takes in what became of a child.
fn finish_child(w: &mut Work, name: &str, merging: bool, a: &Reply) -> (code: i32)
    ensures
        (code, final(w)@) == child_result(old(w)@, name@, merging, a@),
{
    let mut msg = "vshell: ".to_owned();
    msg.push_str(name);
    msg.push_str(": ");
    match a {
        Reply::Child { outcome, stdout, stderr } => match outcome {
            ChildOutcome::Exited(code) => {
                push_bytes(&mut w.out, stdout.as_slice());
                if merging {
                    push_bytes(&mut w.out, stderr.as_slice());
                } else {
                    push_bytes(&mut w.err, stderr.as_slice());
                }
                *code
            },
            ChildOutcome::TimedOut => {
                msg.push_str("killed after ");
                push_dec(&mut msg, w.timeout_secs as u128);
                msg.push_str("s timeout");
                push_line(&mut w.err, msg.as_str());
                124
            },
            ChildOutcome::Cancelled => {
                msg.push_str("cancelled");
                push_line(&mut w.err, msg.as_str());
                130
            },
            ChildOutcome::StdoutOverflow => {
                msg.push_str("stdout exceeded 8 MiB cap");
                push_line(&mut w.err, msg.as_str());
                1
            },
            ChildOutcome::StderrOverflow => {
                msg.push_str("stderr exceeded 8 MiB cap");
                push_line(&mut w.err, msg.as_str());
                1
            },
        },
        Reply::Failed(m) => {
            msg.push_str(m.as_str());
            push_line(&mut w.err, msg.as_str());
            127
        },
        _ => {
            push_line(&mut w.err, msg.as_str());
            127
        },
    }
}

/// Runs a command that is not a built-in.
fn run_external(
    w: &mut Work,
    rs: &Vec<Reply>,
    n: usize,
    argv: Vec<String>,
    local: &Vec<(String, String)>,
    r: &Vec<Redirect>,
    wiring: &Streams,
    stdin: &Option<Vec<u8>>,
) -> (res: Step<Flow>)
    requires
        argv@.len() > 0,
        forall|i: int|
            0 <= i < r@.len() ==> redir_below(#[trigger] redirects_view(r@)[i], n as int),
    ensures
        match res {
            Step::Done(x) => external(
                old(w)@,
                answers(rs@),
                n as nat,
                texts(argv@),
                pairs(local@),
                redirects_view(r@),
                wiring@,
                maybe_bytes(*stdin),
            ) == Run::Done(x, final(w)@),
            Step::Fail(e) => external(
                old(w)@,
                answers(rs@),
                n as nat,
                texts(argv@),
                pairs(local@),
                redirects_view(r@),
                wiring@,
                maybe_bytes(*stdin),
            ) == Run::<Flow>::Fail(e@, final(w)@),
            Step::Need(a) => external(
                old(w)@,
                answers(rs@),
                n as nat,
                texts(argv@),
                pairs(local@),
                redirects_view(r@),
                wiring@,
                maybe_bytes(*stdin),
            ) == Run::<Flow>::Need(a@),
        },
    decreases n, 3nat,
{
    let env = build_env(&w.sh, local);
    let cwd = w.sh.cwd.clone();
    let input = match find_child_stdin(w, rs, &wiring.stdin, stdin) {
        Step::Done(x) => x,
        Step::Fail(e) => {
            return Step::Fail(e);
        },
        Step::Need(a) => {
            return Step::Need(a);
        },
    };
    let err = match find_child_stderr(w, rs, n, r, wiring) {
        Step::Done(x) => x,
        Step::Fail(e) => {
            return Step::Fail(e);
        },
        Step::Need(a) => {
            return Step::Need(a);
        },
    };
    let merging = merges(r) && wiring.stdout.is_none();
    proof {
        assert(texts(argv@)[0] == argv@[0]@);
    }
    match next_reply(w, rs) {
        Some(a) => Step::Done(Flow::Done(finish_child(w, argv[0].as_str(), merging, a))),
        None => {
            let ghost all = argv@;
            let mut argv = argv;
            let args = argv.split_off(1);
            proof {
                assert(texts(args@) =~= texts(all).skip(1));
            }
            Step::Need(
                Action::Spawn(
                    ChildSpec {
                        program: argv[0].clone(),
                        args,
                        cwd,
                        env,
                        stdin: input,
                        stdout: wiring.stdout,
                        stderr: err,
                    },
                ),
            )
        },
    }
}

/// Runs a simple command.
fn run_simple(
    w: &mut Work,
    rs: &Vec<Reply>,
    n: usize,
    c: &SimpleCommand,
    stdin: &Option<Vec<u8>>,
) -> (res: Step<Flow>)
    requires
        command_below(c@, n as int),
    ensures
        match res {
            Step::Done(x) => simple(old(w)@, answers(rs@), n as nat, c@, maybe_bytes(*stdin)) == Run::Done(x, final(w)@),
            Step::Fail(e) => simple(old(w)@, answers(rs@), n as nat, c@, maybe_bytes(*stdin)) == Run::<Flow>::Fail(e@, final(w)@),
            Step::Need(a) => simple(old(w)@, answers(rs@), n as nat, c@, maybe_bytes(*stdin)) == Run::<Flow>::Need(a@),
        },
    decreases n, 4nat,
{
    let local = match expand_local(w, rs, n, &c.assigns) {
        Step::Done(x) => x,
        Step::Fail(e) => {
            return Step::Fail(e);
        },
        Step::Need(a) => {
            return Step::Need(a);
        },
    };
    if c.argv.len() == 0 {
        let ghost before = w@;
        let ghost goal = set_vars(w.sh@, pairs(local@), 0);
        let mut i: usize = 0;
        while i < local.len()
            invariant
                i <= local@.len(),
                goal == set_vars(w.sh@, pairs(local@), i as int),
                w@ == (World { sh: w.sh@, ..before }),
            decreases local.len() - i,
        {
            let (k, v) = &local[i];
            proof {
                assert(pairs(local@)[i as int] == (k@, v@));
            }
            w.sh.set_var(k.clone(), v.clone());
            i += 1;
        }
        return match touch_redirects(w, rs, &c.redirects) {
            Step::Done(_) => Step::Done(Flow::Done(0)),
            Step::Fail(e) => Step::Fail(e),
            Step::Need(a) => Step::Need(a),
        };
    }
    let argv = match expand_words(w, rs, n, &c.argv) {
        Step::Done(x) => x,
        Step::Fail(e) => {
            return Step::Fail(e);
        },
        Step::Need(a) => {
            return Step::Need(a);
        },
    };
    let wiring = match resolve_redirects(w, rs, n, &c.redirects) {
        Step::Done(x) => x,
        Step::Fail(e) => {
            return Step::Fail(e);
        },
        Step::Need(a) => {
            return Step::Need(a);
        },
    };
    proof {
        assert(texts(argv@)[0] == argv@[0]@);
    }
    if builtin_name(argv[0].as_str()) {
        run_builtin(w, rs, n, &argv, &c.redirects, stdin.is_some())
    } else {
        run_external(w, rs, n, argv, &local, &c.redirects, &wiring, stdin)
    }
}

/// Runs a pipeline.
fn run_pipeline(w: &mut Work, rs: &Vec<Reply>, n: usize, p: &Pipeline) -> (res: Step<Flow>)
    requires
        pipeline_below(p@, n as int),
    ensures
        match res {
            Step::Done(x) => pipe(old(w)@, answers(rs@), n as nat, p@) == Run::Done(x, final(w)@),
            Step::Fail(e) => pipe(old(w)@, answers(rs@), n as nat, p@) == Run::<Flow>::Fail(e@, final(w)@),
            Step::Need(a) => pipe(old(w)@, answers(rs@), n as nat, p@) == Run::<Flow>::Need(a@),
        },
    decreases n, 6nat,
{
    let ghost v = p@;
    if p.stages.len() == 1 {
        proof {
            assert(v[0] == p.stages@[0]@);
            assert(command_below(v[0], n as int));
        }
        return run_simple(w, rs, n, &p.stages[0], &None);
    }
    let ghost goal = pipe(w@, answers(rs@), n as nat, v);
    let mut input: Vec<u8> = Vec::new();
    let mut k: usize = 0;
    proof {
        assert(input@ =~= Seq::<u8>::empty());
    }
    while k < p.stages.len()
        invariant
            k <= v.len(),
            v == p@,
            pipeline_below(v, n as int),
            goal == pipe(old(w)@, answers(rs@), n as nat, v),
            goal == stages(w@, answers(rs@), n as nat, v, k as int, input@),
        decreases p.stages.len() - k,
    {
        proof {
            assert(v[k as int] == p.stages@[k as int]@);
            assert(command_below(v[k as int], n as int));
        }
        let stdin = Some(input);
        if k + 1 == p.stages.len() {
            return run_simple(w, rs, n, &p.stages[k], &stdin);
        }
        let ghost before = w@;
        let mut outer: Vec<u8> = Vec::new();
        core::mem::swap(&mut outer, &mut w.out);
        proof {
            assert(w.out@ =~= Seq::<u8>::empty());
            assert(w@ == (World { out: Seq::empty(), ..before }));
        }
        let r = run_simple(w, rs, n, &p.stages[k], &stdin);
        core::mem::swap(&mut outer, &mut w.out);
        match r {
            Step::Done(Flow::Exit(code)) => {
                return Step::Done(Flow::Exit(code));
            },
            Step::Done(Flow::Done(_)) => {},
            Step::Fail(e) => {
                return Step::Fail(e);
            },
            Step::Need(a) => {
                return Step::Need(a);
            },
        }
        input = outer;
        k += 1;
    }
    Step::Done(Flow::Done(0))
}

/// Runs a chain of pipelines.
fn run_sequence(w: &mut Work, rs: &Vec<Reply>, n: usize, c: &Sequence) -> (res: Step<Flow>)
    requires
        chain_below(c@, n as int),
    ensures
        match res {
            Step::Done(x) => run_chain(old(w)@, answers(rs@), n as nat, c@) == Run::Done(x, final(w)@),
            Step::Fail(e) => run_chain(old(w)@, answers(rs@), n as nat, c@) == Run::<Flow>::Fail(e@, final(w)@),
            Step::Need(a) => run_chain(old(w)@, answers(rs@), n as nat, c@) == Run::<Flow>::Need(a@),
        },
    decreases n, 8nat,
{
    let ghost goal = run_chain(w@, answers(rs@), n as nat, c@);
    let mut last = match run_pipeline(w, rs, n, &c.head) {
        Step::Done(Flow::Done(code)) => code,
        Step::Done(Flow::Exit(code)) => {
            return Step::Done(Flow::Exit(code));
        },
        Step::Fail(e) => {
            return Step::Fail(e);
        },
        Step::Need(a) => {
            return Step::Need(a);
        },
    };
    let ghost tail = c@.tail;
    let mut k: usize = 0;
    while k < c.tail.len()
        invariant
            k <= tail.len(),
            tail == c@.tail,
            tail == tail_view(c.tail@),
            chain_below(c@, n as int),
            goal == run_chain(old(w)@, answers(rs@), n as nat, c@),
            goal == chain_steps(w@, answers(rs@), n as nat, tail, k as int, last),
        decreases c.tail.len() - k,
    {
        proof {
            assert(tail[k as int] == (c.tail@[k as int].0, c.tail@[k as int].1@));
            assert(pipeline_below(c@.tail[k as int].1, n as int));
        }
        if (c.tail[k].0 == SeqOp::AndIf) == (last == 0) {
            match run_pipeline(w, rs, n, &c.tail[k].1) {
                Step::Done(Flow::Done(code)) => {
                    last = code;
                },
                Step::Done(Flow::Exit(code)) => {
                    return Step::Done(Flow::Exit(code));
                },
                Step::Fail(e) => {
                    return Step::Fail(e);
                },
                Step::Need(a) => {
                    return Step::Need(a);
                },
            }
        }
        k += 1;
    }
    Step::Done(Flow::Done(last))
}

/// Runs a script: its exit code.
fn run_script(w: &mut Work, rs: &Vec<Reply>, src: &str) -> (res: Step<i32>)
    ensures
        match res {
            Step::Done(x) => script(old(w)@, answers(rs@), src@) == Run::Done(x, final(w)@),
            Step::Fail(e) => script(old(w)@, answers(rs@), src@) == Run::<i32>::Fail(e@, final(w)@),
            Step::Need(a) => script(old(w)@, answers(rs@), src@) == Run::<i32>::Need(a@),
        },
    decreases encode_utf8(src@).len(), 10nat,
{
    let items = match parse(src) {
        Ok(items) => items,
        Err(e) => {
            return Step::Fail(e);
        },
    };
    let n = src.as_bytes().len();
    let ghost u = items_view(items@);
    let ghost goal = script(w@, answers(rs@), src@);
    let mut k: usize = 0;
    while k < items.len()
        invariant
            k <= items@.len(),
            u == items_view(items@),
            n == encode_utf8(src@).len(),
            units_below(u, n as int),
            goal == script(old(w)@, answers(rs@), src@),
            goal == run_units(w@, answers(rs@), n as nat, u, k as int),
        decreases items.len() - k,
    {
        proof {
            assert(u[k as int] == items@[k as int]@);
            assert(unit_below(u[k as int], n as int));
        }
        match &items[k] {
            Item::BareAssign(name, word) => match expand_word(w, rs, n, word) {
                Step::Done(v) => {
                    w.sh.set_var(name.clone(), v);
                    w.sh.last_exit = 0;
                },
                Step::Fail(e) => {
                    return Step::Fail(e);
                },
                Step::Need(a) => {
                    return Step::Need(a);
                },
            },
            Item::Run(c) => match run_sequence(w, rs, n, c) {
                Step::Done(Flow::Done(code)) => {
                    w.sh.last_exit = code;
                },
                Step::Done(Flow::Exit(code)) => {
                    return Step::Done(code);
                },
                Step::Fail(e) => {
                    return Step::Fail(e);
                },
                Step::Need(a) => {
                    return Step::Need(a);
                },
            },
        }
        k += 1;
    }
    Step::Done(w.sh.last_exit)
}

// ---------------------------------------------------------------------------------
// The shell
// ---------------------------------------------------------------------------------
/// A shell: a directory, variables, and the exit code of the last command.
pub struct VShell {
    state: State,
    timeout: Span,
    cancel: Option<Arc<AtomicBool>>,
}

/// What a script came to.
#[derive(Debug)]
pub struct ExecResult {
    pub exit_code: i32,
    pub stdout: Vec<u8>,
    pub stderr: Vec<u8>,
}

/// A script that has ended, or what it needs to go on.
#[derive(Debug)]
pub enum Progress {
    Done(ExecResult),
    Need(Action),
}

/// Mathematical form of what an execution comes to.
pub enum Execution {
    Done { sh: Shell, exit_code: i32, stdout: Seq<u8>, stderr: Seq<u8> },
    Need(Need),
}

/// The start of a run.
pub open spec fn fresh(sh: Shell, timeout_secs: int) -> World {
    World { sh, out: Seq::empty(), err: Seq::empty(), used: 0, timeout_secs }
}

/// Runs a script. A script that cannot be run ends with code 2 and a line that says why.
pub open spec fn execution(sh: Shell, timeout_secs: int, rs: Seq<Answer>, src: Seq<char>) -> Execution {
    match script(fresh(sh, timeout_secs), rs, src) {
        Run::Done(code, w) => Execution::Done {
            sh: w.sh,
            exit_code: code,
            stdout: w.out,
            stderr: w.err,
        },
        Run::Fail(e, w) => Execution::Done {
            sh: w.sh,
            exit_code: 2,
            stdout: w.out,
            stderr: w.err + line("vshell: "@ + fault_text(e)),
        },
        Run::Need(need) => Execution::Need(need),
    }
}

impl View for VShell {
    type V = Shell;

    closed spec fn view(&self) -> Shell {
        self.state@
    }
}

impl VShell {
    /// Time that a child may take.
    pub closed spec fn spec_timeout(&self) -> Span {
        self.timeout
    }

    /// The token that cancels a child in flight.
    pub closed spec fn spec_cancel(&self) -> Option<Arc<AtomicBool>> {
        self.cancel
    }

    /// A shell in the given directory, without variables.
    pub fn new(cwd: &str) -> (res: Self)
        ensures
            res@ == (Shell {
                cwd: cwd@,
                env: Map::empty(),
                exported: Set::empty(),
                last_exit: 0,
            }),
            res.spec_timeout() == (Span { secs: DEFAULT_TIMEOUT_SECS, nanos: 0 }),
            res.spec_cancel() is None,
    {
        let state = State {
            cwd: cwd.to_owned(),
            env: Table::new(),
            exported: Names::new(),
            last_exit: 0,
        };
        proof {
            assert(state@.env =~= Map::empty());
        }
        VShell { state, timeout: Span { secs: DEFAULT_TIMEOUT_SECS, nanos: 0 }, cancel: None }
    }

    /// Sets the time that a child may take. Built-ins are not subject to it.
    pub fn with_timeout(self, timeout: Span) -> (res: Self)
        ensures
            res@ == self@,
            res.spec_timeout() == timeout,
            res.spec_cancel() == self.spec_cancel(),
    {
        VShell { state: self.state, timeout, cancel: self.cancel }
    }

    /// Installs a token; setting it ends any child in flight.
    pub fn with_cancel(self, cancel: Arc<AtomicBool>) -> (res: Self)
        ensures
            res@ == self@,
            res.spec_timeout() == self.spec_timeout(),
            res.spec_cancel() == Some(cancel),
    {
        VShell { state: self.state, timeout: self.timeout, cancel: Some(cancel) }
    }

    /// Time that a child may take.
    pub fn timeout(&self) -> (res: Span)
        ensures
            res == self.spec_timeout(),
    {
        self.timeout
    }

    /// The token that cancels a child in flight.
    pub fn cancel(&self) -> (res: &Option<Arc<AtomicBool>>)
        ensures
            *res == self.spec_cancel(),
    {
        &self.cancel
    }

    /// The directory the shell is in.
    pub fn cwd(&self) -> (res: &str)
        ensures
            res@ == self@.cwd,
    {
        self.state.cwd.as_str()
    }

    /// The value of a variable.
    pub fn env(&self, key: &str) -> (res: Option<&str>)
        ensures
            match res {
                Some(v) => self@.env.contains_key(key@) && self@.env[key@] == v@,
                None => !self@.env.contains_key(key@),
            },
    {
        match self.state.var(key) {
            Some(v) => Some(v.as_str()),
            None => None,
        }
    }

    /// Sets a variable. It is not exported.
    pub fn set_env(&mut self, key: &str, value: &str)
        ensures
            final(self)@ == set_var(old(self)@, key@, value@),
            final(self).spec_timeout() == old(self).spec_timeout(),
            final(self).spec_cancel() == old(self).spec_cancel(),
    {
        self.state.set_var(key.to_owned(), value.to_owned());
    }

    /// Runs a script with the answers that were given so far. Where one is missing, the
    /// shell stays as it was and the result says what is needed; add the answer to the
    /// replies and run the same script again.
    pub fn execute(&mut self, script: &str, replies: &Vec<Reply>) -> (res: Progress)
        ensures
            match res {
                Progress::Done(r) => execution(
                    old(self)@,
                    old(self).spec_timeout().secs as int,
                    answers(replies@),
                    script@,
                ) == (Execution::Done {
                    sh: final(self)@,
                    exit_code: r.exit_code,
                    stdout: r.stdout@,
                    stderr: r.stderr@,
                }),
                Progress::Need(a) => {
                    &&& execution(
                        old(self)@,
                        old(self).spec_timeout().secs as int,
                        answers(replies@),
                        script@,
                    ) == Execution::Need(a@)
                    &&& final(self)@ == old(self)@
                },
            },
            final(self).spec_timeout() == old(self).spec_timeout(),
            final(self).spec_cancel() == old(self).spec_cancel(),
    {
        let mut w = Work {
            sh: self.state.copy(),
            out: Vec::new(),
            err: Vec::new(),
            used: 0,
            timeout_secs: self.timeout.secs,
        };
        proof {
            assert(w@ == fresh(self@, self.timeout.secs as int));
        }
        match run_script(&mut w, replies, script) {
            Step::Done(code) => {
                let Work { sh, out, err, .. } = w;
                self.state = sh;
                Progress::Done(ExecResult { exit_code: code, stdout: out, stderr: err })
            },
            Step::Fail(e) => {
                let mut msg = "vshell: ".to_owned();
                msg.push_str(e.message().as_str());
                push_line(&mut w.err, msg.as_str());
                let Work { sh, out, err, .. } = w;
                self.state = sh;
                Progress::Done(ExecResult { exit_code: 2, stdout: out, stderr: err })
            },
            Step::Need(a) => Progress::Need(a),
        }
    }
}

// ---------------------------------------------------------------------------------
// Laws
// ---------------------------------------------------------------------------------
/// Inside a pipeline no built-in changes the shell.
pub proof fn law_pipeline_keeps_shell(w: World, rs: Seq<Answer>, argv: Seq<Seq<char>>)
    ensures
        run_told(w, rs, argv, true) matches Run::Done(_, w2) && w2 == w,
{
}

/// Whether a word runs no script when it is expanded.
pub open spec fn runs_nothing(parts: Seq<Part>) -> bool {
    forall|k: int| 0 <= k < parts.len() ==> !((#[trigger] parts[k]) is CmdSub)
}

proof fn lemma_expand_keeps(
    w: World,
    rs: Seq<Answer>,
    n: nat,
    parts: Seq<Part>,
    k: int,
    acc: Seq<char>,
)
    requires
        runs_nothing(parts),
    ensures
        expand(w, rs, n, parts, k, acc) matches Run::Done(_, w2) && w2 == w,
    decreases parts.len() - k,
{
    if 0 <= k < parts.len() {
        assert(!(parts[k] is CmdSub));
        match parts[k] {
            Part::Literal(s) => lemma_expand_keeps(w, rs, n, parts, k + 1, acc + s),
            Part::Var(name) => {
                if w.sh.env.contains_key(name) {
                    lemma_expand_keeps(w, rs, n, parts, k + 1, acc + w.sh.env[name]);
                } else {
                    lemma_expand_keeps(w, rs, n, parts, k + 1, acc);
                }
            },
            Part::CmdSub(_) => {},
        }
    }
}

/// Assignments in front of an external command do not reach the shell: the command gets
/// them in its environment, and the shell's variables and place stay as they were. The file
/// that `2>&1` opens once more may not be named by a script.
pub proof fn law_prefix_is_local(
    w: World,
    rs: Seq<Answer>,
    n: nat,
    argv: Seq<Seq<char>>,
    local: Seq<(Seq<char>, Seq<char>)>,
    r: Seq<Redir>,
    wiring: Wiring,
    stdin: Option<Seq<u8>>,
)
    requires
        local.len() > 0,
        has_merge(r) && 0 <= first_out(r, 0) < r.len() ==> runs_nothing(
            redir_target(r[first_out(r, 0)]).unwrap().0,
        ),
    ensures
        external(w, rs, n, argv, local, r, wiring, stdin) matches Run::Done(_, w2) ==> w2.sh
            == w.sh,
        child_env(w.sh, local).contains_key(local.last().0),
        child_env(w.sh, local)[local.last().0] == local.last().1,
{
    lemma_overlay_last(w.sh.env.restrict(w.sh.exported), local, 0);
    if has_merge(r) && 0 <= first_out(r, 0) < r.len() {
        let x = redir_target(r[first_out(r, 0)]).unwrap().0;
        if let Run::Done(_, w2) = child_stdin(w, rs, wiring.stdin, stdin) {
            lemma_expand_keeps(w2, rs, n, x, 0, Seq::empty());
        }
    }
}

/// After a failure the step behind `&&` is skipped, after a success the one behind `||`:
/// nothing of it is done.
pub proof fn law_steps_are_skipped(
    w: World,
    rs: Seq<Answer>,
    n: nat,
    tail: Seq<(SeqOp, Seq<Command>)>,
    k: int,
    last: i32,
)
    requires
        0 <= k < tail.len(),
        (tail[k].0 == SeqOp::AndIf) != (last == 0),
    ensures
        chain_steps(w, rs, n, tail, k, last) == chain_steps(w, rs, n, tail, k + 1, last),
{
}

proof fn lemma_overlay_last(
    m: Map<Seq<char>, Seq<char>>,
    l: Seq<(Seq<char>, Seq<char>)>,
    i: int,
)
    requires
        0 <= i < l.len(),
    ensures
        overlay(m, l, i).contains_key(l.last().0),
        overlay(m, l, i)[l.last().0] == l.last().1,
    decreases l.len() - i,
{
    if i + 1 < l.len() {
        lemma_overlay_last(m.insert(l[i].0, l[i].1), l, i + 1);
    } else {
        assert(overlay(m, l, i) == overlay(m.insert(l[i].0, l[i].1), l, i + 1));
        assert(overlay(m.insert(l[i].0, l[i].1), l, i + 1) == m.insert(l[i].0, l[i].1));
    }
}

/// A variable that is not exported is invisible to a child, unless it is set in front of
/// the command.
pub proof fn law_unexported_is_hidden(
    sh: Shell,
    local: Seq<(Seq<char>, Seq<char>)>,
    name: Seq<char>,
)
    requires
        !sh.exported.contains(name),
        forall|i: int| 0 <= i < local.len() ==> (#[trigger] local[i]).0 != name,
    ensures
        !child_env(sh, local).contains_key(name),
{
    lemma_overlay_absent(sh.env.restrict(sh.exported), local, 0, name);
}

proof fn lemma_overlay_absent(
    m: Map<Seq<char>, Seq<char>>,
    l: Seq<(Seq<char>, Seq<char>)>,
    i: int,
    name: Seq<char>,
)
    requires
        0 <= i <= l.len(),
        !m.contains_key(name),
        forall|k: int| 0 <= k < l.len() ==> (#[trigger] l[k]).0 != name,
    ensures
        !overlay(m, l, i).contains_key(name),
    decreases l.len() - i,
{
    if i < l.len() {
        assert(l[i].0 != name);
        lemma_overlay_absent(m.insert(l[i].0, l[i].1), l, i + 1, name);
    }
}

} // verus!

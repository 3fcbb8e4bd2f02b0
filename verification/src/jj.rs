//! Branch strategies for Jujutsu: where an agent works in a repository, and what becomes of
//! its work.
//!
//! A strategy is a function of what `jj` and the file system answered so far: it is
//! finished, or it names the next thing to do. An answer of another kind than was asked for
//! is no answer. Workspaces live at `<repo>/.sandcastle/workspaces/<name>`.

use vstd::prelude::*;

use crate::paths::{lemma_parent, names, parent, parent_of, path_for, path_in, trim_path};
use crate::text::{
    bytes_copy, chars_of, dec, dec_string, is_white, join_words, maybe, readable, spaced, text_eq,
    text_of, texts, trim_end, trimmed_end, utf8_lossy, white, word_end,
};

verus! {

/// How the agent ended.
#[derive(Debug)]
pub enum AgentStatus {
    Success,
    Failure(String),
}

#[derive(Debug)]
pub enum GitError {
    /// The text of an operating-system error.
    Io(String),
    /// A command failed.
    Git { command: String, stderr: String, exit: i32 },
    NotARepo(String),
    DirtyTree,
    Other(String),
}

/// Mathematical form of a `GitError`.
pub enum Fault {
    Io(Seq<char>),
    Git { command: Seq<char>, stderr: Seq<char>, exit: i32 },
    NotARepo(Seq<char>),
    DirtyTree,
    Other(Seq<char>),
}

impl View for GitError {
    type V = Fault;

    open spec fn view(&self) -> Fault {
        match *self {
            GitError::Io(m) => Fault::Io(m@),
            GitError::Git { command, stderr, exit } => Fault::Git {
                command: command@,
                stderr: stderr@,
                exit,
            },
            GitError::NotARepo(p) => Fault::NotARepo(p@),
            GitError::DirtyTree => Fault::DirtyTree,
            GitError::Other(m) => Fault::Other(m@),
        }
    }
}

/// Where an agent works.
#[derive(Debug)]
pub struct Workspace {
    pub path: String,
    /// Name of the workspace.
    pub source_branch: String,
    /// The bookmark that the work goes to, if any.
    pub target_branch: Option<String>,
}

/// Mathematical form of a `Workspace`.
pub struct Space {
    pub path: Seq<char>,
    pub source: Seq<char>,
    pub target: Option<Seq<char>>,
}

impl View for Workspace {
    type V = Space;

    open spec fn view(&self) -> Space {
        Space {
            path: self.path@,
            source: self.source_branch@,
            target: maybe(self.target_branch),
        }
    }
}

/// Something to do.
#[derive(Debug)]
pub enum JjAction {
    /// Look whether a path exists.
    Exists(String),
    /// Run `jj` with these arguments in a directory.
    Run { args: Vec<String>, cwd: String },
    /// Make a directory and those above it.
    MakeDirs(String),
    /// Remove a directory and what is in it.
    RemoveDirs(String),
}

/// Mathematical form of a `JjAction`.
pub enum JjNeed {
    Exists(Seq<char>),
    Run { args: Seq<Seq<char>>, cwd: Seq<char> },
    MakeDirs(Seq<char>),
    RemoveDirs(Seq<char>),
}

impl View for JjAction {
    type V = JjNeed;

    open spec fn view(&self) -> JjNeed {
        match *self {
            JjAction::Exists(p) => JjNeed::Exists(p@),
            JjAction::Run { args, cwd } => JjNeed::Run { args: texts(args@), cwd: cwd@ },
            JjAction::MakeDirs(p) => JjNeed::MakeDirs(p@),
            JjAction::RemoveDirs(p) => JjNeed::RemoveDirs(p@),
        }
    }
}

/// What a command came to.
#[derive(Debug)]
pub struct Output {
    pub success: bool,
    /// The exit code; none if a signal ended the command.
    pub code: Option<i32>,
    pub stdout: Vec<u8>,
    pub stderr: Vec<u8>,
}

/// The answer to a `JjAction`.
#[derive(Debug)]
pub enum JjReply {
    Exists(bool),
    Ran(Output),
    Done,
    /// It could not be done, with the text of the operating system's error.
    Failed(String),
}

/// Where a strategy stands.
#[derive(Debug)]
pub enum JjStep<T> {
    Need(JjAction),
    Done(Result<T, GitError>),
}

/// Mathematical form of where a strategy stands: it needs something, it failed, or it got
/// to a value, with the number of answers used up.
pub enum Flow<T> {
    Need(JjNeed),
    Fail(Fault),
    Go(T, int),
}

// ---------------------------------------------------------------------------------
// Commands
// ---------------------------------------------------------------------------------
/// The output of a command, or how it failed.
pub open spec fn command_result(args: Seq<Seq<char>>, out: Output) -> Result<Seq<u8>, Fault> {
    if out.success {
        Ok(out.stdout@)
    } else {
        Err(
            Fault::Git {
                command: spaced(args, args.len() as int),
                stderr: readable(out.stderr@),
                exit: match out.code {
                    Some(c) => c,
                    None => (-1int) as i32,
                },
            },
        )
    }
}

/// Runs a command.
pub open spec fn ran(args: Seq<Seq<char>>, cwd: Seq<char>, r: Seq<JjReply>, k: int) -> Flow<
    Seq<u8>,
> {
    if k >= r.len() {
        Flow::Need(JjNeed::Run { args, cwd })
    } else {
        match r[k] {
            JjReply::Ran(out) => match command_result(args, out) {
                Ok(b) => Flow::Go(b, k + 1),
                Err(f) => Flow::Fail(f),
            },
            JjReply::Failed(m) => Flow::Fail(Fault::Io(m@)),
            _ => Flow::Need(JjNeed::Run { args, cwd }),
        }
    }
}

/// What a command's outcome says: its output, or an error with the command and what it
/// wrote to stderr.
pub fn jj_cmd(args: &Vec<String>, out: &Output) -> (res: Result<Vec<u8>, GitError>)
    ensures
        match command_result(texts(args@), *out) {
            Ok(b) => res matches Ok(v) && v@ == b,
            Err(f) => res matches Err(e) && e@ == f,
        },
{
    if out.success {
        Ok(bytes_copy(out.stdout.as_slice()))
    } else {
        let exit: i32 = match out.code {
            Some(c) => c,
            None => -1,
        };
        Err(
            GitError::Git {
                command: join_words(args),
                stderr: utf8_lossy(out.stderr.as_slice()),
                exit,
            },
        )
    }
}

/// Why a strategy stopped short.
#[derive(Debug)]
pub enum Halt {
    Need(JjAction),
    Fail(GitError),
}

/// Whether a stop is the one that is called for.
pub open spec fn halts<V>(h: Halt, f: Flow<V>) -> bool {
    match f {
        Flow::Need(n) => h matches Halt::Need(a) && a@ == n,
        Flow::Fail(e) => h matches Halt::Fail(g) && g@ == e,
        Flow::Go(_, _) => false,
    }
}

fn run_jj(args: Vec<String>, cwd: &str, r: &Vec<JjReply>, k: usize) -> (res: Result<
    (Vec<u8>, usize),
    Halt,
>)
    ensures
        match res {
            Ok(x) => ran(texts(args@), cwd@, r@, k as int) == Flow::Go(x.0@, x.1 as int) && x.1
                <= r@.len(),
            Err(h) => halts(h, ran(texts(args@), cwd@, r@, k as int)),
        },
{
    if k >= r.len() {
        return Err(Halt::Need(JjAction::Run { args, cwd: cwd.to_owned() }));
    }
    match &r[k] {
        JjReply::Ran(out) => match jj_cmd(&args, out) {
            Ok(b) => Ok((b, k + 1)),
            Err(e) => Err(Halt::Fail(e)),
        },
        JjReply::Failed(m) => Err(Halt::Fail(GitError::Io(m.clone()))),
        _ => Err(Halt::Need(JjAction::Run { args, cwd: cwd.to_owned() })),
    }
}

fn strs(w: &Vec<&str>) -> (res: Vec<String>)
    ensures
        texts(res@) == Seq::new(w@.len(), |i: int| w@[i]@),
{
    let mut res: Vec<String> = Vec::new();
    let mut i: usize = 0;
    while i < w.len()
        invariant
            i <= w@.len(),
            res@.len() == i,
            forall|k: int| 0 <= k < i ==> (#[trigger] res@[k])@ == w@[k]@,
        decreases w.len() - i,
    {
        res.push(w[i].to_owned());
        i += 1;
    }
    proof {
        assert(texts(res@) =~= Seq::new(w@.len(), |k: int| w@[k]@));
    }
    res
}

/// Looks whether a directory is in a repository.
pub open spec fn in_repo(root: Seq<char>, r: Seq<JjReply>) -> Flow<()> {
    if r.len() == 0 {
        Flow::Need(JjNeed::Exists(root))
    } else {
        match r[0] {
            JjReply::Exists(true) => match ran(seq!["root"@], root, r, 1) {
                Flow::Need(n) => Flow::Need(n),
                Flow::Fail(_) => Flow::Fail(Fault::NotARepo(root)),
                Flow::Go(_, k) => Flow::Go((), k),
            },
            JjReply::Exists(false) => Flow::Fail(Fault::NotARepo(root)),
            _ => Flow::Need(JjNeed::Exists(root)),
        }
    }
}

fn ensure_repo(root: &str, r: &Vec<JjReply>) -> (res: Result<usize, Halt>)
    ensures
        match res {
            Ok(k) => in_repo(root@, r@) == Flow::Go((), k as int) && k <= r@.len(),
            Err(h) => halts(h, in_repo(root@, r@)),
        },
{
    if r.len() == 0 {
        return Err(Halt::Need(JjAction::Exists(root.to_owned())));
    }
    match &r[0] {
        JjReply::Exists(there) => {
            if !*there {
                return Err(Halt::Fail(GitError::NotARepo(root.to_owned())));
            }
            let mut w: Vec<&str> = Vec::new();
            w.push("root");
            let args = strs(&w);
            proof {
                assert(texts(args@) =~= seq!["root"@]);
            }
            match run_jj(args, root, r, 1) {
                Ok(x) => Ok(x.1),
                Err(Halt::Need(a)) => Err(Halt::Need(a)),
                Err(Halt::Fail(_)) => Err(Halt::Fail(GitError::NotARepo(root.to_owned()))),
            }
        },
        _ => Err(Halt::Need(JjAction::Exists(root.to_owned()))),
    }
}

/// The arguments that ask whether the working copy holds nothing new.
pub open spec fn empty_args() -> Seq<Seq<char>> {
    seq!["log"@, "--no-graph"@, "-r"@, "@"@, "-T"@, "empty"@]
}

/// Looks whether the working copy holds something new. Anything but `true` says that it
/// does.
pub open spec fn dirty(root: Seq<char>, r: Seq<JjReply>, k: int) -> Flow<bool> {
    match ran(empty_args(), root, r, k) {
        Flow::Need(n) => Flow::Need(n),
        Flow::Fail(f) => Flow::Fail(f),
        Flow::Go(b, n) => Flow::Go(trim_end(readable(b)) != "true"@, n),
    }
}

fn working_copy_is_dirty(root: &str, r: &Vec<JjReply>, k: usize) -> (res: Result<
    (bool, usize),
    Halt,
>)
    ensures
        match res {
            Ok(x) => dirty(root@, r@, k as int) == Flow::Go(x.0, x.1 as int) && x.1 <= r@.len(),
            Err(h) => halts(h, dirty(root@, r@, k as int)),
        },
{
    let mut w: Vec<&str> = Vec::new();
    w.push("log");
    w.push("--no-graph");
    w.push("-r");
    w.push("@");
    w.push("-T");
    w.push("empty");
    let args = strs(&w);
    proof {
        assert(texts(args@) =~= empty_args());
    }
    match run_jj(args, root, r, k) {
        Ok(x) => {
            let s = trimmed_end(utf8_lossy(x.0.as_slice()).as_str());
            Ok((!text_eq(s.as_str(), "true"), x.1))
        },
        Err(h) => Err(h),
    }
}

/// A word without the stars at its end.
pub open spec fn starless(w: Seq<char>) -> Seq<char>
    decreases w.len(),
{
    if w.len() > 0 && w.last() == '*' {
        starless(w.drop_last())
    } else {
        w
    }
}

/// The first word from offset `i` on that is more than stars, without the stars at its
/// end.
pub open spec fn first_bookmark(s: Seq<char>, i: int) -> Option<Seq<char>>
    decreases s.len() - i,
{
    if i < 0 || i >= s.len() {
        None
    } else if is_white(s[i]) {
        first_bookmark(s, i + 1)
    } else {
        let z = word_end(s, i + 1);
        let w = starless(s.subrange(i, z));
        if w.len() > 0 {
            Some(w)
        } else if i < z <= s.len() {
            first_bookmark(s, z)
        } else {
            None
        }
    }
}

/// The arguments that ask for the bookmarks at the parent of the working copy.
pub open spec fn bookmark_args() -> Seq<Seq<char>> {
    seq!["log"@, "--no-graph"@, "-r"@, "@-"@, "-T"@, "bookmarks ++ \"\\n\""@]
}

/// The bookmark at the parent of the working copy.
pub open spec fn source(root: Seq<char>, r: Seq<JjReply>, k: int) -> Flow<Option<Seq<char>>> {
    match ran(bookmark_args(), root, r, k) {
        Flow::Need(n) => Flow::Need(n),
        Flow::Fail(f) => Flow::Fail(f),
        Flow::Go(b, n) => Flow::Go(first_bookmark(trim_end(readable(b)), 0), n),
    }
}

/// The first bookmark in what `jj` prints.
pub fn pick_bookmark(raw: &str) -> (res: Option<String>)
    ensures
        maybe(res) == first_bookmark(raw@, 0),
{
    let chars = chars_of(raw);
    let s = chars.as_slice();
    let mut i: usize = 0;
    while i < s.len()
        invariant
            i <= s@.len(),
            s@ == raw@,
            first_bookmark(raw@, 0) == first_bookmark(raw@, i as int),
        decreases s.len() - i,
    {
        if white(s[i]) {
            i += 1;
        } else {
            let mut z: usize = i + 1;
            while z < s.len() && !white(s[z])
                invariant
                    i < z <= s@.len(),
                    word_end(s@, i + 1) == word_end(s@, z as int),
                decreases s.len() - z,
            {
                z += 1;
            }
            let mut to: usize = z;
            let ghost whole = s@.subrange(i as int, z as int);
            while to > i && s[to - 1] == '*'
                invariant
                    i <= to <= z <= s@.len(),
                    starless(whole) == starless(s@.subrange(i as int, to as int)),
                decreases to,
            {
                proof {
                    assert(s@.subrange(i as int, to as int).drop_last() =~= s@.subrange(
                        i as int,
                        to - 1,
                    ));
                }
                to -= 1;
            }
            proof {
                assert(starless(whole) == s@.subrange(i as int, to as int));
            }
            if to > i {
                return Some(text_of(s, i, to));
            }
            i = z;
        }
    }
    None
}

fn source_bookmark(root: &str, r: &Vec<JjReply>, k: usize) -> (res: Result<
    (Option<String>, usize),
    Halt,
>)
    ensures
        match res {
            Ok(x) => source(root@, r@, k as int) == Flow::Go(maybe(x.0), x.1 as int) && x.1
                <= r@.len(),
            Err(h) => halts(h, source(root@, r@, k as int)),
        },
{
    let mut w: Vec<&str> = Vec::new();
    w.push("log");
    w.push("--no-graph");
    w.push("-r");
    w.push("@-");
    w.push("-T");
    w.push("bookmarks ++ \"\\n\"");
    let args = strs(&w);
    proof {
        assert(texts(args@) =~= bookmark_args());
    }
    match run_jj(args, root, r, k) {
        Ok(x) => {
            let raw = trimmed_end(utf8_lossy(x.0.as_slice()).as_str());
            Ok((pick_bookmark(raw.as_str()), x.1))
        },
        Err(h) => Err(h),
    }
}

/// Whether output holds anything but ASCII white space.
pub open spec fn says_something(b: Seq<u8>) -> bool {
    exists|i: int|
        0 <= i < b.len() && !(#[trigger] b[i] == 0x20 || b[i] == 0x09 || b[i] == 0x0a || b[i]
            == 0x0c || b[i] == 0x0d)
}

fn prints_something(b: &Vec<u8>) -> (res: bool)
    ensures
        res == says_something(b@),
{
    let mut i: usize = 0;
    while i < b.len()
        invariant
            i <= b@.len(),
            forall|k: int|
                0 <= k < i ==> (#[trigger] b@[k] == 0x20 || b@[k] == 0x09 || b@[k] == 0x0a
                    || b@[k] == 0x0c || b@[k] == 0x0d),
        decreases b.len() - i,
    {
        let c: u8 = b[i];
        if !(c == 0x20 || c == 0x09 || c == 0x0a || c == 0x0c || c == 0x0d) {
            return true;
        }
        i += 1;
    }
    false
}

/// Looks whether a bookmark exists.
pub open spec fn known(root: Seq<char>, name: Seq<char>, r: Seq<JjReply>, k: int) -> Flow<bool> {
    match ran(seq!["bookmark"@, "list"@, name], root, r, k) {
        Flow::Need(n) => Flow::Need(n),
        Flow::Fail(f) => Flow::Fail(f),
        Flow::Go(b, n) => Flow::Go(says_something(b), n),
    }
}

fn bookmark_exists(root: &str, name: &str, r: &Vec<JjReply>, k: usize) -> (res: Result<
    (bool, usize),
    Halt,
>)
    ensures
        match res {
            Ok(x) => known(root@, name@, r@, k as int) == Flow::Go(x.0, x.1 as int) && x.1
                <= r@.len(),
            Err(h) => halts(h, known(root@, name@, r@, k as int)),
        },
{
    let mut w: Vec<&str> = Vec::new();
    w.push("bookmark");
    w.push("list");
    w.push(name);
    let args = strs(&w);
    proof {
        assert(texts(args@) =~= seq!["bookmark"@, "list"@, name@]);
    }
    match run_jj(args, root, r, k) {
        Ok(x) => Ok((prints_something(&x.0), x.1)),
        Err(h) => Err(h),
    }
}

// ---------------------------------------------------------------------------------
// Names and places
// ---------------------------------------------------------------------------------
/// The directory of the workspaces.
pub open spec fn spaces_dir(root: Seq<char>) -> Seq<char> {
    path_in(path_in(root, ".sandcastle"@), "workspaces"@)
}

fn workspace_root(root: &str) -> (res: String)
    ensures
        res@ == spaces_dir(root@),
{
    path_for(path_for(root, ".sandcastle").as_str(), "workspaces")
}

/// The repository that a workspace belongs to: three directories up.
pub open spec fn home(ws: Seq<char>) -> Option<Seq<char>> {
    match parent(ws) {
        None => None,
        Some(a) => match parent(a) {
            None => None,
            Some(b) => parent(b),
        },
    }
}

/// The repository that a workspace belongs to.
pub fn repo_root_from_workspace(ws: &str) -> (res: Result<String, GitError>)
    ensures
        match home(ws@) {
            Some(p) => res matches Ok(s) && s@ == p,
            None => res matches Err(e) && e@ == Fault::Other(
                "can't infer repo root from "@ + ws@,
            ),
        },
{
    if let Some(a) = parent_of(ws) {
        if let Some(b) = parent_of(a.as_str()) {
            if let Some(c) = parent_of(b.as_str()) {
                return Ok(c);
            }
        }
    }
    let mut m = "can't infer repo root from ".to_owned();
    m.push_str(ws);
    Err(GitError::Other(m))
}

pub open spec fn leap(y: int) -> bool {
    (y % 4 == 0 && y % 100 != 0) || y % 400 == 0
}

/// Number of days in a year.
pub open spec fn year_len(y: int) -> int {
    if leap(y) {
        366
    } else {
        365
    }
}

/// Number of days in a month, counted from 1.
pub open spec fn month_len(y: int, m: int) -> int {
    if m == 2 {
        if leap(y) {
            29
        } else {
            28
        }
    } else if m == 4 || m == 6 || m == 9 || m == 11 {
        30
    } else {
        31
    }
}

/// Days from the beginning of 1970 to the beginning of a year.
pub open spec fn year_start(y: int) -> int
    decreases y - 1970,
{
    if y <= 1970 {
        0
    } else {
        year_start(y - 1) + year_len(y - 1)
    }
}

/// Days from the beginning of a year to the beginning of a month.
pub open spec fn month_start(y: int, m: int) -> int
    decreases m,
{
    if m <= 1 {
        0
    } else {
        month_start(y, m - 1) + month_len(y, m - 1)
    }
}

/// A date of the calendar.
pub open spec fn is_date(y: int, m: int, d: int) -> bool {
    1970 <= y && 1 <= m <= 12 && 1 <= d <= month_len(y, m)
}

/// Days from the beginning of 1970 to a date.
pub open spec fn day_number(y: int, m: int, d: int) -> int {
    year_start(y) + month_start(y, m) + d - 1
}

fn is_leap(y: u64) -> (res: bool)
    ensures
        res == leap(y as int),
{
    (y % 4 == 0 && y % 100 != 0) || y % 400 == 0
}

fn days_in_month(y: u64, m: u32) -> (n: u64)
    ensures
        n == month_len(y as int, m as int),
        28 <= n <= 31,
{
    if m == 2 {
        if is_leap(y) {
            29
        } else {
            28
        }
    } else if m == 4 || m == 6 || m == 9 || m == 11 {
        30
    } else {
        31
    }
}

proof fn lemma_year_len(y: int)
    ensures
        month_start(y, 13) == year_len(y),
{
    reveal_with_fuel(month_start, 14);
}

/// Whether a point in time lies on a day of the year `y`. Of the year, 32 bits are given.
pub open spec fn dated(short: u32, m: u32, d: u32, secs: u64, y: int) -> bool {
    &&& is_date(y, m as int, d as int)
    &&& day_number(y, m as int, d as int) == secs / 86400
    &&& short == y % 0x1_0000_0000
}

/// The date and the time of day, in seconds since 1970. A year that does not fit in 32 bits
/// is cut to them.
pub fn unix_to_ymdhms(secs: u64) -> (res: (u32, u32, u32, u32, u32, u32))
    ensures
        exists|y: int| #[trigger] dated(res.0, res.1, res.2, secs, y),
        res.3 == secs / 3600 % 24,
        res.4 == secs / 60 % 60,
        res.5 == secs % 60,
{
    let s: u32 = (secs % 60) as u32;
    let mi: u32 = (secs / 60 % 60) as u32;
    let h: u32 = (secs / 3600 % 24) as u32;
    let all: u64 = secs / 86400;
    let mut days: u64 = all;
    let mut year: u64 = 1970;
    loop
        invariant_except_break
            true,
        invariant
            1970 <= year,
            days + year_start(year as int) == all,
            year - 1970 + days <= all,
            all == secs / 86400,
        ensures
            days < year_len(year as int),
        decreases days,
    {
        let len: u64 = if is_leap(year) {
            366
        } else {
            365
        };
        if days < len {
            break;
        }
        days -= len;
        year += 1;
    }
    let mut month: u32 = 1;
    let ghost left = days;
    while month < 13 && days >= days_in_month(year, month)
        invariant
            1 <= month <= 13,
            days + month_start(year as int, month as int) == left,
            left < year_len(year as int),
        decreases 13 - month,
    {
        days -= days_in_month(year, month);
        month += 1;
    }
    proof {
        lemma_year_len(year as int);
        assert(month < 13);
    }
    let day: u32 = (days + 1) as u32;
    proof {
        assert(is_date(year as int, month as int, day as int));
        assert(day_number(year as int, month as int, day as int) == secs / 86400);
    }
    let short: u32 = (year % 0x1_0000_0000) as u32;
    let res = (short, month, day, h, mi, s);
    proof {
        assert(dated(res.0, res.1, res.2, secs, year as int));
        assert(exists|y: int| #[trigger] dated(res.0, res.1, res.2, secs, y));
    }
    res
}

/// A number with zeros before it, up to a width.
pub open spec fn padded(s: Seq<char>, width: nat) -> Seq<char> {
    if s.len() >= width {
        s
    } else {
        Seq::new((width - s.len()) as nat, |i: int| '0') + s
    }
}

/// A number of 16 bits as four hexadecimal digits.
pub open spec fn hex4(n: int) -> Seq<char> {
    seq![
        crate::json::hex(n / 4096 % 16),
        crate::json::hex(n / 256 % 16),
        crate::json::hex(n / 16 % 16),
        crate::json::hex(n % 16),
    ]
}

/// A name for a workspace, made of a date, a time and four digits.
pub open spec fn space_name(t: (u32, u32, u32, u32, u32, u32), suffix: int) -> Seq<char> {
    "agent-"@ + padded(dec(t.0 as nat), 4) + padded(dec(t.1 as nat), 2) + padded(dec(t.2 as nat), 2)
        + "-"@ + padded(dec(t.3 as nat), 2) + padded(dec(t.4 as nat), 2) + padded(
        dec(t.5 as nat),
        2,
    ) + "-"@ + hex4(suffix)
}

fn push_padded(out: &mut String, n: u32, width: usize)
    ensures
        final(out)@ == old(out)@ + padded(dec(n as nat), width as nat),
{
    let ghost start = out@;
    let d = dec_string(n as u128);
    let len = chars_of(d.as_str()).len();
    let mut k: usize = len;
    while k < width
        invariant
            k >= len,
            k <= width || k == len,
            out@ =~= start + Seq::new((k - len) as nat, |i: int| '0'),
        decreases width - k,
    {
        out.push('0');
        k += 1;
    }
    out.push_str(d.as_str());
    proof {
        assert(out@ =~= start + padded(d@, width as nat));
    }
}

fn push_hex(out: &mut String, d: u8)
    requires
        d < 16,
    ensures
        final(out)@ == old(out)@.push(crate::json::hex(d as int)),
{
    let c: u8 = if d < 10 {
        48 + d
    } else {
        87 + d
    };
    out.push(c as char);
}

/// The last four digits of a name: they depend on the process and on the clock.
pub open spec fn suffix_of(pid: u32, nanos: u32) -> int {
    (pid * 2654435761 + nanos) % 0x1_0000
}

/// A name for a workspace.
pub fn gen_workspace_name(secs: u64, nanos: u32, pid: u32) -> (res: String)
    ensures
        exists|y: int, short: u32, m: u32, d: u32| #[trigger]
            dated(short, m, d, secs, y) && res@ == space_name(
                (
                    short,
                    m,
                    d,
                    (secs / 3600 % 24) as u32,
                    (secs / 60 % 60) as u32,
                    (secs % 60) as u32,
                ),
                suffix_of(pid, nanos),
            ),
{
    let (y, mo, d, h, mi, s) = unix_to_ymdhms(secs);
    let suffix: u64 = (pid as u64 * 2654435761 + nanos as u64) % 0x1_0000;
    let mut res = "agent-".to_owned();
    push_padded(&mut res, y, 4);
    push_padded(&mut res, mo, 2);
    push_padded(&mut res, d, 2);
    res.push_str("-");
    push_padded(&mut res, h, 2);
    push_padded(&mut res, mi, 2);
    push_padded(&mut res, s, 2);
    res.push_str("-");
    let ghost front = res@;
    push_hex(&mut res, (suffix / 4096 % 16) as u8);
    push_hex(&mut res, (suffix / 256 % 16) as u8);
    push_hex(&mut res, (suffix / 16 % 16) as u8);
    push_hex(&mut res, (suffix % 16) as u8);
    proof {
        assert(res@ =~= front + hex4(suffix as int));
        let year = choose|year: int| #[trigger] dated(y, mo, d, secs, year);
        assert(dated(y, mo, d, secs, year));
        assert(res@ == space_name((y, mo, d, h, mi, s), suffix as int));
    }
    res
}

// ---------------------------------------------------------------------------------
// Strategies
// ---------------------------------------------------------------------------------
/// What preparing comes to.
pub open spec fn prepares(res: JjStep<Workspace>, f: Flow<Space>) -> bool {
    match f {
        Flow::Need(n) => res matches JjStep::Need(a) && a@ == n,
        Flow::Fail(e) => res matches JjStep::Done(Err(g)) && g@ == e,
        Flow::Go(w, _) => res matches JjStep::Done(Ok(x)) && x@ == w,
    }
}

/// What finishing comes to: a notice to print, if any.
pub open spec fn finishes(res: JjStep<Option<String>>, f: Flow<Option<Seq<char>>>) -> bool {
    match f {
        Flow::Need(n) => res matches JjStep::Need(a) && a@ == n,
        Flow::Fail(e) => res matches JjStep::Done(Err(g)) && g@ == e,
        Flow::Go(w, _) => res matches JjStep::Done(Ok(x)) && maybe(x) == w,
    }
}

fn halt<T>(h: Halt) -> (res: JjStep<T>)
    ensures
        match h {
            Halt::Need(a) => res == JjStep::<T>::Need(a),
            Halt::Fail(e) => res == JjStep::<T>::Done(Err(e)),
        },
{
    match h {
        Halt::Need(a) => JjStep::Need(a),
        Halt::Fail(e) => JjStep::Done(Err(e)),
    }
}

/// The agent works in the repository itself, which must hold nothing new.
#[derive(Debug)]
pub struct JjHeadStrategy;

/// Preparing to work in the repository itself.
pub open spec fn head_prepare(root: Seq<char>, r: Seq<JjReply>) -> Flow<Space> {
    match in_repo(root, r) {
        Flow::Need(n) => Flow::Need(n),
        Flow::Fail(f) => Flow::Fail(f),
        Flow::Go(_, a) => match dirty(root, r, a) {
            Flow::Need(n) => Flow::Need(n),
            Flow::Fail(f) => Flow::Fail(f),
            Flow::Go(true, _) => Flow::Fail(Fault::DirtyTree),
            Flow::Go(false, b) => match source(root, r, b) {
                Flow::Need(n) => Flow::Need(n),
                Flow::Fail(f) => Flow::Fail(f),
                Flow::Go(t, c) => Flow::Go(
                    Space {
                        path: root,
                        source: match t {
                            Some(name) => name,
                            None => "@"@,
                        },
                        target: t,
                    },
                    c,
                ),
            },
        },
    }
}

impl JjHeadStrategy {
    pub fn name(&self) -> (res: &str)
        ensures
            res@ == "jj-head"@,
    {
        "jj-head"
    }

    pub fn prepare(&self, repo_root: &str, r: &Vec<JjReply>) -> (res: JjStep<Workspace>)
        ensures
            prepares(res, head_prepare(repo_root@, r@)),
    {
        let a = match ensure_repo(repo_root, r) {
            Ok(k) => k,
            Err(h) => {
                return halt(h);
            },
        };
        let (is_dirty, b) = match working_copy_is_dirty(repo_root, r, a) {
            Ok(x) => x,
            Err(h) => {
                return halt(h);
            },
        };
        if is_dirty {
            return JjStep::Done(Err(GitError::DirtyTree));
        }
        let (target, _) = match source_bookmark(repo_root, r, b) {
            Ok(x) => x,
            Err(h) => {
                return halt(h);
            },
        };
        let name = match &target {
            Some(t) => t.clone(),
            None => "@".to_owned(),
        };
        JjStep::Done(
            Ok(
                Workspace {
                    path: repo_root.to_owned(),
                    source_branch: name,
                    target_branch: target,
                },
            ),
        )
    }

    /// Nothing is left to do.
    pub fn finish(&self, _ws: &Workspace, _status: &AgentStatus) -> (res: JjStep<Option<String>>)
        ensures
            res matches JjStep::Done(Ok(None)),
    {
        JjStep::Done(Ok(None))
    }
}

/// The agent works in a workspace of its own. If it succeeds, the source bookmark moves to
/// its work and the workspace goes away; if not, the workspace stays.
#[derive(Debug)]
pub struct JjWorkspaceStrategy;

/// Makes a directory.
pub open spec fn made(dir: Seq<char>, r: Seq<JjReply>, k: int) -> Flow<()> {
    if k >= r.len() {
        Flow::Need(JjNeed::MakeDirs(dir))
    } else {
        match r[k] {
            JjReply::Done => Flow::Go((), k + 1),
            JjReply::Failed(m) => Flow::Fail(Fault::Io(m@)),
            _ => Flow::Need(JjNeed::MakeDirs(dir)),
        }
    }
}

fn make_dirs(dir: &str, r: &Vec<JjReply>, k: usize) -> (res: Result<usize, Halt>)
    ensures
        match res {
            Ok(n) => made(dir@, r@, k as int) == Flow::Go((), n as int) && n <= r@.len(),
            Err(h) => halts(h, made(dir@, r@, k as int)),
        },
{
    if k >= r.len() {
        return Err(Halt::Need(JjAction::MakeDirs(dir.to_owned())));
    }
    match &r[k] {
        JjReply::Done => Ok(k + 1),
        JjReply::Failed(m) => Err(Halt::Fail(GitError::Io(m.clone()))),
        _ => Err(Halt::Need(JjAction::MakeDirs(dir.to_owned()))),
    }
}

/// The arguments that add a workspace, at a bookmark or where the repository is.
pub open spec fn add_args(name: Seq<char>, at_name: bool, path: Seq<char>) -> Seq<Seq<char>> {
    if at_name {
        seq!["workspace"@, "add"@, "--name"@, name, "-r"@, name, path]
    } else {
        seq!["workspace"@, "add"@, "--name"@, name, path]
    }
}

fn add_workspace(name: &str, at_name: bool, path: &str) -> (res: Vec<String>)
    ensures
        texts(res@) == add_args(name@, at_name, path@),
{
    let mut w: Vec<&str> = Vec::new();
    w.push("workspace");
    w.push("add");
    w.push("--name");
    w.push(name);
    if at_name {
        w.push("-r");
        w.push(name);
    }
    w.push(path);
    let args = strs(&w);
    proof {
        assert(texts(args@) =~= add_args(name@, at_name, path@));
    }
    args
}

/// Preparing a workspace of its own under a name.
pub open spec fn space_prepare(root: Seq<char>, name: Seq<char>, r: Seq<JjReply>) -> Flow<Space> {
    let path = path_in(spaces_dir(root), name);
    match in_repo(root, r) {
        Flow::Need(n) => Flow::Need(n),
        Flow::Fail(f) => Flow::Fail(f),
        Flow::Go(_, a) => match source(root, r, a) {
            Flow::Need(n) => Flow::Need(n),
            Flow::Fail(f) => Flow::Fail(f),
            Flow::Go(t, b) => match made(spaces_dir(root), r, b) {
                Flow::Need(n) => Flow::Need(n),
                Flow::Fail(f) => Flow::Fail(f),
                Flow::Go(_, c) => match ran(add_args(name, false, path), root, r, c) {
                    Flow::Need(n) => Flow::Need(n),
                    Flow::Fail(f) => Flow::Fail(f),
                    Flow::Go(_, d) => Flow::Go(Space { path, source: name, target: t }, d),
                },
            },
        },
    }
}

/// The arguments that move a bookmark to the work of a workspace.
pub open spec fn set_args(bookmark: Seq<char>, space: Seq<char>) -> Seq<Seq<char>> {
    seq!["bookmark"@, "set"@, "--allow-backwards"@, bookmark, "-r"@, space + "@"@]
}

fn set_bookmark(bookmark: &str, space: &str) -> (res: Vec<String>)
    ensures
        texts(res@) == set_args(bookmark@, space@),
{
    let mut rev = space.to_owned();
    rev.push_str("@");
    let mut w: Vec<&str> = Vec::new();
    w.push("bookmark");
    w.push("set");
    w.push("--allow-backwards");
    w.push(bookmark);
    w.push("-r");
    w.push(rev.as_str());
    let args = strs(&w);
    proof {
        assert(texts(args@) =~= set_args(bookmark@, space@));
    }
    args
}

/// Forgets a workspace and removes its directory; whether the directory could be removed
/// does not matter.
pub open spec fn forget(root: Seq<char>, space: Seq<char>, path: Seq<char>, r: Seq<JjReply>, k: int) -> Flow<
    Option<Seq<char>>,
> {
    match ran(seq!["workspace"@, "forget"@, space], root, r, k) {
        Flow::Need(n) => Flow::Need(n),
        Flow::Fail(f) => Flow::Fail(f),
        Flow::Go(_, n) => if n >= r.len() {
            Flow::Need(JjNeed::RemoveDirs(path))
        } else {
            match r[n] {
                JjReply::Done => Flow::Go(None, n + 1),
                JjReply::Failed(_) => Flow::Go(None, n + 1),
                _ => Flow::Need(JjNeed::RemoveDirs(path)),
            }
        },
    }
}

fn forget_workspace(root: &str, space: &str, path: &str, r: &Vec<JjReply>, k: usize) -> (res:
    JjStep<Option<String>>)
    ensures
        finishes(res, forget(root@, space@, path@, r@, k as int)),
{
    let mut w: Vec<&str> = Vec::new();
    w.push("workspace");
    w.push("forget");
    w.push(space);
    let args = strs(&w);
    proof {
        assert(texts(args@) =~= seq!["workspace"@, "forget"@, space@]);
    }
    let n = match run_jj(args, root, r, k) {
        Ok(x) => x.1,
        Err(h) => {
            return halt(h);
        },
    };
    if n >= r.len() {
        return JjStep::Need(JjAction::RemoveDirs(path.to_owned()));
    }
    match &r[n] {
        JjReply::Done => JjStep::Done(Ok(None)),
        JjReply::Failed(_) => JjStep::Done(Ok(None)),
        _ => JjStep::Need(JjAction::RemoveDirs(path.to_owned())),
    }
}

/// Moves a bookmark, if there is one to move, and forgets the workspace.
pub open spec fn land(
    root: Seq<char>,
    bookmark: Option<Seq<char>>,
    space: Seq<char>,
    path: Seq<char>,
    r: Seq<JjReply>,
) -> Flow<Option<Seq<char>>> {
    match bookmark {
        None => forget(root, space, path, r, 0),
        Some(b) => match ran(set_args(b, space), root, r, 0) {
            Flow::Need(n) => Flow::Need(n),
            Flow::Fail(f) => Flow::Fail(f),
            Flow::Go(_, k) => forget(root, space, path, r, k),
        },
    }
}

fn land_work(root: &str, bookmark: Option<&str>, space: &str, path: &str, r: &Vec<JjReply>) -> (res:
    JjStep<Option<String>>)
    ensures
        finishes(
            res,
            land(
                root@,
                match bookmark {
                    Some(b) => Some(b@),
                    None => None,
                },
                space@,
                path@,
                r@,
            ),
        ),
{
    let k: usize = match bookmark {
        None => 0,
        Some(b) => match run_jj(set_bookmark(b, space), root, r, 0) {
            Ok(x) => x.1,
            Err(h) => {
                return halt(h);
            },
        },
    };
    forget_workspace(root, space, path, r, k)
}

/// Finishing a workspace of its own.
pub open spec fn space_finish(ws: Space, status: AgentStatus, r: Seq<JjReply>) -> Flow<
    Option<Seq<char>>,
> {
    match home(ws.path) {
        None => Flow::Fail(Fault::Other("can't infer repo root from "@ + ws.path)),
        Some(root) => match status {
            AgentStatus::Success => land(root, ws.target, ws.source, ws.path, r),
            AgentStatus::Failure(why) => Flow::Go(
                Some(
                    "jj-workspace: agent failed ("@ + why@ + "); workspace preserved at "@
                        + ws.path,
                ),
                0,
            ),
        },
    }
}

impl JjWorkspaceStrategy {
    pub fn name(&self) -> (res: &str)
        ensures
            res@ == "jj-workspace"@,
    {
        "jj-workspace"
    }

    /// Prepares a workspace under a name that `gen_workspace_name` made.
    pub fn prepare(&self, repo_root: &str, ws_name: &str, r: &Vec<JjReply>) -> (res: JjStep<
        Workspace,
    >)
        ensures
            prepares(res, space_prepare(repo_root@, ws_name@, r@)),
    {
        let a = match ensure_repo(repo_root, r) {
            Ok(k) => k,
            Err(h) => {
                return halt(h);
            },
        };
        let (target, b) = match source_bookmark(repo_root, r, a) {
            Ok(x) => x,
            Err(h) => {
                return halt(h);
            },
        };
        let dir = workspace_root(repo_root);
        let c = match make_dirs(dir.as_str(), r, b) {
            Ok(k) => k,
            Err(h) => {
                return halt(h);
            },
        };
        let path = path_for(dir.as_str(), ws_name);
        match run_jj(add_workspace(ws_name, false, path.as_str()), repo_root, r, c) {
            Err(h) => halt(h),
            Ok(_) => JjStep::Done(
                Ok(
                    Workspace {
                        path,
                        source_branch: ws_name.to_owned(),
                        target_branch: target,
                    },
                ),
            ),
        }
    }

    pub fn finish(&self, ws: &Workspace, status: &AgentStatus, r: &Vec<JjReply>) -> (res: JjStep<
        Option<String>,
    >)
        ensures
            finishes(res, space_finish(ws@, *status, r@)),
    {
        let root = match repo_root_from_workspace(ws.path.as_str()) {
            Ok(p) => p,
            Err(e) => {
                return JjStep::Done(Err(e));
            },
        };
        match status {
            AgentStatus::Success => {
                let target: Option<&str> = match &ws.target_branch {
                    Some(t) => Some(t.as_str()),
                    None => None,
                };
                land_work(
                    root.as_str(),
                    target,
                    ws.source_branch.as_str(),
                    ws.path.as_str(),
                    r,
                )
            },
            AgentStatus::Failure(why) => {
                let mut m = "jj-workspace: agent failed (".to_owned();
                m.push_str(why.as_str());
                m.push_str("); workspace preserved at ");
                m.push_str(ws.path.as_str());
                JjStep::Done(Ok(Some(m)))
            },
        }
    }
}

/// The agent works in a workspace at a bookmark, which keeps its work.
#[derive(Debug)]
pub struct JjBookmarkStrategy {
    pub name: String,
}

/// Preparing a workspace at a bookmark, which is made where it is missing.
pub open spec fn bookmark_prepare(root: Seq<char>, name: Seq<char>, r: Seq<JjReply>) -> Flow<Space> {
    let path = path_in(spaces_dir(root), name);
    let space = Space { path, source: name, target: None };
    match in_repo(root, r) {
        Flow::Need(n) => Flow::Need(n),
        Flow::Fail(f) => Flow::Fail(f),
        Flow::Go(_, a) => match made(spaces_dir(root), r, a) {
            Flow::Need(n) => Flow::Need(n),
            Flow::Fail(f) => Flow::Fail(f),
            Flow::Go(_, b) => match known(root, name, r, b) {
                Flow::Need(n) => Flow::Need(n),
                Flow::Fail(f) => Flow::Fail(f),
                Flow::Go(there, c) => match ran(add_args(name, there, path), root, r, c) {
                    Flow::Need(n) => Flow::Need(n),
                    Flow::Fail(f) => Flow::Fail(f),
                    Flow::Go(_, d) => if there {
                        Flow::Go(space, d)
                    } else {
                        match ran(create_args(name), root, r, d) {
                            Flow::Need(n) => Flow::Need(n),
                            Flow::Fail(f) => Flow::Fail(f),
                            Flow::Go(_, e) => Flow::Go(space, e),
                        }
                    },
                },
            },
        },
    }
}

/// The arguments that make a bookmark at the work of the workspace with its name.
pub open spec fn create_args(name: Seq<char>) -> Seq<Seq<char>> {
    seq!["bookmark"@, "create"@, name, "-r"@, name + "@"@]
}

fn create_bookmark(name: &str) -> (res: Vec<String>)
    ensures
        texts(res@) == create_args(name@),
{
    let mut rev = name.to_owned();
    rev.push_str("@");
    let mut w: Vec<&str> = Vec::new();
    w.push("bookmark");
    w.push("create");
    w.push(name);
    w.push("-r");
    w.push(rev.as_str());
    let args = strs(&w);
    proof {
        assert(texts(args@) =~= create_args(name@));
    }
    args
}

/// Finishing a workspace at a bookmark.
pub open spec fn bookmark_finish(
    name: Seq<char>,
    path: Seq<char>,
    status: AgentStatus,
    r: Seq<JjReply>,
) -> Flow<Option<Seq<char>>> {
    match home(path) {
        None => Flow::Fail(Fault::Other("can't infer repo root from "@ + path)),
        Some(root) => match status {
            AgentStatus::Success => land(root, Some(name), name, path, r),
            AgentStatus::Failure(why) => Flow::Go(
                Some(
                    "jj-bookmark["@ + name + "]: agent failed ("@ + why@
                        + "); workspace preserved at "@ + path,
                ),
                0,
            ),
        },
    }
}

impl JjBookmarkStrategy {
    pub fn new(name: &str) -> (res: Self)
        ensures
            res.name@ == name@,
    {
        JjBookmarkStrategy { name: name.to_owned() }
    }

    pub fn name(&self) -> (res: &str)
        ensures
            res@ == "jj-bookmark"@,
    {
        "jj-bookmark"
    }

    pub fn prepare(&self, repo_root: &str, r: &Vec<JjReply>) -> (res: JjStep<Workspace>)
        ensures
            prepares(res, bookmark_prepare(repo_root@, self.name@, r@)),
    {
        let a = match ensure_repo(repo_root, r) {
            Ok(k) => k,
            Err(h) => {
                return halt(h);
            },
        };
        let dir = workspace_root(repo_root);
        let b = match make_dirs(dir.as_str(), r, a) {
            Ok(k) => k,
            Err(h) => {
                return halt(h);
            },
        };
        let name = self.name.as_str();
        let path = path_for(dir.as_str(), name);
        let (there, c) = match bookmark_exists(repo_root, name, r, b) {
            Ok(x) => x,
            Err(h) => {
                return halt(h);
            },
        };
        let d = match run_jj(add_workspace(name, there, path.as_str()), repo_root, r, c) {
            Ok(x) => x.1,
            Err(h) => {
                return halt(h);
            },
        };
        if !there {
            if let Err(h) = run_jj(create_bookmark(name), repo_root, r, d) {
                return halt(h);
            }
        }
        JjStep::Done(
            Ok(Workspace { path, source_branch: name.to_owned(), target_branch: None }),
        )
    }

    pub fn finish(&self, ws: &Workspace, status: &AgentStatus, r: &Vec<JjReply>) -> (res: JjStep<
        Option<String>,
    >)
        ensures
            finishes(res, bookmark_finish(self.name@, ws.path@, *status, r@)),
    {
        let root = match repo_root_from_workspace(ws.path.as_str()) {
            Ok(p) => p,
            Err(e) => {
                return JjStep::Done(Err(e));
            },
        };
        match status {
            AgentStatus::Success => land_work(
                root.as_str(),
                Some(self.name.as_str()),
                self.name.as_str(),
                ws.path.as_str(),
                r,
            ),
            AgentStatus::Failure(why) => {
                let mut m = "jj-bookmark[".to_owned();
                m.push_str(self.name.as_str());
                m.push_str("]: agent failed (");
                m.push_str(why.as_str());
                m.push_str("); workspace preserved at ");
                m.push_str(ws.path.as_str());
                JjStep::Done(Ok(Some(m)))
            },
        }
    }
}

// ---------------------------------------------------------------------------------
// Laws
// ---------------------------------------------------------------------------------
proof fn lemma_months_grow(y: int, a: int, b: int)
    requires
        1 <= a < b <= 13,
    ensures
        month_start(y, a) + month_len(y, a) <= month_start(y, b),
    decreases b,
{
    if a + 1 < b {
        lemma_months_grow(y, a, b - 1);
    }
}

proof fn lemma_years_grow(a: int, b: int)
    requires
        1970 <= a < b,
    ensures
        year_start(a) + year_len(a) <= year_start(b),
    decreases b,
{
    if a + 1 < b {
        lemma_years_grow(a, b - 1);
    }
}

proof fn lemma_date_in_year(y: int, m: int, d: int)
    requires
        is_date(y, m, d),
    ensures
        year_start(y) <= day_number(y, m, d) < year_start(y) + year_len(y),
        month_start(y, m) >= 0,
{
    lemma_year_len(y);
    lemma_months_grow(y, m, 13);
    if m > 1 {
        lemma_months_grow(y, 1, m);
    }
}

/// A day has one date only: two dates with the same number of days since 1970 are the same.
pub proof fn law_dates_are_unique(y: int, m: int, d: int, y2: int, m2: int, d2: int)
    requires
        is_date(y, m, d),
        is_date(y2, m2, d2),
        day_number(y, m, d) == day_number(y2, m2, d2),
    ensures
        y == y2 && m == m2 && d == d2,
{
    lemma_date_in_year(y, m, d);
    lemma_date_in_year(y2, m2, d2);
    if y < y2 {
        lemma_years_grow(y, y2);
    }
    if y2 < y {
        lemma_years_grow(y2, y);
    }
    if m < m2 {
        lemma_months_grow(y, m, m2);
    }
    if m2 < m {
        lemma_months_grow(y, m2, m);
    }
}

/// The repository of a workspace is found again from the workspace's path, where the
/// repository's path ends in a name and the workspace's name is a single name.
pub proof fn law_root_is_recovered(root: Seq<char>, name: Seq<char>)
    requires
        root.len() > 0,
        root.last() != '/',
        trim_path(root) == root,
        names(name),
        forall|i: int| 0 <= i < name.len() ==> #[trigger] name[i] != '/',
    ensures
        home(path_in(spaces_dir(root), name)) == Some(root),
{
    reveal_strlit(".sandcastle");
    reveal_strlit("workspaces");
    let a = ".sandcastle"@;
    let b = "workspaces"@;
    let p = root.push('/') + a;
    let q = p.push('/') + b;
    assert(a.len() == 11 && b.len() == 10);
    assert(p.last() == 'e' && q.last() == 's');
    assert(a[0] == '.' && b[0] == 'w');
    assert(path_in(root, a) == p);
    assert(path_in(p, b) == q);
    assert(path_in(q, name) == q.push('/') + name) by {
        assert(name[0] != '/');
    }
    lemma_parent(q, name);
    assert(trim_path(q) == q);
    lemma_parent(p, b);
    assert(trim_path(p) == p);
    lemma_parent(root, a);
}

/// If the agent fails, nothing is done to its workspace.
pub proof fn law_failure_keeps_workspace(ws: Space, why: String, r: Seq<JjReply>, name: Seq<char>)
    ensures
        !(space_finish(ws, AgentStatus::Failure(why), r) is Need),
        !(bookmark_finish(name, ws.path, AgentStatus::Failure(why), r) is Need),
{
}

/// A workspace's directory is removed only after `jj` forgot the workspace.
pub proof fn law_removed_after_forgotten(
    root: Seq<char>,
    bookmark: Option<Seq<char>>,
    space: Seq<char>,
    path: Seq<char>,
    r: Seq<JjReply>,
    dir: Seq<char>,
)
    requires
        land(root, bookmark, space, path, r) == Flow::<Option<Seq<char>>>::Need(
            JjNeed::RemoveDirs(dir),
        ),
    ensures
        dir == path,
        exists|k: int|
            0 <= k < r.len() && (#[trigger] r[k] matches JjReply::Ran(out) && out.success) && ran(
                seq!["workspace"@, "forget"@, space],
                root,
                r,
                k,
            ) is Go,
{
    let k: int = match bookmark {
        None => 0,
        Some(b) => match ran(set_args(b, space), root, r, 0) {
            Flow::Go(_, n) => n,
            _ => 0,
        },
    };
    let f = ran(seq!["workspace"@, "forget"@, space], root, r, k);
    assert(f is Go);
    assert(r[k] is Ran);
}

/// What has ended stays as it ended: answers that it did not get to make no difference.
pub proof fn law_the_end_is_kept(
    root: Seq<char>,
    name: Seq<char>,
    ws: Space,
    status: AgentStatus,
    r: Seq<JjReply>,
    more: Seq<JjReply>,
)
    ensures
        head_prepare(root, r) is Need || head_prepare(root, r + more) == head_prepare(root, r),
        space_prepare(root, name, r) is Need || space_prepare(root, name, r + more)
            == space_prepare(root, name, r),
        space_finish(ws, status, r) is Need || space_finish(ws, status, r + more) == space_finish(
            ws,
            status,
            r,
        ),
        bookmark_prepare(root, name, r) is Need || bookmark_prepare(root, name, r + more)
            == bookmark_prepare(root, name, r),
        bookmark_finish(name, ws.path, status, r) is Need || bookmark_finish(
            name,
            ws.path,
            status,
            r + more,
        ) == bookmark_finish(name, ws.path, status, r),
{
    assert forall|i: int| 0 <= i < r.len() implies #[trigger] (r + more)[i] == r[i] by {}
}

/// Whether an answer is a command that ended well.
pub open spec fn ended_well(a: JjReply) -> bool {
    a matches JjReply::Ran(out) && out.success
}

/// Whether an answer is a command that ended well and printed more than blanks.
pub open spec fn printed(a: JjReply) -> bool {
    a matches JjReply::Ran(out) && out.success && exists|i: int|
        0 <= i < out.stdout@.len() && !(#[trigger] out.stdout@[i] == 0x20 || out.stdout@[i] == 0x09
            || out.stdout@[i] == 0x0a || out.stdout@[i] == 0x0c || out.stdout@[i] == 0x0d)
}

/// Where the steps before went well, a workspace at a bookmark is prepared like this: the
/// repository is looked for, the directory of the workspaces is made, the bookmark is looked up,
/// and the workspace is added under its name. A bookmark that is there is the revision of
/// the workspace; where there is none, no revision is named, and the bookmark is made at the
/// workspace afterwards.
pub proof fn law_bookmark_is_checked_out(root: Seq<char>, name: Seq<char>, r: Seq<JjReply>)
    requires
        r.len() > 0 ==> r[0] == JjReply::Exists(true),
        r.len() > 1 ==> ended_well(r[1]),
        r.len() > 2 ==> r[2] is Done,
        r.len() > 3 ==> ended_well(r[3]),
        r.len() > 4 ==> ended_well(r[4]),
        r.len() > 5 ==> ended_well(r[5]),
    ensures
        ({
            let dir = path_in(path_in(root, ".sandcastle"@), "workspaces"@);
            let path = path_in(dir, name);
            let res = bookmark_prepare(root, name, r);
            let space = Space { path, source: name, target: None };
            &&& r.len() == 0 ==> res == Flow::<Space>::Need(JjNeed::Exists(root))
            &&& r.len() == 1 ==> res == Flow::<Space>::Need(
                JjNeed::Run { args: seq!["root"@], cwd: root },
            )
            &&& r.len() == 2 ==> res == Flow::<Space>::Need(JjNeed::MakeDirs(dir))
            &&& r.len() == 3 ==> res == Flow::<Space>::Need(
                JjNeed::Run { args: seq!["bookmark"@, "list"@, name], cwd: root },
            )
            &&& r.len() == 4 && printed(r[3]) ==> (res matches Flow::Need(
                JjNeed::Run { args, cwd },
            ) && cwd == root && args =~= seq![
                "workspace"@,
                "add"@,
                "--name"@,
                name,
                "-r"@,
                name,
                path,
            ])
            &&& r.len() == 4 && !printed(r[3]) ==> (res matches Flow::Need(
                JjNeed::Run { args, cwd },
            ) && cwd == root && args =~= seq!["workspace"@, "add"@, "--name"@, name, path])
            &&& r.len() >= 5 && printed(r[3]) ==> res == Flow::Go(space, 5)
            &&& r.len() == 5 && !printed(r[3]) ==> (res matches Flow::Need(
                JjNeed::Run { args, cwd },
            ) && cwd == root && args =~= seq!["bookmark"@, "create"@, name, "-r"@, name + "@"@])
            &&& r.len() >= 6 && !printed(r[3]) ==> res == Flow::Go(space, 6)
        }),
{
    if r.len() > 3 {
        let out = r[3]->Ran_0.stdout@;
        assert(says_something(out) == printed(r[3]));
    }
}

/// Where the steps before went well, a workspace of its own is prepared like this: the
/// repository is looked for, the bookmark at its parent is remembered, the directory of the
/// workspaces is made, and the workspace is added under its name.
pub proof fn law_workspace_is_added(root: Seq<char>, name: Seq<char>, r: Seq<JjReply>)
    requires
        r.len() > 0 ==> r[0] == JjReply::Exists(true),
        r.len() > 1 ==> ended_well(r[1]),
        r.len() > 2 ==> ended_well(r[2]),
        r.len() > 3 ==> r[3] is Done,
        r.len() > 4 ==> ended_well(r[4]),
    ensures
        ({
            let dir = path_in(path_in(root, ".sandcastle"@), "workspaces"@);
            let path = path_in(dir, name);
            let res = space_prepare(root, name, r);
            &&& r.len() == 0 ==> res == Flow::<Space>::Need(JjNeed::Exists(root))
            &&& r.len() == 1 ==> res == Flow::<Space>::Need(
                JjNeed::Run { args: seq!["root"@], cwd: root },
            )
            &&& r.len() == 2 ==> (res matches Flow::Need(JjNeed::Run { args, cwd }) && cwd == root
                && args =~= seq![
                "log"@,
                "--no-graph"@,
                "-r"@,
                "@-"@,
                "-T"@,
                "bookmarks ++ \"\\n\""@,
            ])
            &&& r.len() == 3 ==> res == Flow::<Space>::Need(JjNeed::MakeDirs(dir))
            &&& r.len() == 4 ==> (res matches Flow::Need(JjNeed::Run { args, cwd }) && cwd == root
                && args =~= seq!["workspace"@, "add"@, "--name"@, name, path])
            &&& r.len() >= 5 ==> (res matches Flow::Go(space, n) && n == 5 && space.path == path
                && space.source == name && (r[2] matches JjReply::Ran(out) && space.target
                == first_bookmark(trim_end(readable(out.stdout@)), 0)))
        }),
{
}

/// The repository itself is worked in only where its working copy holds nothing new: `jj` has to
/// say that it is empty. The work is then on the bookmark at its parent, if there is one.
pub proof fn law_head_has_to_be_clean(root: Seq<char>, r: Seq<JjReply>)
    requires
        r.len() > 0 ==> r[0] == JjReply::Exists(true),
        r.len() > 1 ==> ended_well(r[1]),
        r.len() > 2 ==> ended_well(r[2]),
        r.len() > 3 ==> ended_well(r[3]),
    ensures
        ({
            let res = head_prepare(root, r);
            &&& r.len() == 0 ==> res == Flow::<Space>::Need(JjNeed::Exists(root))
            &&& r.len() == 1 ==> res == Flow::<Space>::Need(
                JjNeed::Run { args: seq!["root"@], cwd: root },
            )
            &&& r.len() == 2 ==> (res matches Flow::Need(JjNeed::Run { args, cwd }) && cwd == root
                && args =~= seq!["log"@, "--no-graph"@, "-r"@, "@"@, "-T"@, "empty"@])
            &&& r.len() > 2 ==> (r[2] matches JjReply::Ran(out) && (trim_end(
                readable(out.stdout@),
            ) != "true"@ <==> res == Flow::<Space>::Fail(Fault::DirtyTree)))
            &&& r.len() >= 4 && !(res is Fail) ==> (res matches Flow::Go(space, n) && n == 4
                && space.path == root && (r[3] matches JjReply::Ran(out) && space.target
                == first_bookmark(trim_end(readable(out.stdout@)), 0) && space.source == (
            match space.target {
                Some(b) => b,
                None => "@"@,
            })))
        }),
{
}

/// A command of `jj` that fails ends the preparation with an error that tells the command and
/// what it said; but for the one that looks for the repository: there is none, then.
pub proof fn law_failed_command_is_told(args: Seq<Seq<char>>, cwd: Seq<char>, r: Seq<JjReply>, k: int)
    requires
        0 <= k < r.len(),
        r[k] matches JjReply::Ran(out) && !out.success,
    ensures
        ran(args, cwd, r, k) matches Flow::Fail(Fault::Git { command, stderr, exit }) && (
        r[k] matches JjReply::Ran(out) && command == spaced(args, args.len() as int) && stderr
            == readable(out.stderr@) && exit == (match out.code {
            Some(c) => c as int,
            None => -1int,
        })),
        k == 1 && r[0] == JjReply::Exists(true) ==> in_repo(cwd, r) == Flow::<()>::Fail(
            Fault::NotARepo(cwd),
        ),
        forall|other: Seq<JjReply>|
            other.len() > 0 && other[0] == JjReply::Exists(false) ==> #[trigger] in_repo(cwd, other)
                == Flow::<()>::Fail(Fault::NotARepo(cwd)),
{
}

/// If the agent succeeds, its work is kept before its workspace goes: the bookmark is moved to
/// the work of the workspace, the workspace is forgotten, and its directory is removed, which may
/// fail. A workspace without a bookmark to move is only forgotten and removed.
pub proof fn law_success_lands_the_work(ws: Space, name: Seq<char>, root: Seq<char>, r: Seq<JjReply>)
    requires
        home(ws.path) == Some(root),
        r.len() > 0 ==> ended_well(r[0]),
        r.len() > 1 ==> ws.target is Some ==> ended_well(r[1]),
        r.len() > 1 ==> ws.target is None ==> r[1] is Done || r[1] is Failed,
        r.len() > 2 ==> r[2] is Done || r[2] is Failed,
    ensures
        ({
            let res = space_finish(ws, AgentStatus::Success, r);
            &&& ws.target matches Some(b) ==> {
                &&& r.len() == 0 ==> (res matches Flow::Need(JjNeed::Run { args, cwd }) && cwd
                    == root && args =~= seq![
                    "bookmark"@,
                    "set"@,
                    "--allow-backwards"@,
                    b,
                    "-r"@,
                    ws.source + "@"@,
                ])
                &&& r.len() == 1 ==> (res matches Flow::Need(JjNeed::Run { args, cwd }) && cwd
                    == root && args =~= seq!["workspace"@, "forget"@, ws.source])
                &&& r.len() == 2 ==> res == Flow::<Option<Seq<char>>>::Need(
                    JjNeed::RemoveDirs(ws.path),
                )
                &&& r.len() > 2 ==> res == Flow::Go(None::<Seq<char>>, 3)
            }
            &&& ws.target is None ==> {
                &&& r.len() == 0 ==> (res matches Flow::Need(JjNeed::Run { args, cwd }) && cwd
                    == root && args =~= seq!["workspace"@, "forget"@, ws.source])
                &&& r.len() == 1 ==> res == Flow::<Option<Seq<char>>>::Need(
                    JjNeed::RemoveDirs(ws.path),
                )
                &&& r.len() > 1 ==> res == Flow::Go(None::<Seq<char>>, 2)
            }
        }),
        ws.target == Some(name) && ws.source == name ==> bookmark_finish(
            name,
            ws.path,
            AgentStatus::Success,
            r,
        ) == space_finish(ws, AgentStatus::Success, r),
{
}

/// Whether `b` stands at `k`, with nothing but blanks and stars between `i` and it, and a star, a
/// blank or the end behind it.
pub open spec fn stands_at(s: Seq<char>, i: int, b: Seq<char>, k: int) -> bool {
    &&& i <= k && k + b.len() <= s.len()
    &&& s.subrange(k, k + b.len()) == b
    &&& forall|j: int| i <= j < k ==> is_white(#[trigger] s[j]) || s[j] == '*'
    &&& k + b.len() == s.len() || s[k + b.len()] == '*' || is_white(s[k + b.len()])
}

/// A bookmark that is told is a word of what was told, without the stars at its end: it holds no
/// blank and does not end with a star.
pub proof fn law_bookmark_is_a_word(s: Seq<char>, i: int)
    requires
        0 <= i <= s.len(),
    ensures
        first_bookmark(s, i) matches Some(b) ==> b.len() > 0 && b.last() != '*' && exists|k: int|
            #[trigger] stands_at(s, i, b, k),
        first_bookmark(s, i) is None ==> forall|j: int|
            i <= j < s.len() ==> is_white(#[trigger] s[j]) || s[j] == '*',
    decreases s.len() - i,
{
    if i < s.len() {
        if is_white(s[i]) {
            law_bookmark_is_a_word(s, i + 1);
            if let Some(b) = first_bookmark(s, i) {
                let k = choose|k: int| #[trigger] stands_at(s, i + 1, b, k);
                assert(stands_at(s, i, b, k));
            }
        } else {
            let z = word_end(s, i + 1);
            lemma_word_end(s, i + 1);
            let word = s.subrange(i, z);
            let b = starless(word);
            lemma_starless(word);
            if b.len() > 0 {
                assert(s.subrange(i, i + b.len()) =~= b);
                if b.len() < word.len() {
                    assert(word[b.len() as int] == '*');
                }
                assert(stands_at(s, i, b, i));
            } else {
                assert forall|j: int| i <= j < z implies s[j] == '*' by {
                    assert(word[j - i] == s[j]);
                }
                law_bookmark_is_a_word(s, z);
                if let Some(b) = first_bookmark(s, i) {
                    let k = choose|k: int| #[trigger] stands_at(s, z, b, k);
                    assert(stands_at(s, i, b, k));
                }
            }
        }
    }
}

proof fn lemma_word_end(s: Seq<char>, i: int)
    requires
        0 <= i <= s.len(),
    ensures
        i <= word_end(s, i) <= s.len(),
        word_end(s, i) < s.len() ==> is_white(s[word_end(s, i)]),
        forall|j: int| i <= j < word_end(s, i) ==> !is_white(#[trigger] s[j]),
    decreases s.len() - i,
{
    if i < s.len() && !is_white(s[i]) {
        lemma_word_end(s, i + 1);
    }
}

proof fn lemma_starless(w: Seq<char>)
    ensures
        starless(w).len() <= w.len(),
        starless(w) == w.take(starless(w).len() as int),
        starless(w).len() > 0 ==> starless(w).last() != '*',
        forall|i: int| starless(w).len() <= i < w.len() ==> w[i] == '*',
    decreases w.len(),
{
    if w.len() > 0 && w.last() == '*' {
        let t = w.drop_last();
        lemma_starless(t);
        assert(w.take(starless(t).len() as int) =~= t.take(starless(t).len() as int));
        assert forall|i: int| starless(w).len() <= i < w.len() implies w[i] == '*' by {
            if i < t.len() {
                assert(w[i] == t[i]);
            }
        }
    } else {
        assert(w.take(w.len() as int) =~= w);
    }
}

/// The calendar: a day of a month is followed by the next one, the last by the first of the next
/// month, and the last of December by the first of January, and each counts one more than the one
/// before. The count starts with the first day of 1970.
pub proof fn law_days_follow_each_other(y: int, m: int, d: int)
    requires
        1970 <= y,
        1 <= m <= 12,
        1 <= d <= month_len(y, m),
    ensures
        ({
            let leap_year = y % 400 == 0 || (y % 4 == 0 && y % 100 != 0);
            let days: int = if m == 2 {
                if leap_year {
                    29
                } else {
                    28
                }
            } else if m == 4 || m == 6 || m == 9 || m == 11 {
                30
            } else {
                31
            };
            let n = day_number(y, m, d);
            &&& month_len(y, m) == days
            &&& is_date(y, m, d)
            &&& d < days ==> day_number(y, m, d + 1) == n + 1
            &&& d == days && m < 12 ==> day_number(y, m + 1, 1) == n + 1
            &&& d == days && m == 12 ==> day_number(y + 1, 1, 1) == n + 1
            &&& day_number(1970, 1, 1) == 0
        }),
{
    reveal_with_fuel(month_start, 13);
}

/// A name for a workspace tells the date, the time of day and the last digits, each with zeros in
/// front up to its width.
pub proof fn law_workspace_names(t: (u32, u32, u32, u32, u32, u32), suffix: int, s: Seq<char>, w: nat)
    ensures
        space_name(t, suffix) == "agent-"@ + padded(dec(t.0 as nat), 4) + padded(dec(t.1 as nat), 2)
            + padded(dec(t.2 as nat), 2) + "-"@ + padded(dec(t.3 as nat), 2) + padded(
            dec(t.4 as nat),
            2,
        ) + padded(dec(t.5 as nat), 2) + "-"@ + hex4(suffix),
        hex4(suffix).len() == 4,
        s.len() >= w ==> padded(s, w) == s,
        s.len() < w ==> padded(s, w).len() == w && padded(s, w).skip(w - s.len()) == s && forall|i: int|
            0 <= i < w - s.len() ==> #[trigger] padded(s, w)[i] == '0',
{
    if s.len() < w {
        assert(padded(s, w).skip(w - s.len()) =~= s);
    }
}

/// A step that fails, fails the preparation of a workspace at a bookmark with its error, whichever
/// step it is.
pub proof fn law_bookmark_steps_must_succeed(root: Seq<char>, name: Seq<char>, r: Seq<JjReply>, k: int)
    requires
        2 <= k <= 5,
        r.len() == k + 1,
        r[0] == JjReply::Exists(true),
        ended_well(r[1]),
        k > 2 ==> r[2] is Done,
        k > 3 ==> ended_well(r[3]),
        k > 4 ==> ended_well(r[4]) && !printed(r[3]),
        k == 2 ==> r[k] is Failed,
        k > 2 ==> (r[k] matches JjReply::Ran(out) && !out.success),
    ensures
        bookmark_prepare(root, name, r) is Fail,
        k > 2 ==> (bookmark_prepare(root, name, r) matches Flow::Fail(Fault::Git { command: _, stderr, exit: _ })
            && (r[k] matches JjReply::Ran(out) && stderr == readable(out.stderr@))),
{
    if k > 3 {
        assert(says_something(r[3]->Ran_0.stdout@) == printed(r[3]));
    }
}

/// A step that fails, fails the preparation of a workspace of its own, and so does one that lands its
/// work: what was not moved to the bookmark is not forgotten.
pub proof fn law_workspace_steps_must_succeed(
    root: Seq<char>,
    name: Seq<char>,
    ws: Space,
    r: Seq<JjReply>,
    k: int,
)
    requires
        0 <= k < r.len(),
        r[k] matches JjReply::Ran(out) && !out.success,
    ensures
        k == 2 && r[0] == JjReply::Exists(true) && ended_well(r[1]) ==> space_prepare(root, name, r)
            is Fail && head_prepare(root, r) is Fail,
        k == 4 && r[0] == JjReply::Exists(true) && ended_well(r[1]) && ended_well(r[2]) && r[3] is Done
            ==> space_prepare(root, name, r) is Fail,
        k == 0 && home(ws.path) is Some ==> space_finish(ws, AgentStatus::Success, r) is Fail
            && bookmark_finish(name, ws.path, AgentStatus::Success, r) is Fail,
        k == 1 && home(ws.path) is Some && ws.target is Some && ended_well(r[0]) ==> space_finish(
            ws,
            AgentStatus::Success,
            r,
        ) is Fail,
{
}

/// If the agent fails, its workspace stays and what is said names the reason and the place.
pub proof fn law_failure_is_told(ws: Space, why: String, name: Seq<char>, r: Seq<JjReply>)
    requires
        home(ws.path) is Some,
    ensures
        space_finish(ws, AgentStatus::Failure(why), r) == Flow::Go(
            Some(
                "jj-workspace: agent failed ("@ + why@ + "); workspace preserved at "@ + ws.path,
            ),
            0,
        ),
        bookmark_finish(name, ws.path, AgentStatus::Failure(why), r) == Flow::Go(
            Some(
                "jj-bookmark["@ + name + "]: agent failed ("@ + why@ + "); workspace preserved at "@
                    + ws.path,
            ),
            0,
        ),
{
}

} // verus!

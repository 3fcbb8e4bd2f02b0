//! File tools for an agent: `read_file`, `write_file`, `edit_file`.
//!
//! A tool call is a function of its input and of the file system's answers so far. It
//! either is finished or names the next thing to ask; the caller asks it and calls again
//! with one more answer. An answer of another kind than was asked for is no answer.
//!
//! With a root directory a tool stays inside it. Every component of the path is looked at
//! before it is passed: a symbolic link is refused wherever it points, and so is a file
//! with a second hard link. Without a root the tools take any path that has no `..` in it.

use vstd::prelude::*;
use vstd::utf8::*;

use crate::json::{member, parse, parsed, Json, Val};
use crate::paths::{
    absolute, climbs, has_climb, has_stay, is_absolute, is_in, lies_in, parent, parent_of, path_for,
    path_in, path_parts, parts, stays,
};
use crate::text::{
    chars_of, count_places, dec, dec_string, first_place, lines, lines_of, maybe, occurrences,
    occurs_at, parse_unsigned, push_dec, quote_path, quoted_path, text_of, texts, unsigned_value,
    utf8_error, utf8_fault,
};

verus! {

/// Largest file that is read: 1 MiB.
pub const MAX_BYTES: u64 = 0x10_0000;

/// Lines that are shown where no number is asked for.
pub const DEFAULT_LINE_LIMIT: usize = 2000;

/// Number of leading bytes that are searched for a NUL.
pub const BINARY_SNIFF: usize = 8192;

/// Reads a file as numbered lines.
#[derive(Debug)]
pub struct ReadTool {
    pub root: Option<String>,
}

/// Writes a file, in place of what was there, and makes the directories above it.
#[derive(Debug)]
pub struct WriteTool {
    pub root: Option<String>,
}

/// Replaces a text that occurs exactly once in a file.
#[derive(Debug)]
pub struct EditTool {
    pub root: Option<String>,
}

/// Why a tool call failed.
#[derive(Debug)]
pub struct ToolError(pub String);

/// What is known of a file.
#[derive(Debug, Clone, Copy, PartialEq, Eq, Structural)]
pub struct FileInfo {
    pub is_symlink: bool,
    pub is_file: bool,
    /// Number of hard links.
    pub links: u64,
    pub len: u64,
}

/// Something to ask of the file system.
#[derive(Debug)]
pub enum FsAction {
    /// The canonical form of a path.
    Canonicalize(String),
    /// What is known of a file; of a symbolic link itself.
    LinkInfo(String),
    /// What is known of a file; of what a symbolic link points to.
    Info(String),
    Read(String),
    Write { path: String, content: String },
    /// Make one directory.
    MakeDir(String),
    /// Make a directory and those above it.
    MakeDirs(String),
}

/// Mathematical form of an `FsAction`.
pub enum FsNeed {
    Canonicalize(Seq<char>),
    LinkInfo(Seq<char>),
    Info(Seq<char>),
    Read(Seq<char>),
    Write { path: Seq<char>, content: Seq<char> },
    MakeDir(Seq<char>),
    MakeDirs(Seq<char>),
}

impl View for FsAction {
    type V = FsNeed;

    open spec fn view(&self) -> FsNeed {
        match *self {
            FsAction::Canonicalize(p) => FsNeed::Canonicalize(p@),
            FsAction::LinkInfo(p) => FsNeed::LinkInfo(p@),
            FsAction::Info(p) => FsNeed::Info(p@),
            FsAction::Read(p) => FsNeed::Read(p@),
            FsAction::Write { path, content } => FsNeed::Write { path: path@, content: content@ },
            FsAction::MakeDir(p) => FsNeed::MakeDir(p@),
            FsAction::MakeDirs(p) => FsNeed::MakeDirs(p@),
        }
    }
}

/// The file system's answer.
#[derive(Debug)]
pub enum FsReply {
    /// It failed: the error's text, and whether it says that there is no such file.
    Failed { text: String, not_found: bool },
    Done,
    Path(String),
    Info(FileInfo),
    Bytes(Vec<u8>),
}

/// Where a tool call stands.
#[derive(Debug)]
pub enum ToolStep {
    Need(FsAction),
    Done(String),
    Failed(ToolError),
}

/// Mathematical form of a `ToolStep`.
pub enum Did {
    Need(FsNeed),
    Done(Seq<char>),
    Failed(Seq<char>),
}

impl View for ToolStep {
    type V = Did;

    open spec fn view(&self) -> Did {
        match *self {
            ToolStep::Need(a) => Did::Need(a@),
            ToolStep::Done(t) => Did::Done(t@),
            ToolStep::Failed(e) => Did::Failed(e.0@),
        }
    }
}

// ---------------------------------------------------------------------------------
// Input
// ---------------------------------------------------------------------------------
/// The input, or why it is refused.
pub open spec fn input_value(input: Seq<char>) -> Result<Val, Seq<char>> {
    match parsed(encode_utf8(input)) {
        Some(v) => Ok(v),
        None => Err("invalid JSON: "@ + "invalid response: invalid JSON"@),
    }
}

/// A text field that must be there.
pub open spec fn str_field(v: Val, key: Seq<char>) -> Result<Seq<char>, Seq<char>> {
    match member(v, key) {
        Some(Val::Str(s)) => Ok(s),
        Some(_) => Err("field '"@ + key + "' must be a string"@),
        None => Err("missing field '"@ + key + "'"@),
    }
}

/// A number field that may be absent or null.
pub open spec fn num_field(v: Val, key: Seq<char>) -> Result<Option<nat>, Seq<char>> {
    match member(v, key) {
        None => Ok(None),
        Some(Val::Null) => Ok(None),
        Some(Val::Num(n)) => match unsigned_value(n, usize::MAX as nat) {
            Some(k) => Ok(Some(k)),
            None => Err("field '"@ + key + "' is not a non-negative integer"@),
        },
        Some(_) => Err("field '"@ + key + "' must be a number"@),
    }
}

fn fail3(a: &str, b: &str, c: &str) -> (res: ToolError)
    ensures
        res.0@ == a@ + b@ + c@,
{
    let mut s = a.to_owned();
    s.push_str(b);
    s.push_str(c);
    ToolError(s)
}

fn fail2(a: &str, b: &str) -> (res: ToolError)
    ensures
        res.0@ == a@ + b@,
{
    let mut s = a.to_owned();
    s.push_str(b);
    ToolError(s)
}

/// Reads the input of a tool.
pub fn parse_input(input: &str) -> (res: Result<Json, ToolError>)
    ensures
        match input_value(input@) {
            Ok(v) => res matches Ok(j) && j@ == v,
            Err(m) => res matches Err(e) && e.0@ == m,
        },
{
    match parse(input.as_bytes()) {
        Ok(v) => Ok(v),
        Err(e) => Err(fail2("invalid JSON: ", e.message().as_str())),
    }
}

/// A text field that must be there.
pub fn require_str(v: &Json, key: &str) -> (res: Result<String, ToolError>)
    ensures
        match str_field(v@, key@) {
            Ok(s) => res matches Ok(t) && t@ == s,
            Err(m) => res matches Err(e) && e.0@ == m,
        },
{
    match v.get(key) {
        Some(Json::Str(s)) => Ok(s.clone()),
        Some(_) => Err(fail3("field '", key, "' must be a string")),
        None => Err(fail3("missing field '", key, "'")),
    }
}

fn optional_usize(v: &Json, key: &str) -> (res: Result<Option<usize>, ToolError>)
    ensures
        match num_field(v@, key@) {
            Ok(None) => res == Ok::<Option<usize>, ToolError>(None),
            Ok(Some(n)) => res matches Ok(Some(k)) && k == n,
            Err(m) => res matches Err(e) && e.0@ == m,
        },
{
    match v.get(key) {
        None => Ok(None),
        Some(Json::Null) => Ok(None),
        Some(Json::Num(n)) => {
            match parse_unsigned(n.as_str(), usize::MAX as u64) {
                Some(k) => Ok(Some(k as usize)),
                None => Err(fail3("field '", key, "' is not a non-negative integer")),
            }
        },
        Some(_) => Err(fail3("field '", key, "' must be a number")),
    }
}

// ---------------------------------------------------------------------------------
// Paths
// ---------------------------------------------------------------------------------
/// Whether a file has a second name.
pub open spec fn shared(m: FileInfo) -> bool {
    m.is_file && m.links > 1
}

fn hard_linked(meta: &FileInfo) -> (res: bool)
    ensures
        res == shared(*meta),
{
    meta.is_file && meta.links > 1
}

/// Where a path leads, with the number of answers used up, or why it is not known.
pub enum Place {
    At(Seq<char>, int),
    Stop(Did),
}

/// Looks whether the canonical form of `cur` lies in the root: the answers used up if it
/// does.
pub open spec fn inside(
    base: Seq<char>,
    path: Seq<char>,
    cur: Seq<char>,
    r: Seq<FsReply>,
    k: int,
) -> Result<int, Did> {
    if k >= r.len() {
        Err(Did::Need(FsNeed::Canonicalize(cur)))
    } else {
        match r[k] {
            FsReply::Path(p) => if lies_in(p@, base) {
                Ok(k + 1)
            } else {
                Err(Did::Failed("resolved path escapes sandbox root: "@ + path))
            },
            FsReply::Failed { text, .. } => Err(Did::Failed("cannot resolve path: "@ + text@)),
            _ => Err(Did::Need(FsNeed::Canonicalize(cur))),
        }
    }
}

/// Looks at one component, which leads to `cur`: the answers used up if it may be passed.
/// When writing, one that is missing may be passed too; unless it is the last, it is made.
pub open spec fn pass(
    base: Seq<char>,
    path: Seq<char>,
    part: Seq<char>,
    cur: Seq<char>,
    writing: bool,
    leaf: bool,
    r: Seq<FsReply>,
    k: int,
) -> Result<int, Did> {
    if k >= r.len() {
        Err(Did::Need(FsNeed::LinkInfo(cur)))
    } else {
        match r[k] {
            FsReply::Info(m) => if m.is_symlink {
                Err(
                    Did::Failed(
                        "refusing to traverse symlink at component "@ + quoted_path(part) + " of "@
                            + path,
                    ),
                )
            } else {
                inside(base, path, cur, r, k + 1)
            },
            FsReply::Failed { text, not_found } => if !writing || !not_found {
                Err(Did::Failed(text@))
            } else if leaf {
                Ok(k + 1)
            } else if k + 1 >= r.len() {
                Err(Did::Need(FsNeed::MakeDir(cur)))
            } else {
                match r[k + 1] {
                    FsReply::Done => inside(base, path, cur, r, k + 2),
                    FsReply::Failed { text, .. } => Err(Did::Failed(text@)),
                    _ => Err(Did::Need(FsNeed::MakeDir(cur))),
                }
            },
            _ => Err(Did::Need(FsNeed::LinkInfo(cur))),
        }
    }
}

/// Follows the components of a path from the `i`-th on, starting in `cur`.
pub open spec fn walk(
    base: Seq<char>,
    path: Seq<char>,
    names: Seq<Seq<char>>,
    i: int,
    cur: Seq<char>,
    writing: bool,
    r: Seq<FsReply>,
    k: int,
) -> Place
    decreases names.len() - i,
{
    if i >= names.len() {
        Place::At(cur, k)
    } else {
        let next = path_in(cur, names[i]);
        match pass(base, path, names[i], next, writing, i == names.len() - 1, r, k) {
            Ok(used) => walk(base, path, names, i + 1, next, writing, r, used),
            Err(d) => Place::Stop(d),
        }
    }
}

/// Where a path leads without a root. When writing, the directory above is made.
pub open spec fn free_place(path: Seq<char>, writing: bool, r: Seq<FsReply>) -> Place {
    match parent(path) {
        Some(dir) if writing && dir.len() > 0 => if r.len() == 0 {
            Place::Stop(Did::Need(FsNeed::MakeDirs(dir)))
        } else {
            match r[0] {
                FsReply::Done => Place::At(path, 1),
                FsReply::Failed { text, .. } => Place::Stop(Did::Failed(text@)),
                _ => Place::Stop(Did::Need(FsNeed::MakeDirs(dir))),
            }
        },
        _ => Place::At(path, 0),
    }
}

/// The names in a path that is to lead somewhere under a root, or why it is refused: it may
/// neither begin at the root directory nor have a piece `.` or `..`.
pub open spec fn user_names(path: Seq<char>) -> Result<Seq<Seq<char>>, Seq<char>> {
    if absolute(path) {
        Err("absolute paths not allowed under sandbox root: "@ + path)
    } else if climbs(path) || stays(path) {
        Err("path traversal not allowed: "@ + path)
    } else {
        Ok(parts(path))
    }
}

/// Where a path leads under a root.
pub open spec fn rooted_place(
    root: Seq<char>,
    path: Seq<char>,
    names: Seq<Seq<char>>,
    writing: bool,
    r: Seq<FsReply>,
) -> Place {
    if r.len() == 0 {
        Place::Stop(Did::Need(FsNeed::Canonicalize(root)))
    } else {
        match r[0] {
            FsReply::Path(base) => if writing && names.len() == 0 {
                Place::Stop(Did::Failed("empty path: "@ + path))
            } else {
                walk(base@, path, names, 0, base@, writing, r, 1)
            },
            FsReply::Failed { text, .. } => Place::Stop(
                Did::Failed("sandbox root unreadable: "@ + text@),
            ),
            _ => Place::Stop(Did::Need(FsNeed::Canonicalize(root))),
        }
    }
}

/// Where a path leads.
pub open spec fn place(
    root: Option<Seq<char>>,
    path: Seq<char>,
    writing: bool,
    r: Seq<FsReply>,
) -> Place {
    if climbs(path) {
        Place::Stop(Did::Failed("path traversal not allowed: "@ + path))
    } else {
        match root {
            None => free_place(path, writing, r),
            Some(dir) => match user_names(path) {
                Err(m) => Place::Stop(Did::Failed(m)),
                Ok(names) => rooted_place(dir, path, names, writing, r),
            },
        }
    }
}

fn confine(base: &str, path: &str, cur: &str, r: &Vec<FsReply>, k: usize) -> (res: Result<
    usize,
    ToolStep,
>)
    requires
        k <= r@.len(),
    ensures
        match inside(base@, path@, cur@, r@, k as int) {
            Ok(n) => res matches Ok(m) && m == n,
            Err(d) => res matches Err(s) && s@ == d,
        },
        res matches Ok(m) ==> m <= r@.len(),
{
    if k >= r.len() {
        return Err(ToolStep::Need(FsAction::Canonicalize(cur.to_owned())));
    }
    match &r[k] {
        FsReply::Path(p) => {
            if is_in(p.as_str(), base) {
                Ok(k + 1)
            } else {
                Err(ToolStep::Failed(fail2("resolved path escapes sandbox root: ", path)))
            }
        },
        FsReply::Failed { text, .. } => Err(
            ToolStep::Failed(fail2("cannot resolve path: ", text.as_str())),
        ),
        _ => Err(ToolStep::Need(FsAction::Canonicalize(cur.to_owned()))),
    }
}

fn pass_component(
    base: &str,
    path: &str,
    part: &str,
    cur: &str,
    writing: bool,
    leaf: bool,
    r: &Vec<FsReply>,
    k: usize,
) -> (res: Result<usize, ToolStep>)
    requires
        k <= r@.len(),
    ensures
        match pass(base@, path@, part@, cur@, writing, leaf, r@, k as int) {
            Ok(n) => res matches Ok(m) && m == n,
            Err(d) => res matches Err(s) && s@ == d,
        },
        res matches Ok(m) ==> m <= r@.len(),
{
    if k >= r.len() {
        return Err(ToolStep::Need(FsAction::LinkInfo(cur.to_owned())));
    }
    match &r[k] {
        FsReply::Info(m) => {
            if m.is_symlink {
                let mut s = "refusing to traverse symlink at component ".to_owned();
                s.push_str(quote_path(part).as_str());
                s.push_str(" of ");
                s.push_str(path);
                Err(ToolStep::Failed(ToolError(s)))
            } else {
                confine(base, path, cur, r, k + 1)
            }
        },
        FsReply::Failed { text, not_found } => {
            if !writing || !*not_found {
                return Err(ToolStep::Failed(ToolError(text.clone())));
            }
            if leaf {
                return Ok(k + 1);
            }
            if k + 1 >= r.len() {
                return Err(ToolStep::Need(FsAction::MakeDir(cur.to_owned())));
            }
            match &r[k + 1] {
                FsReply::Done => confine(base, path, cur, r, k + 2),
                FsReply::Failed { text, .. } => Err(ToolStep::Failed(ToolError(text.clone()))),
                _ => Err(ToolStep::Need(FsAction::MakeDir(cur.to_owned()))),
            }
        },
        _ => Err(ToolStep::Need(FsAction::LinkInfo(cur.to_owned()))),
    }
}

/// The names in a path that is to lead somewhere under a root, or why it is refused.
pub fn user_components(path: &str) -> (res: Result<Vec<String>, ToolError>)
    ensures
        match user_names(path@) {
            Ok(names) => res matches Ok(v) && texts(v@) == names,
            Err(m) => res matches Err(e) && e.0@ == m,
        },
{
    if is_absolute(path) {
        return Err(fail2("absolute paths not allowed under sandbox root: ", path));
    }
    if has_climb(path) || has_stay(path) {
        return Err(fail2("path traversal not allowed: ", path));
    }
    Ok(path_parts(path))
}

fn resolve_rooted(
    root: &str,
    path: &str,
    names: &Vec<String>,
    writing: bool,
    r: &Vec<FsReply>,
) -> (res: Result<(String, usize), ToolStep>)
    ensures
        match rooted_place(root@, path@, texts(names@), writing, r@) {
            Place::At(p, k) => res matches Ok(a) && a.0@ == p && a.1 == k,
            Place::Stop(d) => res matches Err(s) && s@ == d,
        },
        res matches Ok(a) ==> a.1 <= r@.len(),
{
    if r.len() == 0 {
        return Err(ToolStep::Need(FsAction::Canonicalize(root.to_owned())));
    }
    let base: &String = match &r[0] {
        FsReply::Path(p) => p,
        FsReply::Failed { text, .. } => {
            return Err(ToolStep::Failed(fail2("sandbox root unreadable: ", text.as_str())));
        },
        _ => {
            return Err(ToolStep::Need(FsAction::Canonicalize(root.to_owned())));
        },
    };
    if writing && names.len() == 0 {
        return Err(ToolStep::Failed(fail2("empty path: ", path)));
    }
    let mut cur: String = base.clone();
    let mut k: usize = 1;
    let mut i: usize = 0;
    while i < names.len()
        invariant
            i <= names@.len(),
            k <= r@.len(),
            rooted_place(root@, path@, texts(names@), writing, r@) == walk(
                base@,
                path@,
                texts(names@),
                i as int,
                cur@,
                writing,
                r@,
                k as int,
            ),
        decreases names.len() - i,
    {
        let next = path_for(cur.as_str(), names[i].as_str());
        proof {
            assert(texts(names@)[i as int] == names@[i as int]@);
        }
        match pass_component(
            base.as_str(),
            path,
            names[i].as_str(),
            next.as_str(),
            writing,
            i == names.len() - 1,
            r,
            k,
        ) {
            Ok(used) => {
                k = used;
            },
            Err(s) => {
                return Err(s);
            },
        }
        cur = next;
        i += 1;
    }
    Ok((cur, k))
}

fn resolve(root: &Option<String>, path: &str, writing: bool, r: &Vec<FsReply>) -> (res: Result<
    (String, usize),
    ToolStep,
>)
    ensures
        match place(maybe(*root), path@, writing, r@) {
            Place::At(p, k) => res matches Ok(a) && a.0@ == p && a.1 == k,
            Place::Stop(d) => res matches Err(s) && s@ == d,
        },
        res matches Ok(a) ==> a.1 <= r@.len(),
{
    if has_climb(path) {
        return Err(ToolStep::Failed(fail2("path traversal not allowed: ", path)));
    }
    match root {
        Some(dir) => {
            match user_components(path) {
                Ok(names) => resolve_rooted(dir.as_str(), path, &names, writing, r),
                Err(e) => Err(ToolStep::Failed(e)),
            }
        },
        None => {
            if writing {
                if let Some(dir) = parent_of(path) {
                    if chars_of(dir.as_str()).len() > 0 {
                        if r.len() == 0 {
                            return Err(ToolStep::Need(FsAction::MakeDirs(dir)));
                        }
                        return match &r[0] {
                            FsReply::Done => Ok((path.to_owned(), 1)),
                            FsReply::Failed { text, .. } => Err(
                                ToolStep::Failed(ToolError(text.clone())),
                            ),
                            _ => Err(ToolStep::Need(FsAction::MakeDirs(dir))),
                        };
                    }
                }
            }
            Ok((path.to_owned(), 0))
        },
    }
}

// ---------------------------------------------------------------------------------
// Reading
// ---------------------------------------------------------------------------------
/// Whether the line with this number is shown.
pub open spec fn shown(number: int, start: nat, max: nat) -> bool {
    start <= number < start + max
}

/// Those of the first `n` lines that are shown, each with its number before it.
pub open spec fn numbered(all: Seq<Seq<char>>, start: nat, max: nat, n: nat) -> Seq<char>
    decreases n,
{
    if n == 0 {
        Seq::empty()
    } else {
        let before = numbered(all, start, max, (n - 1) as nat);
        if shown(n as int, start, max) {
            before + dec(n) + "\t"@ + all[n - 1] + "\n"@
        } else {
            before
        }
    }
}

/// Number of the last of the first `n` lines that is shown, or 0.
pub open spec fn last_shown(start: nat, max: nat, n: nat) -> nat
    decreases n,
{
    if n == 0 {
        0
    } else if shown(n as int, start, max) {
        n
    } else {
        last_shown(start, max, (n - 1) as nat)
    }
}

/// A window of `limit` lines from line `offset` on. If lines follow it, it says so.
pub open spec fn window(text: Seq<char>, offset: Option<nat>, limit: Option<nat>) -> Seq<char> {
    let start = match offset {
        Some(n) if n > 0 => n,
        _ => 1,
    };
    let max = match limit {
        Some(n) => n,
        None => DEFAULT_LINE_LIMIT as nat,
    };
    let all = lines(text);
    let last = last_shown(start, max, all.len());
    let body = numbered(all, start, max, all.len());
    if 0 < last < all.len() {
        body + "[truncated at line "@ + dec(last) + "]\n"@
    } else {
        body
    }
}

pub open spec fn as_nat(n: Option<usize>) -> Option<nat> {
    match n {
        Some(k) => Some(k as nat),
        None => None,
    }
}

fn format_numbered(text: &str, offset: Option<usize>, limit: Option<usize>) -> (out: String)
    ensures
        out@ == window(text@, as_nat(offset), as_nat(limit)),
{
    let start: usize = match offset {
        Some(n) => if n > 0 {
            n
        } else {
            1
        },
        None => 1,
    };
    let max: usize = match limit {
        Some(n) => n,
        None => DEFAULT_LINE_LIMIT,
    };
    let all = lines_of(text);
    let mut out = "".to_owned();
    let mut last: usize = 0;
    let mut i: usize = 0;
    proof {
        reveal_strlit("");
        assert(out@ =~= numbered(lines(text@), start as nat, max as nat, 0));
    }
    while i < all.len()
        invariant
            i <= all.len(),
            texts(all@) == lines(text@),
            out@ == numbered(lines(text@), start as nat, max as nat, i as nat),
            last == last_shown(start as nat, max as nat, i as nat),
        decreases all.len() - i,
    {
        let number: usize = i + 1;
        proof {
            assert(texts(all@)[i as int] == all@[i as int]@);
        }
        if number >= start && number - start < max {
            push_dec(&mut out, number as u128);
            out.push_str("\t");
            out.push_str(all[i].as_str());
            out.push_str("\n");
            last = number;
        }
        i += 1;
    }
    if last > 0 && last < all.len() {
        out.push_str("[truncated at line ");
        push_dec(&mut out, last as u128);
        out.push_str("]\n");
    }
    out
}

/// Whether one of the first bytes is NUL.
pub open spec fn binary(b: Seq<u8>) -> bool {
    exists|i: int| 0 <= i < b.len() && i < BINARY_SNIFF && #[trigger] b[i] == 0
}

fn looks_binary(b: &Vec<u8>) -> (res: bool)
    ensures
        res == binary(b@),
{
    let mut i: usize = 0;
    while i < b.len() && i < BINARY_SNIFF
        invariant
            i <= b@.len(),
            forall|k: int| 0 <= k < i ==> #[trigger] b@[k] != 0,
        decreases b.len() - i,
    {
        if b[i] == 0 {
            return true;
        }
        i += 1;
    }
    false
}

/// The rest of a read, once the size of the file is known.
pub open spec fn read_content(
    full: Seq<char>,
    len: u64,
    offset: Option<nat>,
    limit: Option<nat>,
    r: Seq<FsReply>,
    k: int,
) -> Did {
    if len > MAX_BYTES {
        Did::Failed(
            "file too large: "@ + dec(len as nat) + " bytes (max "@ + dec(MAX_BYTES as nat) + ")"@,
        )
    } else if k >= r.len() {
        Did::Need(FsNeed::Read(full))
    } else {
        match r[k] {
            FsReply::Bytes(b) => if binary(b@) {
                Did::Failed("file appears binary"@)
            } else if !valid_utf8(b@) {
                Did::Failed("not UTF-8: "@ + utf8_fault(b@))
            } else {
                Did::Done(window(decode_utf8(b@), offset, limit))
            },
            FsReply::Failed { text, .. } => Did::Failed(text@),
            _ => Did::Need(FsNeed::Read(full)),
        }
    }
}

/// A read, once it is known where the path leads.
pub open spec fn read_at(
    rooted: bool,
    path: Seq<char>,
    full: Seq<char>,
    offset: Option<nat>,
    limit: Option<nat>,
    r: Seq<FsReply>,
    k: int,
) -> Did {
    if k >= r.len() {
        Did::Need(FsNeed::LinkInfo(full))
    } else {
        match r[k] {
            FsReply::Info(m) => if rooted && m.is_symlink {
                Did::Failed("refusing to follow symlink: "@ + path)
            } else if rooted && shared(m) {
                Did::Failed("refusing hard-linked file (st_nlink > 1): "@ + path)
            } else if !m.is_symlink {
                read_content(full, m.len, offset, limit, r, k + 1)
            } else if k + 1 >= r.len() {
                Did::Need(FsNeed::Info(full))
            } else {
                match r[k + 1] {
                    FsReply::Info(t) => read_content(full, t.len, offset, limit, r, k + 2),
                    FsReply::Failed { text, .. } => Did::Failed(text@),
                    _ => Did::Need(FsNeed::Info(full)),
                }
            },
            FsReply::Failed { text, .. } => Did::Failed(text@),
            _ => Did::Need(FsNeed::LinkInfo(full)),
        }
    }
}

/// A call of `read_file`.
pub open spec fn read_call(root: Option<Seq<char>>, input: Seq<char>, r: Seq<FsReply>) -> Did {
    match input_value(input) {
        Err(m) => Did::Failed(m),
        Ok(v) => match str_field(v, "path"@) {
            Err(m) => Did::Failed(m),
            Ok(path) => match num_field(v, "offset"@) {
                Err(m) => Did::Failed(m),
                Ok(offset) => match num_field(v, "limit"@) {
                    Err(m) => Did::Failed(m),
                    Ok(limit) => match place(root, path, false, r) {
                        Place::Stop(d) => d,
                        Place::At(full, k) => read_at(root is Some, path, full, offset, limit, r, k),
                    },
                },
            },
        },
    }
}

/// The text of bytes that are valid UTF-8.
fn decode(b: &Vec<u8>) -> (res: Option<String>)
    ensures
        match res {
            Some(s) => valid_utf8(b@) && s@ == decode_utf8(b@),
            None => !valid_utf8(b@),
        },
{
    match core::str::from_utf8(b.as_slice()) {
        Ok(s) => {
            proof {
                encode_utf8_decode_utf8(s@);
            }
            Some(s.to_owned())
        },
        Err(_) => None,
    }
}

fn read_sized(
    full: String,
    len: u64,
    offset: Option<usize>,
    limit: Option<usize>,
    r: &Vec<FsReply>,
    k: usize,
) -> (res: ToolStep)
    ensures
        res@ == read_content(full@, len, as_nat(offset), as_nat(limit), r@, k as int),
{
    if len > MAX_BYTES {
        let mut s = "file too large: ".to_owned();
        push_dec(&mut s, len as u128);
        s.push_str(" bytes (max ");
        push_dec(&mut s, MAX_BYTES as u128);
        s.push_str(")");
        return ToolStep::Failed(ToolError(s));
    }
    if k >= r.len() {
        return ToolStep::Need(FsAction::Read(full));
    }
    match &r[k] {
        FsReply::Bytes(b) => {
            if looks_binary(b) {
                return ToolStep::Failed(ToolError("file appears binary".to_owned()));
            }
            match decode(b) {
                Some(text) => ToolStep::Done(format_numbered(text.as_str(), offset, limit)),
                None => ToolStep::Failed(
                    fail2("not UTF-8: ", utf8_error(b.as_slice()).as_str()),
                ),
            }
        },
        FsReply::Failed { text, .. } => ToolStep::Failed(ToolError(text.clone())),
        _ => ToolStep::Need(FsAction::Read(full)),
    }
}

impl ReadTool {
    pub fn name(&self) -> (res: &str)
        ensures
            res@ == "read_file"@,
    {
        "read_file"
    }

    pub fn description(&self) -> (res: &str)
        ensures
            res@
                == "Read a file's contents. Returns the file as a string. Errors if the file is not UTF-8 or exceeds 1 MiB."@,
    {
        "Read a file's contents. Returns the file as a string. Errors if the file is not UTF-8 or exceeds 1 MiB."
    }

    pub fn input_schema(&self) -> (res: &str)
        ensures
            res@
                == "{\"type\":\"object\",\"properties\":{\"path\":{\"type\":\"string\"},\"offset\":{\"type\":\"number\",\"description\":\"1-based starting line.\"},\"limit\":{\"type\":\"number\",\"description\":\"Maximum number of lines to return.\"}},\"required\":[\"path\"]}"@,
    {
        "{\"type\":\"object\",\"properties\":{\"path\":{\"type\":\"string\"},\"offset\":{\"type\":\"number\",\"description\":\"1-based starting line.\"},\"limit\":{\"type\":\"number\",\"description\":\"Maximum number of lines to return.\"}},\"required\":[\"path\"]}"
    }

    /// Where a call stands after the answers in `r`.
    pub fn call(&self, input: &str, r: &Vec<FsReply>) -> (res: ToolStep)
        ensures
            res@ == read_call(maybe(self.root), input@, r@),
    {
        let v = match parse_input(input) {
            Ok(v) => v,
            Err(e) => {
                return ToolStep::Failed(e);
            },
        };
        let path = match require_str(&v, "path") {
            Ok(p) => p,
            Err(e) => {
                return ToolStep::Failed(e);
            },
        };
        let offset = match optional_usize(&v, "offset") {
            Ok(n) => n,
            Err(e) => {
                return ToolStep::Failed(e);
            },
        };
        let limit = match optional_usize(&v, "limit") {
            Ok(n) => n,
            Err(e) => {
                return ToolStep::Failed(e);
            },
        };
        let rooted = self.root.is_some();
        let (full, k) = match resolve(&self.root, path.as_str(), false, r) {
            Ok(a) => a,
            Err(s) => {
                return s;
            },
        };
        if k >= r.len() {
            return ToolStep::Need(FsAction::LinkInfo(full));
        }
        match &r[k] {
            FsReply::Info(m) => {
                if rooted && m.is_symlink {
                    return ToolStep::Failed(fail2("refusing to follow symlink: ", path.as_str()));
                }
                if rooted && hard_linked(m) {
                    return ToolStep::Failed(
                        fail2("refusing hard-linked file (st_nlink > 1): ", path.as_str()),
                    );
                }
                if !m.is_symlink {
                    return read_sized(full, m.len, offset, limit, r, k + 1);
                }
                if k + 1 >= r.len() {
                    return ToolStep::Need(FsAction::Info(full));
                }
                match &r[k + 1] {
                    FsReply::Info(t) => read_sized(full, t.len, offset, limit, r, k + 2),
                    FsReply::Failed { text, .. } => ToolStep::Failed(ToolError(text.clone())),
                    _ => ToolStep::Need(FsAction::Info(full)),
                }
            },
            FsReply::Failed { text, .. } => ToolStep::Failed(ToolError(text.clone())),
            _ => ToolStep::Need(FsAction::LinkInfo(full)),
        }
    }
}

// ---------------------------------------------------------------------------------
// Writing
// ---------------------------------------------------------------------------------
/// The write itself, and what is said of it.
pub open spec fn put(
    full: Seq<char>,
    content: Seq<char>,
    said: Seq<char>,
    r: Seq<FsReply>,
    k: int,
) -> Did {
    if k >= r.len() {
        Did::Need(FsNeed::Write { path: full, content })
    } else {
        match r[k] {
            FsReply::Done => Did::Done(said),
            FsReply::Failed { text, .. } => Did::Failed(text@),
            _ => Did::Need(FsNeed::Write { path: full, content }),
        }
    }
}

/// What is said of a write.
pub open spec fn wrote(full: Seq<char>, content: Seq<char>) -> Seq<char> {
    "wrote "@ + dec(encode_utf8(content).len()) + " bytes to "@ + full
}

/// A write, once it is known where the path leads. With a root the file is looked at once
/// more; that it is missing, or cannot be looked at, stops nothing.
pub open spec fn write_at(
    rooted: bool,
    path: Seq<char>,
    full: Seq<char>,
    content: Seq<char>,
    r: Seq<FsReply>,
    k: int,
) -> Did {
    if !rooted {
        put(full, content, wrote(full, content), r, k)
    } else if k >= r.len() {
        Did::Need(FsNeed::LinkInfo(full))
    } else {
        match r[k] {
            FsReply::Info(m) => if m.is_symlink {
                Did::Failed("refusing to write through symlink: "@ + path)
            } else if shared(m) {
                Did::Failed("refusing to write through hard-linked file (st_nlink > 1): "@ + path)
            } else {
                put(full, content, wrote(full, content), r, k + 1)
            },
            FsReply::Failed { .. } => put(full, content, wrote(full, content), r, k + 1),
            _ => Did::Need(FsNeed::LinkInfo(full)),
        }
    }
}

/// A call of `write_file`.
pub open spec fn write_call(root: Option<Seq<char>>, input: Seq<char>, r: Seq<FsReply>) -> Did {
    match input_value(input) {
        Err(m) => Did::Failed(m),
        Ok(v) => match str_field(v, "path"@) {
            Err(m) => Did::Failed(m),
            Ok(path) => match str_field(v, "content"@) {
                Err(m) => Did::Failed(m),
                Ok(content) => match place(root, path, true, r) {
                    Place::Stop(d) => d,
                    Place::At(full, k) => write_at(root is Some, path, full, content, r, k),
                },
            },
        },
    }
}

fn put_file(full: String, content: String, said: String, r: &Vec<FsReply>, k: usize) -> (res:
    ToolStep)
    ensures
        res@ == put(full@, content@, said@, r@, k as int),
{
    if k >= r.len() {
        return ToolStep::Need(FsAction::Write { path: full, content });
    }
    match &r[k] {
        FsReply::Done => ToolStep::Done(said),
        FsReply::Failed { text, .. } => ToolStep::Failed(ToolError(text.clone())),
        _ => ToolStep::Need(FsAction::Write { path: full, content }),
    }
}

impl WriteTool {
    pub fn name(&self) -> (res: &str)
        ensures
            res@ == "write_file"@,
    {
        "write_file"
    }

    pub fn description(&self) -> (res: &str)
        ensures
            res@
                == "Write content to a file, creating it if needed. Replaces existing content."@,
    {
        "Write content to a file, creating it if needed. Replaces existing content."
    }

    pub fn input_schema(&self) -> (res: &str)
        ensures
            res@
                == "{\"type\":\"object\",\"properties\":{\"path\":{\"type\":\"string\"},\"content\":{\"type\":\"string\"}},\"required\":[\"path\",\"content\"]}"@,
    {
        "{\"type\":\"object\",\"properties\":{\"path\":{\"type\":\"string\"},\"content\":{\"type\":\"string\"}},\"required\":[\"path\",\"content\"]}"
    }

    /// Where a call stands after the answers in `r`.
    pub fn call(&self, input: &str, r: &Vec<FsReply>) -> (res: ToolStep)
        ensures
            res@ == write_call(maybe(self.root), input@, r@),
    {
        let v = match parse_input(input) {
            Ok(v) => v,
            Err(e) => {
                return ToolStep::Failed(e);
            },
        };
        let path = match require_str(&v, "path") {
            Ok(p) => p,
            Err(e) => {
                return ToolStep::Failed(e);
            },
        };
        let content = match require_str(&v, "content") {
            Ok(c) => c,
            Err(e) => {
                return ToolStep::Failed(e);
            },
        };
        let (full, k) = match resolve(&self.root, path.as_str(), true, r) {
            Ok(a) => a,
            Err(s) => {
                return s;
            },
        };
        let mut said = "wrote ".to_owned();
        push_dec(&mut said, content.as_str().as_bytes().len() as u128);
        said.push_str(" bytes to ");
        said.push_str(full.as_str());
        if !self.root.is_some() {
            return put_file(full, content, said, r, k);
        }
        if k >= r.len() {
            return ToolStep::Need(FsAction::LinkInfo(full));
        }
        match &r[k] {
            FsReply::Info(m) => {
                if m.is_symlink {
                    return ToolStep::Failed(
                        fail2("refusing to write through symlink: ", path.as_str()),
                    );
                }
                if hard_linked(m) {
                    return ToolStep::Failed(
                        fail2(
                            "refusing to write through hard-linked file (st_nlink > 1): ",
                            path.as_str(),
                        ),
                    );
                }
                put_file(full, content, said, r, k + 1)
            },
            FsReply::Failed { .. } => put_file(full, content, said, r, k + 1),
            _ => ToolStep::Need(FsAction::LinkInfo(full)),
        }
    }
}

// ---------------------------------------------------------------------------------
// Editing
// ---------------------------------------------------------------------------------
/// A text with the first occurrence of `old_text` replaced.
pub open spec fn replaced(text: Seq<char>, old_text: Seq<char>, new_text: Seq<char>) -> Seq<char> {
    let z = first_place(text, old_text, 0);
    text.take(z) + new_text + text.skip(z + old_text.len())
}

/// An edit, once the file may be read.
pub open spec fn edit_content(
    full: Seq<char>,
    old_text: Seq<char>,
    new_text: Seq<char>,
    r: Seq<FsReply>,
    k: int,
) -> Did {
    if k >= r.len() {
        Did::Need(FsNeed::Read(full))
    } else {
        match r[k] {
            FsReply::Bytes(b) => if !valid_utf8(b@) {
                Did::Failed("not UTF-8: "@ + utf8_fault(b@))
            } else {
                let text = decode_utf8(b@);
                let n = occurrences(text, old_text, 0);
                if n == 0 {
                    Did::Failed("old_text not found"@)
                } else if n > 1 {
                    Did::Failed(
                        "old_text appears "@ + dec(n) + " times; refusing ambiguous edit"@,
                    )
                } else {
                    put(
                        full,
                        replaced(text, old_text, new_text),
                        "edited "@ + full + ": "@ + dec(encode_utf8(old_text).len())
                            + " chars replaced"@,
                        r,
                        k + 1,
                    )
                }
            },
            FsReply::Failed { text, .. } => Did::Failed(text@),
            _ => Did::Need(FsNeed::Read(full)),
        }
    }
}

/// An edit, once it is known where the path leads.
pub open spec fn edit_at(
    rooted: bool,
    path: Seq<char>,
    full: Seq<char>,
    old_text: Seq<char>,
    new_text: Seq<char>,
    r: Seq<FsReply>,
    k: int,
) -> Did {
    if !rooted {
        edit_content(full, old_text, new_text, r, k)
    } else if k >= r.len() {
        Did::Need(FsNeed::LinkInfo(full))
    } else {
        match r[k] {
            FsReply::Info(m) => if m.is_symlink {
                Did::Failed("refusing to edit through symlink: "@ + path)
            } else if shared(m) {
                Did::Failed("refusing to edit hard-linked file (st_nlink > 1): "@ + path)
            } else {
                edit_content(full, old_text, new_text, r, k + 1)
            },
            FsReply::Failed { text, .. } => Did::Failed(text@),
            _ => Did::Need(FsNeed::LinkInfo(full)),
        }
    }
}

/// A call of `edit_file`.
pub open spec fn edit_call(root: Option<Seq<char>>, input: Seq<char>, r: Seq<FsReply>) -> Did {
    match input_value(input) {
        Err(m) => Did::Failed(m),
        Ok(v) => match str_field(v, "path"@) {
            Err(m) => Did::Failed(m),
            Ok(path) => match str_field(v, "old_text"@) {
                Err(m) => Did::Failed(m),
                Ok(old_text) => match str_field(v, "new_text"@) {
                    Err(m) => Did::Failed(m),
                    Ok(new_text) => match place(root, path, false, r) {
                        Place::Stop(d) => d,
                        Place::At(full, k) => edit_at(
                            root is Some,
                            path,
                            full,
                            old_text,
                            new_text,
                            r,
                            k,
                        ),
                    },
                },
            },
        },
    }
}

fn edit_text(full: String, old_text: &str, new_text: &str, r: &Vec<FsReply>, k: usize) -> (res:
    ToolStep)
    ensures
        res@ == edit_content(full@, old_text@, new_text@, r@, k as int),
{
    if k >= r.len() {
        return ToolStep::Need(FsAction::Read(full));
    }
    match &r[k] {
        FsReply::Bytes(b) => {
            let text = match decode(b) {
                Some(t) => t,
                None => {
                    return ToolStep::Failed(
                        fail2("not UTF-8: ", utf8_error(b.as_slice()).as_str()),
                    );
                },
            };
            let chars = chars_of(text.as_str());
            let old_chars = chars_of(old_text);
            let (n, z) = count_places(chars.as_slice(), old_chars.as_slice());
            if n == 0 {
                return ToolStep::Failed(ToolError("old_text not found".to_owned()));
            }
            if n > 1 {
                return ToolStep::Failed(
                    fail3(
                        "old_text appears ",
                        dec_string(n).as_str(),
                        " times; refusing ambiguous edit",
                    ),
                );
            }
            proof {
                assert(z + old_chars.len() <= chars.len());
            }
            let mut content = text_of(chars.as_slice(), 0, z);
            content.push_str(new_text);
            content.push_str(
                text_of(chars.as_slice(), z + old_chars.len(), chars.len()).as_str(),
            );
            proof {
                assert(content@ =~= replaced(text@, old_text@, new_text@));
            }
            let mut said = "edited ".to_owned();
            said.push_str(full.as_str());
            said.push_str(": ");
            push_dec(&mut said, old_text.as_bytes().len() as u128);
            said.push_str(" chars replaced");
            put_file(full, content, said, r, k + 1)
        },
        FsReply::Failed { text, .. } => ToolStep::Failed(ToolError(text.clone())),
        _ => ToolStep::Need(FsAction::Read(full)),
    }
}

impl EditTool {
    pub fn name(&self) -> (res: &str)
        ensures
            res@ == "edit_file"@,
    {
        "edit_file"
    }

    pub fn description(&self) -> (res: &str)
        ensures
            res@
                == "Replace exact text in a file. Errors if old_text doesn't appear, or appears more than once."@,
    {
        "Replace exact text in a file. Errors if old_text doesn't appear, or appears more than once."
    }

    pub fn input_schema(&self) -> (res: &str)
        ensures
            res@
                == "{\"type\":\"object\",\"properties\":{\"path\":{\"type\":\"string\"},\"old_text\":{\"type\":\"string\"},\"new_text\":{\"type\":\"string\"}},\"required\":[\"path\",\"old_text\",\"new_text\"]}"@,
    {
        "{\"type\":\"object\",\"properties\":{\"path\":{\"type\":\"string\"},\"old_text\":{\"type\":\"string\"},\"new_text\":{\"type\":\"string\"}},\"required\":[\"path\",\"old_text\",\"new_text\"]}"
    }

    /// Where a call stands after the answers in `r`.
    pub fn call(&self, input: &str, r: &Vec<FsReply>) -> (res: ToolStep)
        ensures
            res@ == edit_call(maybe(self.root), input@, r@),
    {
        let v = match parse_input(input) {
            Ok(v) => v,
            Err(e) => {
                return ToolStep::Failed(e);
            },
        };
        let path = match require_str(&v, "path") {
            Ok(p) => p,
            Err(e) => {
                return ToolStep::Failed(e);
            },
        };
        let old_text = match require_str(&v, "old_text") {
            Ok(t) => t,
            Err(e) => {
                return ToolStep::Failed(e);
            },
        };
        let new_text = match require_str(&v, "new_text") {
            Ok(t) => t,
            Err(e) => {
                return ToolStep::Failed(e);
            },
        };
        let (full, k) = match resolve(&self.root, path.as_str(), false, r) {
            Ok(a) => a,
            Err(s) => {
                return s;
            },
        };
        if !self.root.is_some() {
            return edit_text(full, old_text.as_str(), new_text.as_str(), r, k);
        }
        if k >= r.len() {
            return ToolStep::Need(FsAction::LinkInfo(full));
        }
        match &r[k] {
            FsReply::Info(m) => {
                if m.is_symlink {
                    return ToolStep::Failed(
                        fail2("refusing to edit through symlink: ", path.as_str()),
                    );
                }
                if hard_linked(m) {
                    return ToolStep::Failed(
                        fail2("refusing to edit hard-linked file (st_nlink > 1): ", path.as_str()),
                    );
                }
                edit_text(full, old_text.as_str(), new_text.as_str(), r, k + 1)
            },
            FsReply::Failed { text, .. } => ToolStep::Failed(ToolError(text.clone())),
            _ => ToolStep::Need(FsAction::LinkInfo(full)),
        }
    }
}

// ---------------------------------------------------------------------------------
// Laws
// ---------------------------------------------------------------------------------
/// The path that the first `n` names lead to from a directory.
pub open spec fn descend(dir: Seq<char>, names: Seq<Seq<char>>, n: int) -> Seq<char>
    decreases n,
{
    if n <= 0 {
        dir
    } else {
        path_in(descend(dir, names, n - 1), names[n - 1])
    }
}

/// What the answers before `k` show: no component was a symbolic link, and no canonical
/// path lay outside the directory.
pub open spec fn clean(base: Seq<char>, r: Seq<FsReply>, k: int) -> bool {
    forall|j: int|
        1 <= j < k ==> match #[trigger] r[j] {
            FsReply::Info(m) => !m.is_symlink,
            FsReply::Path(p) => lies_in(p@, base),
            _ => true,
        }
}

proof fn lemma_walk(
    base: Seq<char>,
    path: Seq<char>,
    names: Seq<Seq<char>>,
    i: int,
    cur: Seq<char>,
    writing: bool,
    r: Seq<FsReply>,
    k: int,
)
    requires
        0 <= i <= names.len(),
        1 <= k <= r.len(),
        cur == descend(base, names, i),
        clean(base, r, k),
    ensures
        walk(base, path, names, i, cur, writing, r, k) matches Place::At(full, n) ==> {
            &&& k <= n <= r.len()
            &&& full == descend(base, names, names.len() as int)
            &&& clean(base, r, n)
        },
    decreases names.len() - i,
{
    if i < names.len() {
        let next = path_in(cur, names[i]);
        match pass(base, path, names[i], next, writing, i == names.len() - 1, r, k) {
            Ok(used) => {
                assert(clean(base, r, used)) by {
                    assert forall|j: int| 1 <= j < used implies match #[trigger] r[j] {
                        FsReply::Info(m) => !m.is_symlink,
                        FsReply::Path(p) => lies_in(p@, base),
                        _ => true,
                    } by {}
                }
                lemma_walk(base, path, names, i + 1, next, writing, r, used);
            },
            Err(_) => {},
        }
    }
}

/// With a root, a path leads only to what its names lead to from the canonical root; none
/// of its pieces is `.` or `..`, and on the way no symbolic link was passed and no canonical path lay
/// outside the root.
pub proof fn law_root_confines(
    root: Seq<char>,
    path: Seq<char>,
    writing: bool,
    r: Seq<FsReply>,
)
    ensures
        place(Some(root), path, writing, r) matches Place::At(full, k) ==> {
            &&& 1 <= k <= r.len()
            &&& r[0] is Path
            &&& full == descend(r[0]->Path_0@, parts(path), parts(path).len() as int)
            &&& !climbs(path)
            &&& !stays(path)
            &&& !absolute(path)
            &&& clean(r[0]->Path_0@, r, k)
        },
{
    if user_names(path) is Ok && r.len() > 0 {
        if let FsReply::Path(base) = r[0] {
            lemma_walk(base@, path, parts(path), 0, base@, writing, r, 1);
        }
    }
}

/// Finding out where a path leads is neither a read nor a write, and finishes no call.
proof fn lemma_stops(
    base: Seq<char>,
    path: Seq<char>,
    names: Seq<Seq<char>>,
    i: int,
    cur: Seq<char>,
    writing: bool,
    r: Seq<FsReply>,
    k: int,
)
    requires
        0 <= i <= names.len(),
    ensures
        walk(base, path, names, i, cur, writing, r, k) matches Place::Stop(d) ==> looking(d),
    decreases names.len() - i,
{
    if i < names.len() {
        let next = path_in(cur, names[i]);
        if let Ok(used) = pass(base, path, names[i], next, writing, i == names.len() - 1, r, k) {
            lemma_stops(base, path, names, i + 1, next, writing, r, used);
        }
    }
}

spec fn looking(d: Did) -> bool {
    match d {
        Did::Need(FsNeed::Read(_)) => false,
        Did::Need(FsNeed::Write { .. }) => false,
        Did::Need(_) => true,
        Did::Done(_) => false,
        Did::Failed(_) => true,
    }
}

proof fn lemma_place_stops(root: Seq<char>, path: Seq<char>, writing: bool, r: Seq<FsReply>)
    ensures
        place(Some(root), path, writing, r) matches Place::Stop(d) ==> looking(d),
{
    if r.len() > 0 {
        if let FsReply::Path(base) = r[0] {
            lemma_stops(base@, path, parts(path), 0, base@, writing, r, 1);
        }
    }
}

/// Whether the `k`-th answer tells of a file that is no symbolic link and has one name.
pub open spec fn plain_file(r: Seq<FsReply>, k: int) -> bool {
    0 <= k < r.len() && (r[k] matches FsReply::Info(m) && !m.is_symlink && !shared(m))
}

/// The path that a call is given.
pub open spec fn given_path(input: Seq<char>) -> Seq<char> {
    str_field(input_value(input)->Ok_0, "path"@)->Ok_0
}

/// With a root, `read_file` gives out a file only where its path leads, and only after the
/// answer just before the bytes said that it is no symbolic link and has no second name.
pub proof fn law_read_refuses_links(root: Seq<char>, input: Seq<char>, r: Seq<FsReply>)
    requires
        read_call(Some(root), input, r) is Done,
    ensures
        place(Some(root), given_path(input), false, r) matches Place::At(full, k) && plain_file(
            r,
            k,
        ) && k + 1 < r.len() && r[k + 1] is Bytes,
{
    law_root_confines(root, given_path(input), false, r);
    lemma_place_stops(root, given_path(input), false, r);
}

/// With a root, `edit_file` changes a file only where its path leads, and only after the
/// answer just before the bytes said that it is no symbolic link and has no second name.
pub proof fn law_edit_refuses_links(
    root: Seq<char>,
    input: Seq<char>,
    r: Seq<FsReply>,
    path: Seq<char>,
    content: Seq<char>,
)
    requires
        edit_call(Some(root), input, r) == Did::Need(FsNeed::Write { path, content }),
    ensures
        place(Some(root), given_path(input), false, r) matches Place::At(full, k) && full == path
            && plain_file(r, k) && k + 1 < r.len() && r[k + 1] is Bytes,
{
    law_root_confines(root, given_path(input), false, r);
    lemma_place_stops(root, given_path(input), false, r);
}

/// With a root, `write_file` writes only where its path leads, and only after an answer
/// said that the file is no symbolic link and has no second name, or that it cannot be
/// looked at.
pub proof fn law_write_refuses_links(
    root: Seq<char>,
    input: Seq<char>,
    r: Seq<FsReply>,
    path: Seq<char>,
    content: Seq<char>,
)
    requires
        write_call(Some(root), input, r) == Did::Need(FsNeed::Write { path, content }),
    ensures
        place(Some(root), given_path(input), true, r) matches Place::At(full, k) && full == path
            && k < r.len() && (plain_file(r, k) || r[k] is Failed),
{
    law_root_confines(root, given_path(input), true, r);
    lemma_place_stops(root, given_path(input), true, r);
}

proof fn lemma_first_place(t: Seq<char>, p: Seq<char>, i: int)
    requires
        0 <= i <= t.len(),
        occurrences(t, p, i) > 0,
    ensures
        i <= first_place(t, p, i),
        occurs_at(t, first_place(t, p, i), p),
    decreases t.len() - i,
{
    if !occurs_at(t, i, p) {
        if i == t.len() {
            reveal_with_fuel(occurrences, 2);
        } else {
            lemma_first_place(t, p, i + 1);
        }
    }
}

proof fn lemma_no_place(t: Seq<char>, p: Seq<char>, i: int, k: int)
    requires
        0 <= i <= k,
        occurrences(t, p, i) == 0,
    ensures
        !occurs_at(t, k, p),
    decreases k - i,
{
    if i <= t.len() && i < k {
        lemma_no_place(t, p, i + 1, k);
    }
}

proof fn lemma_only_place(t: Seq<char>, p: Seq<char>, i: int, k: int)
    requires
        0 <= i <= t.len(),
        occurrences(t, p, i) == 1,
        i <= k,
        occurs_at(t, k, p),
    ensures
        k == first_place(t, p, i),
    decreases t.len() - i,
{
    if occurs_at(t, i, p) {
        if i < k {
            lemma_no_place(t, p, i + 1, k);
        }
    } else if i < t.len() {
        lemma_only_place(t, p, i + 1, k);
    }
}

/// An edit changes one place and nothing else: the old text stands there and nowhere else,
/// and the new file is the old one with that place exchanged for the new text.
pub proof fn law_edit_is_local(text: Seq<char>, old_text: Seq<char>, new_text: Seq<char>)
    requires
        occurrences(text, old_text, 0) == 1,
    ensures
        ({
            let z = first_place(text, old_text, 0);
            &&& 0 <= z <= text.len() - old_text.len()
            &&& forall|k: int| #[trigger] occurs_at(text, k, old_text) <==> k == z
            &&& text == text.take(z) + old_text + text.skip(z + old_text.len())
            &&& replaced(text, old_text, new_text) == text.take(z) + new_text + text.skip(
                z + old_text.len(),
            )
        }),
{
    lemma_first_place(text, old_text, 0);
    let z = first_place(text, old_text, 0);
    assert(text =~= text.take(z) + text.subrange(z, z + old_text.len()) + text.skip(
        z + old_text.len(),
    ));
    assert forall|k: int| #[trigger] occurs_at(text, k, old_text) implies k == z by {
        lemma_only_place(text, old_text, 0, k);
    }
}

/// Whether a place that did not lack an answer is the same as another.
spec fn same_place(a: Place, b: Place) -> bool {
    (a matches Place::Stop(d) && d is Need) || a == b
}

proof fn lemma_pass_is_kept(
    base: Seq<char>,
    path: Seq<char>,
    part: Seq<char>,
    cur: Seq<char>,
    writing: bool,
    leaf: bool,
    r: Seq<FsReply>,
    more: Seq<FsReply>,
    k: int,
)
    requires
        0 <= k,
    ensures
        ({
            let a = pass(base, path, part, cur, writing, leaf, r, k);
            &&& a == pass(base, path, part, cur, writing, leaf, r + more, k) || (a matches Err(
                d,
            ) && d is Need)
            &&& a matches Ok(n) ==> k < n
        }),
{
    assert forall|i: int| 0 <= i < r.len() implies #[trigger] (r + more)[i] == r[i] by {}
}

proof fn lemma_walk_is_kept(
    base: Seq<char>,
    path: Seq<char>,
    names: Seq<Seq<char>>,
    i: int,
    cur: Seq<char>,
    writing: bool,
    r: Seq<FsReply>,
    more: Seq<FsReply>,
    k: int,
)
    requires
        0 <= k,
    ensures
        same_place(
            walk(base, path, names, i, cur, writing, r, k),
            walk(base, path, names, i, cur, writing, r + more, k),
        ),
        walk(base, path, names, i, cur, writing, r, k) matches Place::At(_, n) ==> k <= n,
    decreases names.len() - i,
{
    if i < names.len() {
        let next = path_in(cur, names[i]);
        let leaf = i == names.len() - 1;
        lemma_pass_is_kept(base, path, names[i], next, writing, leaf, r, more, k);
        if let Ok(used) = pass(base, path, names[i], next, writing, leaf, r, k) {
            lemma_walk_is_kept(base, path, names, i + 1, next, writing, r, more, used);
        }
    }
}

proof fn lemma_place_is_kept(
    root: Option<Seq<char>>,
    path: Seq<char>,
    writing: bool,
    r: Seq<FsReply>,
    more: Seq<FsReply>,
)
    ensures
        same_place(place(root, path, writing, r), place(root, path, writing, r + more)),
        place(root, path, writing, r) matches Place::At(_, k) ==> 0 <= k,
{
    assert forall|i: int| 0 <= i < r.len() implies #[trigger] (r + more)[i] == r[i] by {}
    if r.len() > 0 {
        if let FsReply::Path(base) = r[0] {
            lemma_walk_is_kept(base@, path, parts(path), 0, base@, writing, r, more, 1);
        }
    }
}

/// A call that has ended stays as it ended: answers that it did not get to make no
/// difference.
pub proof fn law_the_end_is_kept(
    root: Option<Seq<char>>,
    input: Seq<char>,
    r: Seq<FsReply>,
    more: Seq<FsReply>,
)
    ensures
        read_call(root, input, r) is Need || read_call(root, input, r + more) == read_call(
            root,
            input,
            r,
        ),
        write_call(root, input, r) is Need || write_call(root, input, r + more) == write_call(
            root,
            input,
            r,
        ),
        edit_call(root, input, r) is Need || edit_call(root, input, r + more) == edit_call(
            root,
            input,
            r,
        ),
{
    assert forall|i: int| 0 <= i < r.len() implies #[trigger] (r + more)[i] == r[i] by {}
    if let Ok(v) = input_value(input) {
        if let Ok(path) = str_field(v, "path"@) {
            lemma_place_is_kept(root, path, false, r, more);
            lemma_place_is_kept(root, path, true, r, more);
        }
    }
}

/// A number that a call is given under a name, or another where it is given none.
pub open spec fn given_number(input: Seq<char>, key: Seq<char>, other: nat) -> nat {
    match parsed(encode_utf8(input)) {
        Some(v) => match member(v, key) {
            Some(Val::Num(n)) => match unsigned_value(n, usize::MAX as nat) {
                Some(k) => k,
                None => other,
            },
            _ => other,
        },
        None => other,
    }
}

/// A line of a file as it is shown: its number, a tab, the line and a newline; nothing where it
/// is not asked for.
pub open spec fn shown_line(all: Seq<Seq<char>>, start: nat, max: nat, i: int) -> Seq<char> {
    if start <= i + 1 < start + max {
        dec((i + 1) as nat) + "\t"@ + all[i] + "\n"@
    } else {
        Seq::empty()
    }
}

proof fn lemma_numbered(all: Seq<Seq<char>>, start: nat, max: nat, n: nat)
    requires
        n <= all.len(),
    ensures
        numbered(all, start, max, n) == Seq::new(
            n,
            |i: int| shown_line(all, start, max, i),
        ).flatten(),
        1 <= start ==> last_shown(start, max, n) == (if max > 0 && start <= n {
            if start + max - 1 < n {
                start + max - 1
            } else {
                n as int
            }
        } else {
            0
        }),
    decreases n,
{
    let f = |i: int| shown_line(all, start, max, i);
    if n > 0 {
        lemma_numbered(all, start, max, (n - 1) as nat);
        let before = Seq::new((n - 1) as nat, f);
        assert(Seq::new(n, f) =~= before.push(f(n - 1)));
        before.lemma_flatten_push(f(n - 1));
        let body = numbered(all, start, max, (n - 1) as nat);
        assert(body + dec(n) + "\t"@ + all[n - 1] + "\n"@ =~= body + (dec(n) + "\t"@ + all[n - 1]
            + "\n"@));
        assert(body + Seq::<char>::empty() =~= body);
    } else {
        assert(Seq::new(0, f).flatten() =~= Seq::empty());
    }
}

/// With a root or without, a read that is done shows exactly the lines asked for, in their
/// order: line `i` of the file is shown if and only if it is at or behind the offset (1 where
/// none is given or 0 is) and the limit (2000 where none is given) reaches it. If some lines
/// are shown and others follow them, a last line tells up to where. The file was readable text.
pub proof fn law_read_shows_the_lines_asked_for(
    root: Option<Seq<char>>,
    input: Seq<char>,
    r: Seq<FsReply>,
    out: Seq<char>,
)
    requires
        read_call(root, input, r) == Did::Done(out),
    ensures
        exists|k: int|
            0 <= k < r.len() && (#[trigger] r[k] matches FsReply::Bytes(b) && valid_utf8(b@) && {
                let all = lines(decode_utf8(b@));
                let offset = given_number(input, "offset"@, 1);
                let start: nat = if offset == 0 {
                    1
                } else {
                    offset
                };
                let max = given_number(input, "limit"@, 2000);
                let body = Seq::new(all.len(), |i: int| shown_line(all, start, max, i)).flatten();
                &&& forall|i: int| 0 <= i < b@.len() && i < 8192 ==> #[trigger] b@[i] != 0
                &&& out == (if max > 0 && start <= all.len() && start + max - 1 < all.len() {
                    body + "[truncated at line "@ + dec((start + max - 1) as nat) + "]\n"@
                } else {
                    body
                })
            }),
{
    lemma_done_is_read(root, input, r);
    let path = given_path(input);
    let k = place(root, path, false, r)->At_1;
    let j = if r[k]->Info_0.is_symlink {
        k + 2
    } else {
        k + 1
    };
    let b = r[j]->Bytes_0@;
    let all = lines(decode_utf8(b));
    let offset = given_number(input, "offset"@, 1);
    let start: nat = if offset == 0 {
        1
    } else {
        offset
    };
    let max = given_number(input, "limit"@, 2000);
    lemma_numbered(all, start, max, all.len());
    assert(r[j] is Bytes);
}

proof fn lemma_done_is_read(root: Option<Seq<char>>, input: Seq<char>, r: Seq<FsReply>)
    requires
        read_call(root, input, r) is Done,
    ensures
        place(root, given_path(input), false, r) matches Place::At(full, k) && 0 <= k,
{
    if let Some(dir) = root {
        lemma_place_stops(dir, given_path(input), false, r);
    }
    lemma_place_is_kept(root, given_path(input), false, r, r);
}

/// A file of more than 1 MiB is not read, nor is one shown that holds a NUL among its first
/// bytes or is not UTF-8.
pub proof fn law_unreadable_files_are_refused(
    root: Option<Seq<char>>,
    input: Seq<char>,
    r: Seq<FsReply>,
    full: Seq<char>,
    k: int,
)
    requires
        input_value(input) matches Ok(v) && str_field(v, "path"@) is Ok && num_field(v, "offset"@)
            is Ok && num_field(v, "limit"@) is Ok,
        place(root, given_path(input), false, r) == Place::At(full, k),
        0 <= k < r.len(),
        r[k] matches FsReply::Info(m) && !m.is_symlink && !(m.is_file && m.links > 1),
    ensures
        r[k] matches FsReply::Info(m) && (m.len > 1048576 ==> read_call(root, input, r) is Failed),
        r[k] matches FsReply::Info(m) && (m.len <= 1048576 && k + 1 == r.len() ==> read_call(
            root,
            input,
            r,
        ) == Did::Need(FsNeed::Read(full))),
        k + 1 < r.len() ==> (r[k + 1] matches FsReply::Bytes(b) ==> (!valid_utf8(b@) || (exists|
            i: int,
        |
            0 <= i < b@.len() && i < 8192 && #[trigger] b@[i] == 0) ==> read_call(root, input, r) is
            Failed)),
{
}

/// What is written is the content that the call was given; without a root it is written to the
/// path that the call was given. What is said of it tells the number of its bytes and where it
/// was written.
pub proof fn law_write_writes_the_content(
    root: Option<Seq<char>>,
    input: Seq<char>,
    r: Seq<FsReply>,
)
    ensures
        write_call(root, input, r) matches Did::Need(FsNeed::Write { path, content }) ==> (parsed(
            encode_utf8(input),
        ) matches Some(v) && member(v, "content"@) == Some(Val::Str(content)) && (root is None
            ==> member(v, "path"@) == Some(Val::Str(path)))),
        write_call(root, input, r) matches Did::Done(said) ==> (parsed(encode_utf8(input)) matches Some(
            v,
        ) && (member(v, "content"@) matches Some(Val::Str(content)) && exists|full: Seq<char>| #[trigger]
            wrote_it(r, said, content, full) && (root is None ==> member(v, "path"@) == Some(
            Val::Str(full),
        )))),
        !(write_call(root, input, r) matches Did::Need(FsNeed::Read(_))),
{
    if let Some(dir) = root {
        lemma_place_stops(dir, given_path(input), true, r);
    }
    lemma_place_is_kept(root, given_path(input), true, r, r);
    if let Did::Done(said) = write_call(root, input, r) {
        let v = parsed(encode_utf8(input))->0;
        let content = member(v, "content"@)->0->Str_0;
        let full = place(root, given_path(input), true, r)->At_0;
        let k = place(root, given_path(input), true, r)->At_1;
        let j = if root is Some {
            k + 1
        } else {
            k
        };
        assert(r[j] is Done);
        assert(wrote_it(r, said, content, full));
    }
}

/// Whether something was done, and what is said tells that the content was written to a path.
pub open spec fn wrote_it(
    r: Seq<FsReply>,
    said: Seq<char>,
    content: Seq<char>,
    full: Seq<char>,
) -> bool {
    &&& exists|k: int| 0 <= k < r.len() && #[trigger] r[k] is Done
    &&& said == "wrote "@ + dec(encode_utf8(content).len()) + " bytes to "@ + full
}

/// What an edit writes is what was read with the old text, which stands there once, exchanged
/// for the new one.
pub proof fn law_edit_exchanges_the_text(
    root: Option<Seq<char>>,
    input: Seq<char>,
    r: Seq<FsReply>,
    path: Seq<char>,
    content: Seq<char>,
)
    requires
        edit_call(root, input, r) == Did::Need(FsNeed::Write { path, content }),
    ensures
        root is None ==> (parsed(encode_utf8(input)) matches Some(v) && member(v, "path"@) == Some(
            Val::Str(path),
        )),
        exists|k: int, z: int| #[trigger] edited_at(input, r, content, k, z),
{
    if let Some(dir) = root {
        lemma_place_stops(dir, given_path(input), false, r);
    }
    lemma_place_is_kept(root, given_path(input), false, r, r);
    let v = parsed(encode_utf8(input))->0;
    let old_text = member(v, "old_text"@)->0->Str_0;
    let new_text = member(v, "new_text"@)->0->Str_0;
    let k = place(root, given_path(input), false, r)->At_1;
    let j = if root is Some {
        k + 1
    } else {
        k
    };
    let text = decode_utf8(r[j]->Bytes_0@);
    law_edit_is_local(text, old_text, new_text);
    let z = first_place(text, old_text, 0);
    assert(forall|i: int| #[trigger] text.subrange(i, i + old_text.len()) == old_text && 0 <= i <= text.len()
        - old_text.len() ==> occurs_at(text, i, old_text));
    assert(occurs_at(text, z, old_text));
    assert(edited_at(input, r, content, j, z));
}

/// Whether the `k`-th answer is a text that holds the given old text at `z` and nowhere else, and
/// `content` is that text with the given new one there.
pub open spec fn edited_at(
    input: Seq<char>,
    r: Seq<FsReply>,
    content: Seq<char>,
    k: int,
    z: int,
) -> bool {
    &&& 0 <= k < r.len()
    &&& r[k] matches FsReply::Bytes(b) && valid_utf8(b@) && (parsed(encode_utf8(input)) matches Some(v)
        && (member(v, "old_text"@) matches Some(Val::Str(o)) && (member(v, "new_text"@) matches Some(
        Val::Str(n),
    ) && {
        let text = decode_utf8(b@);
        &&& 0 <= z <= text.len() - o.len()
        &&& text.subrange(z, z + o.len()) == o
        &&& forall|i: int|
            0 <= i <= text.len() - o.len() && #[trigger] text.subrange(i, i + o.len()) == o ==> i == z
        &&& content == text.take(z) + n + text.skip(z + o.len())
    })))
}

/// With a root each component of a path is looked at before it is passed, from the first: what it
/// is, and where it leads. A symbolic link is refused, and so is what leads out of the root. Writing
/// passes a last component that is missing, and makes one that is missing before.
pub proof fn law_components_are_looked_at(
    base: Seq<char>,
    path: Seq<char>,
    names: Seq<Seq<char>>,
    i: int,
    cur: Seq<char>,
    writing: bool,
    r: Seq<FsReply>,
    k: int,
)
    requires
        0 <= i < names.len(),
        0 <= k <= r.len(),
    ensures
        ({
            let next = path_in(cur, names[i]);
            let at = walk(base, path, names, i, cur, writing, r, k);
            let leaf = i == names.len() - 1;
            &&& k == r.len() ==> at == Place::Stop(Did::Need(FsNeed::LinkInfo(next)))
            &&& k < r.len() ==> (r[k] matches FsReply::Info(m) ==> {
                &&& m.is_symlink ==> (at matches Place::Stop(d) && d is Failed)
                &&& !m.is_symlink && k + 1 == r.len() ==> at == Place::Stop(
                    Did::Need(FsNeed::Canonicalize(next)),
                )
                &&& !m.is_symlink && k + 1 < r.len() ==> (r[k + 1] matches FsReply::Path(p)
                    ==> if lies_in(p@, base) {
                    at == walk(base, path, names, i + 1, next, writing, r, k + 2)
                } else {
                    at matches Place::Stop(d) && d is Failed
                })
            })
            &&& k < r.len() ==> (r[k] matches FsReply::Failed { text, not_found } ==> {
                &&& !writing || !not_found ==> at == Place::Stop(Did::Failed(text@))
                &&& writing && not_found && leaf ==> at == Place::At(next, k + 1)
                &&& writing && not_found && !leaf && k + 1 == r.len() ==> at == Place::Stop(
                    Did::Need(FsNeed::MakeDir(next)),
                )
            })
            &&& walk(base, path, names, names.len() as int, cur, writing, r, k) == Place::At(cur, k)
        }),
{
    reveal_with_fuel(walk, 2);
}

/// A path with `..` is refused everywhere. Under a root an absolute path is refused too, and the
/// root is resolved first; without one a read asks for nothing, and a write makes the directory
/// above.
pub proof fn law_where_a_path_leads(
    root: Seq<char>,
    path: Seq<char>,
    writing: bool,
    r: Seq<FsReply>,
)
    ensures
        parts(path).contains(seq!['.', '.']) ==> (place(Some(root), path, writing, r) matches Place::Stop(
            d,
        ) && d is Failed) && (place(None, path, writing, r) matches Place::Stop(d2) && d2 is Failed),
        path.len() > 0 && path[0] == '/' ==> (place(Some(root), path, writing, r) matches Place::Stop(d)
            && d is Failed),
        !parts(path).contains(seq!['.', '.']) && !stays(path) && !absolute(path) && r.len() == 0
            ==> place(Some(root), path, writing, r) == Place::Stop(
            Did::Need(FsNeed::Canonicalize(root)),
        ),
        !parts(path).contains(seq!['.', '.']) ==> place(None, path, false, r) == Place::At(path, 0),
        !parts(path).contains(seq!['.', '.']) && r.len() == 0 ==> (parent(path) matches Some(dir) ==> (
        dir.len() > 0 ==> place(None, path, true, r) == Place::Stop(
            Did::Need(FsNeed::MakeDirs(dir)),
        ))),
{
}

/// A read succeeds: where the path leads to a file that is small enough, and the bytes that are then
/// read are text without a NUL among the first, it is done. Without a root a symbolic link is
/// followed: what counts is the file behind it.
pub proof fn law_read_succeeds(
    root: Option<Seq<char>>,
    input: Seq<char>,
    r: Seq<FsReply>,
    full: Seq<char>,
    k: int,
)
    requires
        input_value(input) matches Ok(v) && str_field(v, "path"@) is Ok && num_field(v, "offset"@)
            is Ok && num_field(v, "limit"@) is Ok,
        place(root, given_path(input), false, r) == Place::At(full, k),
        0 <= k <= r.len(),
    ensures
        k == r.len() ==> read_call(root, input, r) == Did::Need(FsNeed::LinkInfo(full)),
        k + 1 < r.len() ==> (r[k] matches FsReply::Info(m) ==> (r[k + 1] matches FsReply::Bytes(b) ==> (
        !m.is_symlink && !(m.is_file && m.links > 1) && m.len <= 1048576 && valid_utf8(b@) && (forall|
            i: int,
        |
            0 <= i < b@.len() && i < 8192 ==> #[trigger] b@[i] != 0) ==> read_call(root, input, r)
            is Done))),
        root is None && k + 1 == r.len() ==> (r[k] matches FsReply::Info(m) ==> (m.is_symlink
            ==> read_call(root, input, r) == Did::Need(FsNeed::Info(full)))),
        root is None && k + 1 < r.len() ==> (r[k] matches FsReply::Info(m) ==> (r[k + 1] matches FsReply::Info(
            t,
        ) ==> (m.is_symlink ==> {
            &&& t.len > 1048576 ==> read_call(root, input, r) is Failed
            &&& t.len <= 1048576 && k + 2 == r.len() ==> read_call(root, input, r) == Did::Need(
                FsNeed::Read(full),
            )
        }))),
{
}

/// A write succeeds: where the path leads somewhere, the content is written there and nothing else is
/// asked for but, with a root, what is there now.
pub proof fn law_write_succeeds(
    root: Option<Seq<char>>,
    input: Seq<char>,
    r: Seq<FsReply>,
    full: Seq<char>,
    k: int,
    path: Seq<char>,
    content: Seq<char>,
)
    requires
        parsed(encode_utf8(input)) matches Some(v) && member(v, "path"@) == Some(Val::Str(path)) && member(
            v,
            "content"@,
        ) == Some(Val::Str(content)),
        place(root, path, true, r) == Place::At(full, k),
        0 <= k <= r.len(),
    ensures
        ({
            let did = write_call(root, input, r);
            let said = "wrote "@ + dec(encode_utf8(content).len()) + " bytes to "@ + full;
            &&& root is None && k == r.len() ==> did == Did::Need(FsNeed::Write { path: full, content })
            &&& root is None && k < r.len() && r[k] is Done ==> did == Did::Done(said)
            &&& root is Some && k == r.len() ==> did == Did::Need(FsNeed::LinkInfo(full))
            &&& root is Some && k + 1 == r.len() && (r[k] is Failed || (r[k] matches FsReply::Info(m)
                && !m.is_symlink && !(m.is_file && m.links > 1))) ==> did == Did::Need(
                FsNeed::Write { path: full, content },
            )
            &&& root is Some && k + 1 < r.len() && r[k] is Failed && r[k + 1] is Done ==> did
                == Did::Done(said)
        }),
{
}

/// An edit succeeds if and only if the old text stands in the file once: then the file is written
/// with the new text in its place, and otherwise the edit fails.
pub proof fn law_edit_succeeds(
    input: Seq<char>,
    r: Seq<FsReply>,
    b: Vec<u8>,
    path: Seq<char>,
    old_text: Seq<char>,
    new_text: Seq<char>,
    z: int,
)
    requires
        parsed(encode_utf8(input)) matches Some(v) && member(v, "path"@) == Some(Val::Str(path)) && member(
            v,
            "old_text"@,
        ) == Some(Val::Str(old_text)) && member(v, "new_text"@) == Some(Val::Str(new_text)),
        place(None, path, false, r) == Place::At(path, 0),
        r.len() > 0,
        r[0] == FsReply::Bytes(b),
        valid_utf8(b@),
    ensures
        ({
            let text = decode_utf8(b@);
            let did = edit_call(None, input, r);
            let n = old_text.len() as int;
            &&& 0 <= z <= text.len() - n && text.subrange(z, z + n) == old_text && (forall|i: int|
                0 <= i <= text.len() - n && #[trigger] text.subrange(i, i + n) == old_text ==> i == z)
                && r.len() == 1 ==> did == Did::Need(
                FsNeed::Write { path, content: text.take(z) + new_text + text.skip(z + n) },
            )
            &&& (forall|i: int|
                0 <= i <= text.len() - n ==> #[trigger] text.subrange(i, i + n) != old_text) ==> did
                is Failed
        }),
{
    let text = decode_utf8(b@);
    let n = old_text.len() as int;
    if 0 <= z <= text.len() - n && text.subrange(z, z + n) == old_text && (forall|i: int|
        0 <= i <= text.len() - n && #[trigger] text.subrange(i, i + n) == old_text ==> i == z) {
        assert(occurs_at(text, z, old_text));
        assert forall|i: int| #[trigger] occurs_at(text, i, old_text) implies i == z by {
            assert(text.subrange(i, i + n) == old_text);
        }
        lemma_one_place(text, old_text, 0, z);
    }
    if forall|i: int| 0 <= i <= text.len() - n ==> #[trigger] text.subrange(i, i + n) != old_text {
        assert forall|i: int| !(#[trigger] occurs_at(text, i, old_text)) by {
            if occurs_at(text, i, old_text) {
                assert(text.subrange(i, i + n) == old_text);
            }
        }
        lemma_nowhere(text, old_text, 0);
    }
}

proof fn lemma_nowhere(t: Seq<char>, p: Seq<char>, i: int)
    requires
        0 <= i <= t.len() + 1,
        forall|k: int| i <= k ==> !(#[trigger] occurs_at(t, k, p)),
    ensures
        occurrences(t, p, i) == 0,
    decreases t.len() + 1 - i,
{
    if i <= t.len() {
        assert(!occurs_at(t, i, p));
        lemma_nowhere(t, p, i + 1);
    }
}

proof fn lemma_one_place(t: Seq<char>, p: Seq<char>, i: int, z: int)
    requires
        0 <= i <= z <= t.len(),
        occurs_at(t, z, p),
        forall|k: int| #[trigger] occurs_at(t, k, p) ==> k == z,
    ensures
        occurrences(t, p, i) == 1,
        first_place(t, p, i) == z,
    decreases z - i,
{
    if i < z {
        assert(!occurs_at(t, i, p));
        lemma_one_place(t, p, i + 1, z);
    } else {
        lemma_nowhere(t, p, z + 1);
    }
}

/// An input that is no JSON text, that lacks a text which the call needs, or that gives a line number
/// which is none, fails the call, whatever the answers.
pub proof fn law_bad_inputs_fail(root: Option<Seq<char>>, input: Seq<char>, r: Seq<FsReply>)
    ensures
        parsed(encode_utf8(input)) is None ==> read_call(root, input, r) is Failed && write_call(
            root,
            input,
            r,
        ) is Failed && edit_call(root, input, r) is Failed,
        parsed(encode_utf8(input)) matches Some(v) ==> {
            let is_text = |key: Seq<char>| member(v, key) matches Some(Val::Str(_));
            let is_line = |key: Seq<char>|
                match member(v, key) {
                    None => true,
                    Some(Val::Null) => true,
                    Some(Val::Num(n)) => unsigned_value(n, usize::MAX as nat) is Some,
                    _ => false,
                };
            &&& !is_text("path"@) || !is_line("offset"@) || !is_line("limit"@) ==> read_call(
                root,
                input,
                r,
            ) is Failed
            &&& !is_text("path"@) || !is_text("content"@) ==> write_call(root, input, r) is Failed
            &&& !is_text("path"@) || !is_text("old_text"@) || !is_text("new_text"@) ==> edit_call(
                root,
                input,
                r,
            ) is Failed
        },
{
}

} // verus!

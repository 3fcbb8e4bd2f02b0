//! What the commands do, in which order, and how they exit.
//!
//! A command is a function of the answers so far: it is over, or it names the next thing to
//! do. An answer of another kind than was asked for is no answer.

use vstd::prelude::*;
use vstd::utf8::*;

use super::{
    body_prompt, build_model, common, mcp_command, model_name, no_options, no_run_options,
    parse_common, parse_prompt, parse_run, parse_serve, parse_strategy, plan_of, printed,
    prompt_source, remark, run_options, serve_options, words, Common, CommonOpts, ModelChoice,
    ModelEnv, Plan, PromptSource, Run, Strategy,
};
use crate::server::{event_frame, EventSink, HandlerError};
use crate::table::Table;
use crate::text::{dec, maybe, push_dec, quote, quote_path, quoted, quoted_path, spaced, texts};

verus! {

/// What the environment says.
#[derive(Debug)]
pub struct CliEnv {
    pub sessions_dir: Option<String>,
    pub models: ModelEnv,
}

/// How a run ended, for the strategy.
#[derive(Debug)]
pub enum RunStatus {
    Success,
    Failure(String),
}

/// Something to do for a command.
#[derive(Debug)]
pub enum CliAction {
    /// Load a skill and fill in its arguments.
    LoadSkill { name: String, args: Table<String> },
    /// Start a tool server.
    StartMcp(Vec<String>),
    /// Open the directory for sessions.
    OpenStore(String),
    /// Find out the working directory.
    CurrentDir,
    /// Prepare a workspace.
    Prepare { strategy: Strategy, root: String },
    /// Go to a directory.
    ChangeDir(String),
    /// Send the prompt; file tools stay in the directory, if one is given.
    Prompt { text: String, root: Option<String>, model: ModelChoice },
    /// Print the text, and the remark to stderr.
    Report { out: Option<String>, err: Option<String> },
    /// Finish with the workspace.
    Finish(RunStatus),
    /// Listen on an address.
    Serve { addr: String, model: ModelChoice },
}

/// Mathematical form of the choice of a model.
pub struct Choice {
    pub openai: bool,
    pub key: Seq<char>,
    pub name: Seq<char>,
    pub base_url: Option<Seq<char>>,
}

impl View for ModelChoice {
    type V = Choice;

    open spec fn view(&self) -> Choice {
        Choice {
            openai: self.openai,
            key: self.key@,
            name: self.name@,
            base_url: maybe(self.base_url),
        }
    }
}

/// Mathematical form of a `CliAction`.
pub enum CliNeed {
    LoadSkill { name: Seq<char>, args: Map<Seq<char>, Seq<char>> },
    StartMcp(Seq<Seq<char>>),
    OpenStore(Seq<char>),
    CurrentDir,
    Prepare { strategy: Plan, root: Seq<char> },
    ChangeDir(Seq<char>),
    Prompt { text: Seq<char>, root: Option<Seq<char>>, model: Choice },
    Report { out: Option<Seq<char>>, err: Option<Seq<char>> },
    /// The reason, if the run failed.
    Finish(Option<Seq<char>>),
    Serve { addr: Seq<char>, model: Choice },
}

impl View for CliAction {
    type V = CliNeed;

    open spec fn view(&self) -> CliNeed {
        match *self {
            CliAction::LoadSkill { name, args } => CliNeed::LoadSkill {
                name: name@,
                args: args@.map_values(|s: String| s@),
            },
            CliAction::StartMcp(w) => CliNeed::StartMcp(texts(w@)),
            CliAction::OpenStore(d) => CliNeed::OpenStore(d@),
            CliAction::CurrentDir => CliNeed::CurrentDir,
            CliAction::Prepare { strategy, root } => CliNeed::Prepare {
                strategy: strategy@,
                root: root@,
            },
            CliAction::ChangeDir(d) => CliNeed::ChangeDir(d@),
            CliAction::Prompt { text, root, model } => CliNeed::Prompt {
                text: text@,
                root: maybe(root),
                model: model@,
            },
            CliAction::Report { out, err } => CliNeed::Report { out: maybe(out), err: maybe(err) },
            CliAction::Finish(RunStatus::Success) => CliNeed::Finish(None),
            CliAction::Finish(RunStatus::Failure(m)) => CliNeed::Finish(Some(m@)),
            CliAction::Serve { addr, model } => CliNeed::Serve { addr: addr@, model: model@ },
        }
    }
}

/// The answer to a `CliAction`. A failure comes as its text.
#[derive(Debug)]
pub enum CliReply {
    /// The prompt that a skill made.
    Skill(Result<String, String>),
    /// It was done.
    Done(Result<(), String>),
    /// A directory.
    Dir(Result<String, String>),
    /// The prompt was sent, and this came of it.
    Prompted(Prompted),
}

/// What came of a prompt.
#[derive(Debug)]
pub enum Prompted {
    /// It could not be sent.
    SendFailed(String),
    Answer { text: String, completed: bool, turns: usize },
    Failed(String),
    /// The session ended without an answer.
    Dropped,
}

/// How a command exits: its code, what it prints to stderr, and whether it prints how it is
/// used.
#[derive(Debug)]
pub struct CliExit {
    pub code: u8,
    pub err: Option<String>,
    pub usage: bool,
}

/// Where a command stands.
#[derive(Debug)]
pub enum CliStep {
    Need(CliAction),
    Exit(CliExit),
}

/// Mathematical form of a `CliStep`.
pub enum CliState {
    Need(CliNeed),
    Exit { code: u8, err: Option<Seq<char>>, usage: bool },
}

impl View for CliStep {
    type V = CliState;

    open spec fn view(&self) -> CliState {
        match *self {
            CliStep::Need(a) => CliState::Need(a@),
            CliStep::Exit(e) => CliState::Exit { code: e.code, err: maybe(e.err), usage: e.usage },
        }
    }
}

/// A part of a command: it stops the command, or goes on with a value and the number of
/// answers used up.
pub enum Part<T> {
    Stop(CliState),
    Go(T, int),
}

pub open spec fn exit_with(code: u8, m: Seq<char>) -> CliState {
    CliState::Exit { code, err: Some(m), usage: false }
}

fn exit(code: u8, m: String) -> (res: CliStep)
    ensures
        res@ == exit_with(code, m@),
{
    CliStep::Exit(CliExit { code, err: Some(m), usage: false })
}

fn exit2(code: u8, a: &str, b: &str) -> (res: CliStep)
    ensures
        res@ == exit_with(code, a@ + b@),
{
    let mut m = a.to_owned();
    m.push_str(b);
    exit(code, m)
}

// ---------------------------------------------------------------------------------
// Parts
// ---------------------------------------------------------------------------------
/// The model that is chosen, or the exit for want of its key.
pub open spec fn chosen(o: Common, env: ModelEnv) -> Result<Choice, CliState> {
    let key = if o.openai {
        env.openai_key
    } else {
        env.anthropic_key
    };
    match key {
        None => Err(
            exit_with(
                2,
                if o.openai {
                    "OPENAI_API_KEY required"@
                } else {
                    "ANTHROPIC_API_KEY required"@
                },
            ),
        ),
        Some(k) => Ok(
            Choice {
                openai: o.openai,
                key: k@,
                name: model_name(o, env),
                base_url: if o.openai {
                    maybe(env.openai_base_url)
                } else {
                    None
                },
            },
        ),
    }
}

fn choose_model(o: &CommonOpts, env: &ModelEnv) -> (res: Result<ModelChoice, CliStep>)
    ensures
        match chosen(o@, *env) {
            Ok(c) => res matches Ok(m) && m@ == c,
            Err(s) => res matches Err(x) && x@ == s,
        },
{
    match build_model(o, env) {
        Ok(m) => Ok(m),
        Err(e) => Err(exit(2, e)),
    }
}

/// Waits for something to be done, and exits with code 1 and a text if it failed.
pub open spec fn done(need: CliNeed, what: Seq<char>, r: Seq<CliReply>, k: int) -> Part<()> {
    if k >= r.len() {
        Part::Stop(CliState::Need(need))
    } else {
        match r[k] {
            CliReply::Done(Ok(_)) => Part::Go((), k + 1),
            CliReply::Done(Err(m)) => Part::Stop(exit_with(1, what + m@)),
            _ => Part::Stop(CliState::Need(need)),
        }
    }
}

fn await_done(action: CliAction, what: &str, r: &Vec<CliReply>, k: usize) -> (res: Result<
    usize,
    CliStep,
>)
    ensures
        match done(action@, what@, r@, k as int) {
            Part::Go(_, n) => res matches Ok(m) && m == n && m <= r@.len(),
            Part::Stop(s) => res matches Err(x) && x@ == s,
        },
{
    if k >= r.len() {
        return Err(CliStep::Need(action));
    }
    match &r[k] {
        CliReply::Done(Ok(_)) => Ok(k + 1),
        CliReply::Done(Err(m)) => Err(exit2(1, what, m.as_str())),
        _ => Err(CliStep::Need(action)),
    }
}

/// Waits for a directory, and exits with code 1 and a text if there is none.
pub open spec fn dir(need: CliNeed, what: Seq<char>, r: Seq<CliReply>, k: int) -> Part<Seq<char>> {
    if k >= r.len() {
        Part::Stop(CliState::Need(need))
    } else {
        match r[k] {
            CliReply::Dir(Ok(d)) => Part::Go(d@, k + 1),
            CliReply::Dir(Err(m)) => Part::Stop(exit_with(1, what + m@)),
            _ => Part::Stop(CliState::Need(need)),
        }
    }
}

fn await_dir(action: CliAction, what: &str, r: &Vec<CliReply>, k: usize) -> (res: Result<
    (String, usize),
    CliStep,
>)
    ensures
        match dir(action@, what@, r@, k as int) {
            Part::Go(d, n) => res matches Ok(m) && m.0@ == d && m.1 == n && m.1 <= r@.len(),
            Part::Stop(s) => res matches Err(x) && x@ == s,
        },
{
    if k >= r.len() {
        return Err(CliStep::Need(action));
    }
    match &r[k] {
        CliReply::Dir(Ok(d)) => Ok((d.clone(), k + 1)),
        CliReply::Dir(Err(m)) => Err(exit2(1, what, m.as_str())),
        _ => Err(CliStep::Need(action)),
    }
}

/// Starts the tool servers from the `i`-th on, one after the other.
pub open spec fn servers(specs: Seq<Seq<char>>, i: int, r: Seq<CliReply>, k: int) -> Part<()>
    decreases specs.len() - i,
{
    if i < 0 || i >= specs.len() {
        Part::Go((), k)
    } else {
        let w = words(specs[i], 0);
        if w.len() == 0 {
            Part::Stop(exit_with(1, "empty --mcp value"@))
        } else {
            match done(CliNeed::StartMcp(w), "mcp "@ + w[0] + ": "@, r, k) {
                Part::Stop(s) => Part::Stop(s),
                Part::Go(_, n) => servers(specs, i + 1, r, n),
            }
        }
    }
}

fn connect_mcp(specs: &Vec<String>, r: &Vec<CliReply>, k: usize) -> (res: Result<usize, CliStep>)
    requires
        k <= r@.len(),
    ensures
        match servers(texts(specs@), 0, r@, k as int) {
            Part::Go(_, n) => res matches Ok(m) && m == n && m <= r@.len(),
            Part::Stop(s) => res matches Err(x) && x@ == s,
        },
{
    let mut at: usize = k;
    let mut i: usize = 0;
    let ghost t = texts(specs@);
    let ghost goal = servers(t, 0, r@, k as int);
    while i < specs.len()
        invariant
            i <= specs@.len(),
            at <= r@.len(),
            t == texts(specs@),
            goal == servers(t, 0, r@, k as int),
            goal == servers(t, i as int, r@, at as int),
        decreases specs.len() - i,
    {
        proof {
            assert(t[i as int] == specs@[i as int]@);
        }
        let w = match mcp_command(specs[i].as_str()) {
            Ok(w) => w,
            Err(e) => {
                return Err(exit(1, e));
            },
        };
        let mut what = "mcp ".to_owned();
        what.push_str(w[0].as_str());
        what.push_str(": ");
        proof {
            assert(texts(w@)[0] == w@[0]@);
        }
        match await_done(CliAction::StartMcp(w), what.as_str(), r, at) {
            Ok(n) => {
                at = n;
            },
            Err(s) => {
                return Err(s);
            },
        }
        i += 1;
    }
    Ok(at)
}

/// Opens the directory for sessions, where one is given.
pub open spec fn store(sessions: Option<Seq<char>>, r: Seq<CliReply>, k: int) -> Part<()> {
    match sessions {
        None => Part::Go((), k),
        Some(d) => done(
            CliNeed::OpenStore(d),
            "sessions dir "@ + quoted_path(d) + ": "@,
            r,
            k,
        ),
    }
}

fn open_store(sessions: &Option<String>, r: &Vec<CliReply>, k: usize) -> (res: Result<
    usize,
    CliStep,
>)
    requires
        k <= r@.len(),
    ensures
        match store(maybe(*sessions), r@, k as int) {
            Part::Go(_, n) => res matches Ok(m) && m == n && m <= r@.len(),
            Part::Stop(s) => res matches Err(x) && x@ == s,
        },
{
    match sessions {
        None => Ok(k),
        Some(d) => {
            let mut what = "sessions dir ".to_owned();
            what.push_str(quote_path(d.as_str()).as_str());
            what.push_str(": ");
            await_done(CliAction::OpenStore(d.clone()), what.as_str(), r, k)
        },
    }
}

// ---------------------------------------------------------------------------------
// agent run
// ---------------------------------------------------------------------------------
/// The prompt: a skill makes it, or it stands on the command line.
pub open spec fn prompt(o: Run, r: Seq<CliReply>) -> Part<Seq<char>> {
    match o.skill {
        Some(name) => if r.len() == 0 {
            Part::Stop(CliState::Need(CliNeed::LoadSkill { name, args: o.args }))
        } else {
            match r[0] {
                CliReply::Skill(Ok(p)) => Part::Go(p@, 1),
                CliReply::Skill(Err(e)) => Part::Stop(
                    exit_with(2, "skill "@ + name + ": "@ + e@),
                ),
                _ => Part::Stop(CliState::Need(CliNeed::LoadSkill { name, args: o.args })),
            }
        },
        None => {
            let p = spaced(o.words, o.words.len() as int);
            if p.len() > 0 {
                Part::Go(p, 0)
            } else {
                Part::Stop(CliState::Exit { code: 2, err: None, usage: true })
            }
        },
    }
}

/// The workspace: none without a strategy, else its directory, which becomes the working
/// directory.
pub open spec fn workspace(p: Option<Plan>, r: Seq<CliReply>, k: int) -> Part<Option<Seq<char>>> {
    match p {
        None => Part::Go(None, k),
        Some(strategy) => match dir(CliNeed::CurrentDir, "cwd: "@, r, k) {
            Part::Stop(s) => Part::Stop(s),
            Part::Go(root, a) => match dir(
                CliNeed::Prepare { strategy, root },
                "branch strategy prepare: "@,
                r,
                a,
            ) {
                Part::Stop(s) => Part::Stop(s),
                Part::Go(path, b) => match done(
                    CliNeed::ChangeDir(path),
                    "cd "@ + quoted_path(path) + ": "@,
                    r,
                    b,
                ) {
                    Part::Stop(s) => Part::Stop(s),
                    Part::Go(_, c) => Part::Go(Some(path), c),
                },
            },
        },
    }
}

/// What is reported of a prompt, and how the run ended: its code, and the reason if it
/// failed.
pub open spec fn outcome(p: Prompted) -> (Option<Seq<char>>, Option<Seq<char>>, u8, Option<Seq<char>>) {
    match p {
        Prompted::SendFailed(e) => (None, Some("send failed: "@ + e@), 1, Some(e@)),
        Prompted::Answer { text, completed, turns } => (
            Some(
                if text@.len() > 0 && text@.last() == '\n' {
                    text@
                } else {
                    text@.push('\n')
                },
            ),
            if completed {
                Some("[completion signal fired after "@ + dec(turns as nat) + " turn(s)]"@)
            } else if turns > 1 {
                Some("["@ + dec(turns as nat) + " turn(s)]"@)
            } else {
                None
            },
            0,
            None,
        ),
        Prompted::Failed(e) => (None, Some("session error: "@ + e@), 1, Some(e@)),
        Prompted::Dropped => (
            None,
            Some("session dropped reply channel"@),
            1,
            Some("session dropped reply channel"@),
        ),
    }
}

/// After the prompt: what came of it is reported, and the workspace is finished with. That
/// finishing failed is told, unless the prompt could not even be sent.
pub open spec fn wind_up(p: Prompted, rooted: bool, r: Seq<CliReply>, k: int) -> CliState {
    let (out, err, code, why) = outcome(p);
    let quiet = CliState::Exit { code, err: None, usage: false };
    if k >= r.len() || !(r[k] is Done) {
        CliState::Need(CliNeed::Report { out, err })
    } else if !rooted {
        quiet
    } else if k + 1 >= r.len() {
        CliState::Need(CliNeed::Finish(why))
    } else {
        match r[k + 1] {
            CliReply::Done(Ok(_)) => quiet,
            CliReply::Done(Err(m)) => if p is SendFailed {
                quiet
            } else {
                CliState::Exit {
                    code,
                    err: Some("branch strategy finish: "@ + m@),
                    usage: false,
                }
            },
            _ => CliState::Need(CliNeed::Finish(why)),
        }
    }
}

/// The strategy that an option names.
pub open spec fn strategy_of(s: Option<Seq<char>>) -> Result<Option<Plan>, Seq<char>> {
    match s {
        None => Ok(None),
        Some(x) => match plan_of(x) {
            Ok(p) => Ok(Some(p)),
            Err(m) => Err(m),
        },
    }
}

/// The run, once the options are read.
pub open spec fn run_with(
    c: Common,
    o: Run,
    plan: Option<Plan>,
    model: Choice,
    r: Seq<CliReply>,
) -> CliState {
    match prompt(o, r) {
        Part::Stop(s) => s,
        Part::Go(text, a) => match servers(c.mcp, 0, r, a) {
            Part::Stop(s) => s,
            Part::Go(_, b) => match store(c.sessions, r, b) {
                Part::Stop(s) => s,
                Part::Go(_, d) => match workspace(plan, r, d) {
                    Part::Stop(s) => s,
                    Part::Go(root, e) => if e >= r.len() {
                        CliState::Need(CliNeed::Prompt { text, root, model })
                    } else {
                        match r[e] {
                            CliReply::Prompted(p) => wind_up(p, root is Some, r, e + 1),
                            _ => CliState::Need(CliNeed::Prompt { text, root, model }),
                        }
                    },
                },
            },
        },
    }
}

/// `agent run`.
pub open spec fn run_state(args: Seq<Seq<char>>, env: CliEnv, r: Seq<CliReply>) -> CliState {
    let (c, rest) = common(args, 0, no_options(maybe(env.sessions_dir)));
    match run_options(rest, 0, no_run_options()) {
        Err(m) => exit_with(2, m),
        Ok(o) => match strategy_of(o.strategy) {
            Err(m) => exit_with(2, m),
            Ok(plan) => match chosen(c, env.models) {
                Err(s) => s,
                Ok(model) => run_with(c, o, plan, model, r),
            },
        },
    }
}

fn wind_up_run(p: &Prompted, rooted: bool, r: &Vec<CliReply>, k: usize) -> (res: CliStep)
    ensures
        res@ == wind_up(*p, rooted, r@, k as int),
{
    let (out, err, code, status, sent) = match p {
        Prompted::SendFailed(e) => {
            let mut m = "send failed: ".to_owned();
            m.push_str(e.as_str());
            (None, Some(m), 1u8, RunStatus::Failure(e.clone()), false)
        },
        Prompted::Answer { text, completed, turns } => (
            Some(printed(text.as_str())),
            remark(*completed, *turns),
            0u8,
            RunStatus::Success,
            true,
        ),
        Prompted::Failed(e) => {
            let mut m = "session error: ".to_owned();
            m.push_str(e.as_str());
            (None, Some(m), 1u8, RunStatus::Failure(e.clone()), true)
        },
        Prompted::Dropped => (
            None,
            Some("session dropped reply channel".to_owned()),
            1u8,
            RunStatus::Failure("session dropped reply channel".to_owned()),
            true,
        ),
    };
    if k >= r.len() {
        return CliStep::Need(CliAction::Report { out, err });
    }
    match &r[k] {
        CliReply::Done(_) => {},
        _ => {
            return CliStep::Need(CliAction::Report { out, err });
        },
    }
    if !rooted {
        return CliStep::Exit(CliExit { code, err: None, usage: false });
    }
    if k + 1 >= r.len() {
        return CliStep::Need(CliAction::Finish(status));
    }
    match &r[k + 1] {
        CliReply::Done(Ok(_)) => CliStep::Exit(CliExit { code, err: None, usage: false }),
        CliReply::Done(Err(m)) => {
            if sent {
                exit2(code, "branch strategy finish: ", m.as_str())
            } else {
                CliStep::Exit(CliExit { code, err: None, usage: false })
            }
        },
        _ => CliStep::Need(CliAction::Finish(status)),
    }
}

fn get_prompt(o: &super::RunOpts, r: &Vec<CliReply>) -> (res: Result<(String, usize), CliStep>)
    ensures
        match prompt(o@, r@) {
            Part::Go(p, n) => res matches Ok(m) && m.0@ == p && m.1 == n && m.1 <= r@.len(),
            Part::Stop(s) => res matches Err(x) && x@ == s,
        },
{
    let name = match prompt_source(o) {
        PromptSource::Text(p) => {
            return Ok((p, 0));
        },
        PromptSource::Missing => {
            return Err(CliStep::Exit(CliExit { code: 2, err: None, usage: true }));
        },
        PromptSource::Skill(name) => name,
    };
    if r.len() > 0 {
        match &r[0] {
            CliReply::Skill(Ok(p)) => {
                return Ok((p.clone(), 1));
            },
            CliReply::Skill(Err(e)) => {
                let mut m = "skill ".to_owned();
                m.push_str(name.as_str());
                m.push_str(": ");
                m.push_str(e.as_str());
                return Err(exit(2, m));
            },
            _ => {},
        }
    }
    let args = crate::table::copy_texts(&o.skill_args);
    proof {
        assert(args@.map_values(|s: String| s@) =~= o.skill_args@.map_values(|s: String| s@));
    }
    Err(CliStep::Need(CliAction::LoadSkill { name, args }))
}

fn prepare_workspace(strategy: Option<Strategy>, r: &Vec<CliReply>, k: usize) -> (res: Result<
    (Option<String>, usize),
    CliStep,
>)
    requires
        k <= r@.len(),
    ensures
        match workspace(
            match strategy {
                Some(s) => Some(s@),
                None => None,
            },
            r@,
            k as int,
        ) {
            Part::Go(d, n) => res matches Ok(m) && maybe(m.0) == d && m.1 == n && m.1 <= r@.len(),
            Part::Stop(s) => res matches Err(x) && x@ == s,
        },
{
    let strategy = match strategy {
        Some(s) => s,
        None => {
            return Ok((None, k));
        },
    };
    let (root, a) = match await_dir(CliAction::CurrentDir, "cwd: ", r, k) {
        Ok(x) => x,
        Err(s) => {
            return Err(s);
        },
    };
    let (path, b) = match await_dir(
        CliAction::Prepare { strategy, root },
        "branch strategy prepare: ",
        r,
        a,
    ) {
        Ok(x) => x,
        Err(s) => {
            return Err(s);
        },
    };
    let mut what = "cd ".to_owned();
    what.push_str(quote_path(path.as_str()).as_str());
    what.push_str(": ");
    match await_done(CliAction::ChangeDir(path.clone()), what.as_str(), r, b) {
        Ok(c) => Ok((Some(path), c)),
        Err(s) => Err(s),
    }
}

/// `agent run`: where it stands after the answers in `r`.
pub fn run_cmd(args: &Vec<String>, env: &CliEnv, r: &Vec<CliReply>) -> (res: CliStep)
    ensures
        res@ == run_state(texts(args@), *env, r@),
{
    let sessions = match &env.sessions_dir {
        Some(d) => Some(d.clone()),
        None => None,
    };
    let (opts, rest) = parse_common(args, sessions);
    let o = match parse_run(&rest) {
        Ok(o) => o,
        Err(e) => {
            return exit(2, e);
        },
    };
    let strategy = match parse_strategy(&o.strategy) {
        Ok(s) => s,
        Err(e) => {
            return exit(2, e);
        },
    };
    let model = match choose_model(&opts, &env.models) {
        Ok(m) => m,
        Err(s) => {
            return s;
        },
    };
    let (text, a) = match get_prompt(&o, r) {
        Ok(x) => x,
        Err(s) => {
            return s;
        },
    };
    let b = match connect_mcp(&opts.mcp_specs, r, a) {
        Ok(k) => k,
        Err(s) => {
            return s;
        },
    };
    let d = match open_store(&opts.sessions_dir, r, b) {
        Ok(k) => k,
        Err(s) => {
            return s;
        },
    };
    let (root, e) = match prepare_workspace(strategy, r, d) {
        Ok(x) => x,
        Err(s) => {
            return s;
        },
    };
    if e < r.len() {
        if let CliReply::Prompted(p) = &r[e] {
            return wind_up_run(p, root.is_some(), r, e + 1);
        }
    }
    CliStep::Need(CliAction::Prompt { text, root, model })
}

// ---------------------------------------------------------------------------------
// agent serve
// ---------------------------------------------------------------------------------
/// Texts as a list is shown: quoted, between brackets.
pub open spec fn shown_list(a: Seq<Seq<char>>, n: int) -> Seq<char>
    decreases n,
{
    if n <= 0 {
        "["@
    } else if n == 1 {
        "["@ + quoted(a[0])
    } else {
        shown_list(a, n - 1) + ", "@ + quoted(a[n - 1])
    }
}

fn show_list(a: &Vec<String>) -> (res: String)
    ensures
        res@ == shown_list(texts(a@), a@.len() as int) + "]"@,
{
    let ghost t = texts(a@);
    let mut res = "[".to_owned();
    let mut i: usize = 0;
    while i < a.len()
        invariant
            i <= a@.len(),
            t == texts(a@),
            res@ == shown_list(t, i as int),
        decreases a.len() - i,
    {
        if i > 0 {
            res.push_str(", ");
        }
        res.push_str(quote(a[i].as_str()).as_str());
        proof {
            assert(t[i as int] == a@[i as int]@);
        }
        i += 1;
    }
    res.push_str("]");
    res
}

/// `agent serve`.
pub open spec fn serve_state(args: Seq<Seq<char>>, env: CliEnv, r: Seq<CliReply>) -> CliState {
    let (c, rest) = common(args, 0, no_options(maybe(env.sessions_dir)));
    let (addr, odd) = serve_options(rest, 0, "0.0.0.0:3583"@);
    if odd.len() > 0 {
        CliState::Exit {
            code: 2,
            err: Some("unexpected args: "@ + (shown_list(odd, odd.len() as int) + "]"@)),
            usage: true,
        }
    } else {
        match chosen(c, env.models) {
            Err(s) => s,
            Ok(model) => match servers(c.mcp, 0, r, 0) {
                Part::Stop(s) => s,
                Part::Go(_, a) => match store(c.sessions, r, a) {
                    Part::Stop(s) => s,
                    Part::Go(_, b) => match done(
                        CliNeed::Serve { addr, model },
                        "serve failed: "@,
                        r,
                        b,
                    ) {
                        Part::Stop(s) => s,
                        Part::Go(_, _) => CliState::Exit { code: 0, err: None, usage: false },
                    },
                },
            },
        }
    }
}

/// `agent serve`: where it stands after the answers in `r`.
pub fn serve_cmd(args: &Vec<String>, env: &CliEnv, r: &Vec<CliReply>) -> (res: CliStep)
    ensures
        res@ == serve_state(texts(args@), *env, r@),
{
    let sessions = match &env.sessions_dir {
        Some(d) => Some(d.clone()),
        None => None,
    };
    let (opts, rest) = parse_common(args, sessions);
    let (addr, odd) = parse_serve(&rest);
    if odd.len() > 0 {
        let mut m = "unexpected args: ".to_owned();
        m.push_str(show_list(&odd).as_str());
        return CliStep::Exit(CliExit { code: 2, err: Some(m), usage: true });
    }
    let model = match choose_model(&opts, &env.models) {
        Ok(m) => m,
        Err(s) => {
            return s;
        },
    };
    let a = match connect_mcp(&opts.mcp_specs, r, 0) {
        Ok(k) => k,
        Err(s) => {
            return s;
        },
    };
    let b = match open_store(&opts.sessions_dir, r, a) {
        Ok(k) => k,
        Err(s) => {
            return s;
        },
    };
    match await_done(CliAction::Serve { addr, model }, "serve failed: ", r, b) {
        Ok(_) => CliStep::Exit(CliExit { code: 0, err: None, usage: false }),
        Err(s) => s,
    }
}

// ---------------------------------------------------------------------------------
// Chat
// ---------------------------------------------------------------------------------
/// Begins a chat: the prompt in the request's body, and the first event, which tells the
/// chat's id. A body without a prompt is refused and nothing is sent.
pub fn begin_chat(id: &str, body: &[u8], sink: &mut EventSink) -> (res: Result<
    String,
    HandlerError,
>)
    ensures
        match body_prompt(body@) {
            Ok(p) => {
                &&& res matches Ok(s) && s@ == p
                &&& final(sink).out@ == old(sink).out@ + event_frame(
                    Some(encode_utf8("start"@)),
                    encode_utf8(id@),
                )
            },
            Err(m) => {
                &&& res matches Err(e) && e.0@ == m
                &&& final(sink).out@ == old(sink).out@
            },
        },
{
    match parse_prompt(body) {
        Ok(p) => {
            sink.emit(Some("start"), id);
            Ok(p)
        },
        Err(m) => Err(HandlerError(m)),
    }
}

/// Ends a chat: the answer and the number of turns as events, or the error.
pub fn end_chat(outcome: &Prompted, sink: &mut EventSink) -> (res: Result<(), HandlerError>)
    ensures
        match *outcome {
            Prompted::Answer { text, completed, turns } => {
                &&& res is Ok
                &&& final(sink).out@ == old(sink).out@ + event_frame(
                    Some(encode_utf8("text"@)),
                    encode_utf8(text@),
                ) + event_frame(
                    Some(encode_utf8("done"@)),
                    encode_utf8("turns="@ + dec(turns as nat)),
                )
            },
            Prompted::SendFailed(m) => final(sink).out@ == old(sink).out@ && (res matches Err(e)
                && e.0@ == "session send: "@ + m@),
            Prompted::Failed(m) => final(sink).out@ == old(sink).out@ && (res matches Err(e)
                && e.0@ == m@),
            Prompted::Dropped => final(sink).out@ == old(sink).out@ && (res matches Err(e)
                && e.0@ == "session dropped"@),
        },
{
    match outcome {
        Prompted::Answer { text, turns, .. } => {
            sink.emit(Some("text"), text.as_str());
            let mut t = "turns=".to_owned();
            push_dec(&mut t, *turns as u128);
            sink.emit(Some("done"), t.as_str());
            Ok(())
        },
        Prompted::SendFailed(m) => {
            let mut e = "session send: ".to_owned();
            e.push_str(m.as_str());
            Err(HandlerError(e))
        },
        Prompted::Failed(m) => Err(HandlerError(m.clone())),
        Prompted::Dropped => Err(HandlerError("session dropped".to_owned())),
    }
}

// ---------------------------------------------------------------------------------
// Laws
// ---------------------------------------------------------------------------------
/// A run that exits with code 0 sent its prompt and got an answer.
pub proof fn law_success_means_answer(
    args: Seq<Seq<char>>,
    env: CliEnv,
    r: Seq<CliReply>,
    err: Option<Seq<char>>,
    usage: bool,
)
    requires
        run_state(args, env, r) == (CliState::Exit { code: 0, err, usage }),
    ensures
        exists|k: int|
            0 <= k < r.len() && (#[trigger] r[k] matches CliReply::Prompted(p) && p is Answer),
{
    let (c, rest) = common(args, 0, no_options(maybe(env.sessions_dir)));
    let o = run_options(rest, 0, no_run_options())->Ok_0;
    let plan = strategy_of(o.strategy)->Ok_0;
    let model = chosen(c, env.models)->Ok_0;
    if let Part::Go(_, a) = prompt(o, r) {
        lemma_servers_code(c.mcp, 0, r, a);
        if let Part::Go(_, b) = servers(c.mcp, 0, r, a) {
            if let Part::Go(_, d) = store(c.sessions, r, b) {
                if let Part::Go(_, e) = workspace(plan, r, d) {
                    assert(r[e] is Prompted);
                }
            }
        }
    }
}

/// Starting tool servers never ends a command with code 0.
proof fn lemma_servers_code(specs: Seq<Seq<char>>, i: int, r: Seq<CliReply>, k: int)
    requires
        0 <= k,
    ensures
        servers(specs, i, r, k) matches Part::Stop(CliState::Exit { code, .. }) ==> code == 1,
        servers(specs, i, r, k) matches Part::Go(_, n) ==> n >= k,
    decreases specs.len() - i,
{
    if 0 <= i < specs.len() && words(specs[i], 0).len() > 0 {
        let w = words(specs[i], 0);
        if let Part::Go(_, n) = done(CliNeed::StartMcp(w), "mcp "@ + w[0] + ": "@, r, k) {
            lemma_servers_code(specs, i + 1, r, n);
        }
    }
}

proof fn lemma_servers_are_kept(
    specs: Seq<Seq<char>>,
    i: int,
    r: Seq<CliReply>,
    more: Seq<CliReply>,
    k: int,
)
    requires
        0 <= k,
    ensures
        ({
            let a = servers(specs, i, r, k);
            &&& a == servers(specs, i, r + more, k) || (a matches Part::Stop(s) && s is Need)
            &&& a matches Part::Go(_, n) ==> k <= n
        }),
    decreases specs.len() - i,
{
    assert forall|j: int| 0 <= j < r.len() implies #[trigger] (r + more)[j] == r[j] by {}
    if 0 <= i < specs.len() && words(specs[i], 0).len() > 0 {
        let w = words(specs[i], 0);
        if let Part::Go(_, n) = done(CliNeed::StartMcp(w), "mcp "@ + w[0] + ": "@, r, k) {
            lemma_servers_are_kept(specs, i + 1, r, more, n);
        }
    }
}

/// A command that has ended stays as it ended: answers that it did not get to make no
/// difference.
pub proof fn law_the_end_is_kept(
    args: Seq<Seq<char>>,
    env: CliEnv,
    r: Seq<CliReply>,
    more: Seq<CliReply>,
)
    ensures
        run_state(args, env, r) is Need || run_state(args, env, r + more) == run_state(
            args,
            env,
            r,
        ),
        serve_state(args, env, r) is Need || serve_state(args, env, r + more) == serve_state(
            args,
            env,
            r,
        ),
{
    assert forall|j: int| 0 <= j < r.len() implies #[trigger] (r + more)[j] == r[j] by {}
    let (c, rest) = common(args, 0, no_options(maybe(env.sessions_dir)));
    lemma_servers_are_kept(c.mcp, 0, r, more, 0);
    if let Ok(o) = run_options(rest, 0, no_run_options()) {
        if let Part::Go(_, a) = prompt(o, r) {
            lemma_servers_are_kept(c.mcp, 0, r, more, a);
        }
    }
}

} // verus!

//! The command line: `agent run [opts] <prompt>` and `agent serve [opts]`.

use vstd::prelude::*;
use vstd::utf8::*;

pub mod commands;
pub mod laws;

use crate::json::{member, parse, parsed, Json, Val};
use crate::table::Table;
use crate::text::{
    chars_of, dec, find_char, is_white, join_words, maybe, push_dec, seek_char, spaced, starts_with,
    text_eq, text_of, texts, trim, trimmed, utf8_error, utf8_fault, white, word_end,
};

verus! {

// ---------------------------------------------------------------------------------
// Options of both commands
// ---------------------------------------------------------------------------------
#[derive(Debug)]
pub struct CommonOpts {
    pub openai: bool,
    pub model: Option<String>,
    pub sessions_dir: Option<String>,
    /// Commands that start tool servers.
    pub mcp_specs: Vec<String>,
}

/// Mathematical form of `CommonOpts`.
pub struct Common {
    pub openai: bool,
    pub model: Option<Seq<char>>,
    pub sessions: Option<Seq<char>>,
    pub mcp: Seq<Seq<char>>,
}

impl View for CommonOpts {
    type V = Common;

    open spec fn view(&self) -> Common {
        Common {
            openai: self.openai,
            model: maybe(self.model),
            sessions: maybe(self.sessions_dir),
            mcp: texts(self.mcp_specs@),
        }
    }
}

/// Takes the common options out of the arguments from the `i`-th on: the options, and what
/// is left. An option that lacks its value is dropped; the last of several counts.
pub open spec fn common(a: Seq<Seq<char>>, i: int, o: Common) -> (Common, Seq<Seq<char>>)
    decreases a.len() - i,
{
    if i < 0 || i >= a.len() {
        (o, Seq::empty())
    } else if a[i] == "--openai"@ {
        common(a, i + 1, Common { openai: true, ..o })
    } else if a[i] == "--model"@ {
        if i + 1 < a.len() {
            common(a, i + 2, Common { model: Some(a[i + 1]), ..o })
        } else {
            common(a, i + 1, o)
        }
    } else if a[i] == "--sessions"@ {
        if i + 1 < a.len() {
            common(a, i + 2, Common { sessions: Some(a[i + 1]), ..o })
        } else {
            common(a, i + 1, o)
        }
    } else if a[i] == "--mcp"@ {
        if i + 1 < a.len() {
            common(a, i + 2, Common { mcp: o.mcp.push(a[i + 1]), ..o })
        } else {
            common(a, i + 1, o)
        }
    } else {
        let (p, rest) = common(a, i + 1, o);
        (p, seq![a[i]] + rest)
    }
}

/// The options before any argument is read: the directory for sessions may come from the
/// environment.
pub open spec fn no_options(sessions: Option<Seq<char>>) -> Common {
    Common { openai: false, model: None, sessions, mcp: Seq::empty() }
}

/// Takes the common options out of the arguments.
pub fn parse_common(args: &Vec<String>, sessions_env: Option<String>) -> (res: (
    CommonOpts,
    Vec<String>,
))
    ensures
        (res.0@, texts(res.1@)) == common(texts(args@), 0, no_options(maybe(sessions_env))),
{
    let mut o = CommonOpts {
        openai: false,
        model: None,
        sessions_dir: sessions_env,
        mcp_specs: Vec::new(),
    };
    let mut rest: Vec<String> = Vec::new();
    let ghost a = texts(args@);
    let ghost goal = common(a, 0, no_options(maybe(sessions_env)));
    let mut i: usize = 0;
    proof {
        assert(o@.mcp =~= Seq::<Seq<char>>::empty());
        assert(texts(rest@) + goal.1 =~= goal.1);
    }
    while i < args.len()
        invariant
            i <= args.len(),
            a == texts(args@),
            goal == (common(a, i as int, o@).0, texts(rest@) + common(a, i as int, o@).1),
        decreases args.len() - i,
    {
        proof {
            assert(a[i as int] == args@[i as int]@);
            if i + 1 < args@.len() {
                assert(a[i + 1] == args@[i + 1]@);
            }
        }
        let arg = args[i].as_str();
        let ghost o0 = o@;
        if text_eq(arg, "--openai") {
            o.openai = true;
            i += 1;
        } else if text_eq(arg, "--model") {
            i += 1;
            if i < args.len() {
                o.model = Some(args[i].clone());
                i += 1;
            }
        } else if text_eq(arg, "--sessions") {
            i += 1;
            if i < args.len() {
                o.sessions_dir = Some(args[i].clone());
                i += 1;
            }
        } else if text_eq(arg, "--mcp") {
            i += 1;
            if i < args.len() {
                let ghost m0 = o.mcp_specs@;
                o.mcp_specs.push(args[i].clone());
                proof {
                    assert(texts(o.mcp_specs@) =~= texts(m0).push(a[i as int]));
                }
                i += 1;
            }
        } else {
            let ghost r0 = rest@;
            rest.push(args[i].clone());
            proof {
                let tail = common(a, i + 1, o@).1;
                assert(texts(rest@) =~= texts(r0).push(a[i as int]));
                assert(texts(rest@) + tail =~= texts(r0) + (seq![a[i as int]] + tail));
            }
            i += 1;
        }
    }
    proof {
        assert(texts(rest@) + Seq::<Seq<char>>::empty() =~= texts(rest@));
    }
    (o, rest)
}

/// Which model to speak to.
#[derive(Debug)]
pub struct ModelChoice {
    pub openai: bool,
    pub key: String,
    pub name: String,
    /// Another address than OpenAI's own.
    pub base_url: Option<String>,
}

/// What the environment says of models.
#[derive(Debug)]
pub struct ModelEnv {
    pub openai_key: Option<String>,
    pub anthropic_key: Option<String>,
    pub model: Option<String>,
    pub openai_base_url: Option<String>,
    /// The Anthropic model to speak to where none is named.
    pub anthropic_default: String,
}

/// The name of the model: the option before the environment before the default.
pub open spec fn model_name(o: Common, env: ModelEnv) -> Seq<char> {
    match o.model {
        Some(m) => m,
        None => match env.model {
            Some(m) => m@,
            None => if o.openai {
                "gpt-4o-mini"@
            } else {
                env.anthropic_default@
            },
        },
    }
}

/// Which model to speak to; without its key there is none.
pub fn build_model(opts: &CommonOpts, env: &ModelEnv) -> (res: Result<ModelChoice, String>)
    ensures
        ({
            let key = if opts.openai {
                env.openai_key
            } else {
                env.anthropic_key
            };
            match key {
                None => res matches Err(m) && m@ == (if opts.openai {
                    "OPENAI_API_KEY required"@
                } else {
                    "ANTHROPIC_API_KEY required"@
                }),
                Some(k) => res matches Ok(c) && c.openai == opts.openai && c.key@ == k@
                    && c.name@ == model_name(opts@, *env) && maybe(c.base_url) == (
                if opts.openai {
                    maybe(env.openai_base_url)
                } else {
                    None
                }),
            }
        }),
{
    let key = if opts.openai {
        match &env.openai_key {
            Some(k) => k.clone(),
            None => {
                return Err("OPENAI_API_KEY required".to_owned());
            },
        }
    } else {
        match &env.anthropic_key {
            Some(k) => k.clone(),
            None => {
                return Err("ANTHROPIC_API_KEY required".to_owned());
            },
        }
    };
    let name = match &opts.model {
        Some(m) => m.clone(),
        None => match &env.model {
            Some(m) => m.clone(),
            None => {
                if opts.openai {
                    "gpt-4o-mini".to_owned()
                } else {
                    env.anthropic_default.clone()
                }
            },
        },
    };
    let base_url = if opts.openai {
        match &env.openai_base_url {
            Some(u) => Some(u.clone()),
            None => None,
        }
    } else {
        None
    };
    Ok(ModelChoice { openai: opts.openai, key, name, base_url })
}

/// The words of a text from offset `i` on.
pub open spec fn words(s: Seq<char>, i: int) -> Seq<Seq<char>>
    decreases s.len() - i,
{
    if i < 0 || i >= s.len() {
        Seq::empty()
    } else if is_white(s[i]) {
        words(s, i + 1)
    } else {
        let z = word_end(s, i + 1);
        if i < z <= s.len() {
            seq![s.subrange(i, z)] + words(s, z)
        } else {
            Seq::empty()
        }
    }
}

/// The command and the arguments that start a tool server.
pub fn mcp_command(spec: &str) -> (res: Result<Vec<String>, String>)
    ensures
        match res {
            Ok(w) => texts(w@) == words(spec@, 0) && w@.len() > 0,
            Err(m) => words(spec@, 0).len() == 0 && m@ == "empty --mcp value"@,
        },
{
    let chars = chars_of(spec);
    let s = chars.as_slice();
    let mut out: Vec<String> = Vec::new();
    let mut i: usize = 0;
    proof {
        assert(texts(out@) + words(spec@, 0) =~= words(spec@, 0));
    }
    while i < s.len()
        invariant
            i <= s@.len(),
            s@ == spec@,
            texts(out@) + words(spec@, i as int) == words(spec@, 0),
        decreases s.len() - i,
    {
        if white(s[i]) {
            i += 1;
        } else {
            let mut z: usize = i + 1;
            while z < s.len() && !white(s[z])
                invariant
                    i < z <= s@.len(),
                    word_end(s@, i + 1) == word_end(s@, z as int),
                decreases s.len() - z,
            {
                z += 1;
            }
            let ghost o0 = out@;
            out.push(text_of(s, i, z));
            proof {
                let w = s@.subrange(i as int, z as int);
                assert(word_end(s@, i + 1) == z);
                assert(texts(out@) =~= texts(o0).push(w));
                assert(texts(out@) + words(spec@, z as int) =~= texts(o0) + (seq![w] + words(
                    spec@,
                    z as int,
                )));
            }
            i = z;
        }
    }
    proof {
        assert(texts(out@) + Seq::<Seq<char>>::empty() =~= texts(out@));
    }
    if out.len() == 0 {
        return Err("empty --mcp value".to_owned());
    }
    Ok(out)
}

// ---------------------------------------------------------------------------------
// agent run
// ---------------------------------------------------------------------------------
/// Options of `agent run`.
#[derive(Debug)]
pub struct RunOpts {
    pub skill: Option<String>,
    pub skill_args: Table<String>,
    pub strategy: Option<String>,
    /// What is left: the words of the prompt.
    pub words: Vec<String>,
}

/// Mathematical form of `RunOpts`.
pub struct Run {
    pub skill: Option<Seq<char>>,
    pub args: Map<Seq<char>, Seq<char>>,
    pub strategy: Option<Seq<char>>,
    pub words: Seq<Seq<char>>,
}

impl View for RunOpts {
    type V = Run;

    open spec fn view(&self) -> Run {
        Run {
            skill: maybe(self.skill),
            args: self.skill_args@.map_values(|s: String| s@),
            strategy: maybe(self.strategy),
            words: texts(self.words@),
        }
    }
}

/// Takes the options of `agent run` out of the arguments from the `i`-th on, or says what
/// is wrong with one.
pub open spec fn run_options(a: Seq<Seq<char>>, i: int, o: Run) -> Result<Run, Seq<char>>
    decreases a.len() - i,
{
    if i < 0 || i >= a.len() {
        Ok(o)
    } else if a[i] == "--skill"@ {
        if i + 1 < a.len() {
            run_options(a, i + 2, Run { skill: Some(a[i + 1]), ..o })
        } else {
            run_options(a, i + 1, o)
        }
    } else if a[i] == "--arg"@ {
        if i + 1 < a.len() {
            let kv = a[i + 1];
            let z = seek_char(kv, 0, '=');
            if z < kv.len() {
                run_options(
                    a,
                    i + 2,
                    Run { args: o.args.insert(kv.take(z), kv.skip(z + 1)), ..o },
                )
            } else {
                Err("--arg expects KEY=VALUE, got: "@ + kv)
            }
        } else {
            run_options(a, i + 1, o)
        }
    } else if a[i] == "--branch-strategy"@ {
        if i + 1 < a.len() {
            run_options(a, i + 2, Run { strategy: Some(a[i + 1]), ..o })
        } else {
            run_options(a, i + 1, o)
        }
    } else {
        run_options(a, i + 1, Run { words: o.words.push(a[i]), ..o })
    }
}

pub open spec fn no_run_options() -> Run {
    Run { skill: None, args: Map::empty(), strategy: None, words: Seq::empty() }
}

/// Takes the options of `agent run` out of the arguments that the common options left.
pub fn parse_run(args: &Vec<String>) -> (res: Result<RunOpts, String>)
    ensures
        match run_options(texts(args@), 0, no_run_options()) {
            Ok(o) => res matches Ok(r) && r@ == o,
            Err(m) => res matches Err(e) && e@ == m,
        },
{
    let mut o = RunOpts { skill: None, skill_args: Table::new(), strategy: None, words: Vec::new() };
    let ghost a = texts(args@);
    let ghost goal = run_options(a, 0, no_run_options());
    let mut i: usize = 0;
    proof {
        assert(o@.words =~= Seq::<Seq<char>>::empty());
        assert(o@.args =~= Map::<Seq<char>, Seq<char>>::empty());
    }
    while i < args.len()
        invariant
            i <= args.len(),
            a == texts(args@),
            goal == run_options(a, 0, no_run_options()),
            goal == run_options(a, i as int, o@),
        decreases args.len() - i,
    {
        proof {
            assert(a[i as int] == args@[i as int]@);
            if i + 1 < args@.len() {
                assert(a[i + 1] == args@[i + 1]@);
            }
        }
        let arg = args[i].as_str();
        let ghost o0 = o@;
        if text_eq(arg, "--skill") {
            i += 1;
            if i < args.len() {
                o.skill = Some(args[i].clone());
                i += 1;
            }
        } else if text_eq(arg, "--arg") {
            i += 1;
            if i < args.len() {
                let chars = chars_of(args[i].as_str());
                let z = find_char(chars.as_slice(), 0, '=');
                if z >= chars.len() {
                    let mut m = "--arg expects KEY=VALUE, got: ".to_owned();
                    m.push_str(args[i].as_str());
                    return Err(m);
                }
                let key = text_of(chars.as_slice(), 0, z);
                let value = text_of(chars.as_slice(), z + 1, chars.len());
                let ghost t0 = o.skill_args@;
                proof {
                    assert(key@ =~= a[i as int].take(z as int));
                    assert(value@ =~= a[i as int].skip(z + 1));
                }
                o.skill_args.set(key, value);
                proof {
                    assert(o.skill_args@.map_values(|s: String| s@) =~= t0.map_values(
                        |s: String| s@,
                    ).insert(key@, value@));
                }
                i += 1;
            }
        } else if text_eq(arg, "--branch-strategy") {
            i += 1;
            if i < args.len() {
                o.strategy = Some(args[i].clone());
                i += 1;
            }
        } else {
            let ghost w0 = o.words@;
            o.words.push(args[i].clone());
            proof {
                assert(texts(o.words@) =~= texts(w0).push(a[i as int]));
            }
            i += 1;
        }
    }
    Ok(o)
}

/// Where the agent works.
#[derive(Debug, PartialEq, Eq)]
pub enum Strategy {
    Head,
    MergeToHead,
    Branch { name: String },
}

/// Mathematical form of a `Strategy`.
pub enum Plan {
    Head,
    MergeToHead,
    Branch(Seq<char>),
}

impl View for Strategy {
    type V = Plan;

    open spec fn view(&self) -> Plan {
        match *self {
            Strategy::Head => Plan::Head,
            Strategy::MergeToHead => Plan::MergeToHead,
            Strategy::Branch { name } => Plan::Branch(name@),
        }
    }
}

/// The strategy that an option names, or what is wrong with it.
pub open spec fn plan_of(s: Seq<char>) -> Result<Plan, Seq<char>> {
    if s == "head"@ {
        Ok(Plan::Head)
    } else if s == "merge-to-head"@ {
        Ok(Plan::MergeToHead)
    } else if starts_with(s, "branch:"@) {
        if trim(s.skip(7)).len() == 0 {
            Err("--branch-strategy branch:<name> requires a name"@)
        } else {
            Ok(Plan::Branch(trim(s.skip(7))))
        }
    } else {
        Err(
            "unknown --branch-strategy '"@ + s + "' (try: head | merge-to-head | branch:NAME)"@,
        )
    }
}

/// The strategy that the option names; none without the option.
pub fn parse_strategy(spec: &Option<String>) -> (res: Result<Option<Strategy>, String>)
    ensures
        match *spec {
            None => res matches Ok(None),
            Some(s) => match plan_of(s@) {
                Ok(p) => res matches Ok(Some(x)) && x@ == p,
                Err(m) => res matches Err(e) && e@ == m,
            },
        },
{
    let s = match spec {
        Some(s) => s.as_str(),
        None => {
            return Ok(None);
        },
    };
    if text_eq(s, "head") {
        return Ok(Some(Strategy::Head));
    }
    if text_eq(s, "merge-to-head") {
        return Ok(Some(Strategy::MergeToHead));
    }
    let chars = chars_of(s);
    proof {
        reveal_strlit("branch:");
        assert("branch:"@.len() == 7);
        assert(chars@.skip(0) =~= s@);
    }
    if crate::text::begins(chars.as_slice(), 0, "branch:") {
        let rest = text_of(chars.as_slice(), 7, chars.len());
        proof {
            assert(rest@ =~= s@.skip(7));
        }
        let name = trimmed(rest.as_str());
        if chars_of(name.as_str()).len() == 0 {
            return Err("--branch-strategy branch:<name> requires a name".to_owned());
        }
        return Ok(Some(Strategy::Branch { name }));
    }
    let mut m = "unknown --branch-strategy '".to_owned();
    m.push_str(s);
    m.push_str("' (try: head | merge-to-head | branch:NAME)");
    Err(m)
}

/// Where the prompt comes from.
#[derive(Debug)]
pub enum PromptSource {
    /// A skill.
    Skill(String),
    /// The command line.
    Text(String),
    /// Nowhere.
    Missing,
}

/// Where the prompt comes from: a skill, whatever else is said, or the words that are left.
pub fn prompt_source(o: &RunOpts) -> (res: PromptSource)
    ensures
        match o.skill {
            Some(name) => res matches PromptSource::Skill(n) && n@ == name@,
            None => {
                let p = spaced(texts(o.words@), o.words@.len() as int);
                if p.len() > 0 {
                    res matches PromptSource::Text(t) && t@ == p
                } else {
                    res is Missing
                }
            },
        },
{
    if let Some(name) = &o.skill {
        return PromptSource::Skill(name.clone());
    }
    let p = join_words(&o.words);
    if chars_of(p.as_str()).len() > 0 {
        PromptSource::Text(p)
    } else {
        PromptSource::Missing
    }
}

/// What is printed of a result: its text, with a newline at its end.
pub fn printed(text: &str) -> (res: String)
    ensures
        res@ == (if text@.len() > 0 && text@.last() == '\n' {
            text@
        } else {
            text@.push('\n')
        }),
{
    let chars = chars_of(text);
    let mut res = text.to_owned();
    if !(chars.len() > 0 && chars[chars.len() - 1] == '\n') {
        res.push('\n');
    }
    res
}

/// What is said of a run behind its result, if anything.
pub fn remark(completed: bool, turns: usize) -> (res: Option<String>)
    ensures
        maybe(res) == (if completed {
            Some("[completion signal fired after "@ + dec(turns as nat) + " turn(s)]"@)
        } else if turns > 1 {
            Some("["@ + dec(turns as nat) + " turn(s)]"@)
        } else {
            None
        }),
{
    if completed {
        let mut m = "[completion signal fired after ".to_owned();
        push_dec(&mut m, turns as u128);
        m.push_str(" turn(s)]");
        Some(m)
    } else if turns > 1 {
        let mut m = "[".to_owned();
        push_dec(&mut m, turns as u128);
        m.push_str(" turn(s)]");
        Some(m)
    } else {
        None
    }
}

// ---------------------------------------------------------------------------------
// agent serve
// ---------------------------------------------------------------------------------
/// Takes the address out of the arguments from the `i`-th on: the address, and what is
/// left.
pub open spec fn serve_options(a: Seq<Seq<char>>, i: int, addr: Seq<char>) -> (
    Seq<char>,
    Seq<Seq<char>>,
)
    decreases a.len() - i,
{
    if i < 0 || i >= a.len() {
        (addr, Seq::empty())
    } else if a[i] == "--addr"@ {
        if i + 1 < a.len() {
            serve_options(a, i + 2, a[i + 1])
        } else {
            serve_options(a, i + 1, addr)
        }
    } else {
        let (x, rest) = serve_options(a, i + 1, addr);
        (x, seq![a[i]] + rest)
    }
}

/// The address to listen on, and the arguments that nobody expects.
pub fn parse_serve(args: &Vec<String>) -> (res: (String, Vec<String>))
    ensures
        (res.0@, texts(res.1@)) == serve_options(texts(args@), 0, "0.0.0.0:3583"@),
{
    let mut addr = "0.0.0.0:3583".to_owned();
    let mut rest: Vec<String> = Vec::new();
    let ghost a = texts(args@);
    let ghost goal = serve_options(a, 0, "0.0.0.0:3583"@);
    let mut i: usize = 0;
    proof {
        assert(texts(rest@) + goal.1 =~= goal.1);
    }
    while i < args.len()
        invariant
            i <= args.len(),
            a == texts(args@),
            goal == (
                serve_options(a, i as int, addr@).0,
                texts(rest@) + serve_options(a, i as int, addr@).1,
            ),
        decreases args.len() - i,
    {
        proof {
            assert(a[i as int] == args@[i as int]@);
            if i + 1 < args@.len() {
                assert(a[i + 1] == args@[i + 1]@);
            }
        }
        if text_eq(args[i].as_str(), "--addr") {
            i += 1;
            if i < args.len() {
                addr = args[i].clone();
                i += 1;
            }
        } else {
            let ghost r0 = rest@;
            rest.push(args[i].clone());
            proof {
                let tail = serve_options(a, i + 1, addr@).1;
                assert(texts(rest@) =~= texts(r0).push(a[i as int]));
                assert(texts(rest@) + tail =~= texts(r0) + (seq![a[i as int]] + tail));
            }
            i += 1;
        }
    }
    proof {
        assert(texts(rest@) + Seq::<Seq<char>>::empty() =~= texts(rest@));
    }
    (addr, rest)
}

/// The prompt in the body of a request: a JSON object with a member `prompt`, or the text
/// itself.
pub open spec fn body_prompt(body: Seq<u8>) -> Result<Seq<char>, Seq<char>> {
    if !valid_utf8(body) {
        Err("body not utf-8: "@ + utf8_fault(body))
    } else {
        let t = trim(decode_utf8(body));
        if t.len() > 0 && t[0] == '{' {
            match parsed(encode_utf8(t)) {
                None => Err("body not valid JSON: "@ + "InvalidResponse(\"invalid JSON\")"@),
                Some(v) => match member(v, "prompt"@) {
                    Some(Val::Str(p)) => Ok(p),
                    _ => Err("body missing 'prompt' string field"@),
                },
            }
        } else {
            Ok(t)
        }
    }
}

/// The prompt in the body of a request.
pub fn parse_prompt(body: &[u8]) -> (res: Result<String, String>)
    ensures
        match body_prompt(body@) {
            Ok(p) => res matches Ok(s) && s@ == p,
            Err(m) => res matches Err(e) && e@ == m,
        },
{
    let s = match core::str::from_utf8(body) {
        Ok(s) => s,
        Err(_) => {
            let mut m = "body not utf-8: ".to_owned();
            m.push_str(utf8_error(body).as_str());
            return Err(m);
        },
    };
    proof {
        encode_utf8_decode_utf8(s@);
    }
    let t = trimmed(s);
    let chars = chars_of(t.as_str());
    if !(chars.len() > 0 && chars[0] == '{') {
        return Ok(t);
    }
    match parse(t.as_str().as_bytes()) {
        Err(_) => {
            let mut m = "body not valid JSON: ".to_owned();
            m.push_str("InvalidResponse(\"invalid JSON\")");
            Err(m)
        },
        Ok(v) => match v.get("prompt") {
            Some(Json::Str(p)) => Ok(p.clone()),
            _ => Err("body missing 'prompt' string field".to_owned()),
        },
    }
}

// ---------------------------------------------------------------------------------
// Laws
// ---------------------------------------------------------------------------------
/// Whether an argument is one of the common options.
pub open spec fn is_common(s: Seq<char>) -> bool {
    s == "--openai"@ || s == "--model"@ || s == "--sessions"@ || s == "--mcp"@
}

/// Arguments without common options are left as they are.
pub proof fn law_plain_arguments_stay(a: Seq<Seq<char>>, i: int, o: Common)
    requires
        0 <= i <= a.len(),
        forall|k: int| 0 <= k < a.len() ==> !is_common(#[trigger] a[k]),
    ensures
        common(a, i, o) == (o, a.skip(i)),
    decreases a.len() - i,
{
    if i < a.len() {
        assert(!is_common(a[i]));
        law_plain_arguments_stay(a, i + 1, o);
        assert(seq![a[i]] + a.skip(i + 1) =~= a.skip(i));
    } else {
        assert(a.skip(i) =~= Seq::<Seq<char>>::empty());
    }
}

} // verus!

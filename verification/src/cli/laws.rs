//! What holds of every command line.

use vstd::prelude::*;
use vstd::utf8::*;

use super::commands::{
    chosen, done, outcome, prompt, run_state, run_with, serve_state, servers, store, wind_up,
    workspace, Choice, CliEnv, CliNeed, CliReply, CliState, Part, Prompted,
};
use super::{
    body_prompt, common, no_options, no_run_options, plan_of, run_options, serve_options, words,
    Common, ModelEnv, Plan, Run,
};
use crate::json::{member_str, parsed, Val};
use crate::text::{
    dec, is_white, lemma_seek_char, maybe, seek_char, spaced, starts_with, trim, word_end,
};

verus! {

// ---------------------------------------------------------------------------------
// Options
// ---------------------------------------------------------------------------------
proof fn lemma_options()
    ensures
        "--openai"@.len() == 8,
        "--model"@.len() == 7,
        "--sessions"@.len() == 10,
        "--mcp"@.len() == 5 && "--mcp"@[2] == 'm',
        "--skill"@.len() == 7,
        "--arg"@.len() == 5 && "--arg"@[2] == 'a',
        "--branch-strategy"@.len() == 17,
{
    reveal_strlit("--openai");
    reveal_strlit("--model");
    reveal_strlit("--sessions");
    reveal_strlit("--mcp");
    reveal_strlit("--skill");
    reveal_strlit("--arg");
    reveal_strlit("--branch-strategy");
}

/// Each common option takes effect wherever it stands: `--openai` chooses the provider, `--model`
/// the model, `--sessions` the directory, and every `--mcp` adds a tool server behind those before.
/// What is no common option is left over, in its order.
pub proof fn law_common_options(a: Seq<Seq<char>>, i: int, o: Common)
    requires
        0 <= i < a.len(),
    ensures
        a[i] == "--openai"@ ==> common(a, i, o) == common(a, i + 1, Common { openai: true, ..o }),
        a[i] == "--model"@ && i + 1 < a.len() ==> common(a, i, o) == common(
            a,
            i + 2,
            Common { model: Some(a[i + 1]), ..o },
        ),
        a[i] == "--sessions"@ && i + 1 < a.len() ==> common(a, i, o) == common(
            a,
            i + 2,
            Common { sessions: Some(a[i + 1]), ..o },
        ),
        a[i] == "--mcp"@ && i + 1 < a.len() ==> common(a, i, o) == common(
            a,
            i + 2,
            Common { mcp: o.mcp.push(a[i + 1]), ..o },
        ),
        a[i] != "--openai"@ && a[i] != "--model"@ && a[i] != "--sessions"@ && a[i] != "--mcp"@ ==> {
            &&& common(a, i, o).0 == common(a, i + 1, o).0
            &&& common(a, i, o).1 == seq![a[i]] + common(a, i + 1, o).1
        },
        common(a, a.len() as int, o) == (o, Seq::<Seq<char>>::empty()),
        forall|s: Option<Seq<char>>|
            #[trigger] no_options(s) == (Common {
                openai: false,
                model: None,
                sessions: s,
                mcp: Seq::empty(),
            }),
{
    lemma_options();
}

/// The options of a run: `--skill` names a skill, `--arg KEY=VALUE` gives it a value, where the
/// first `=` ends the key, and `--branch-strategy` names a strategy. Every other argument is a
/// word of the prompt, in its order.
pub proof fn law_run_options(a: Seq<Seq<char>>, i: int, o: Run, key: Seq<char>, value: Seq<char>)
    requires
        0 <= i < a.len(),
        forall|k: int| 0 <= k < key.len() ==> #[trigger] key[k] != '=',
    ensures
        a[i] == "--skill"@ && i + 1 < a.len() ==> run_options(a, i, o) == run_options(
            a,
            i + 2,
            Run { skill: Some(a[i + 1]), ..o },
        ),
        a[i] == "--branch-strategy"@ && i + 1 < a.len() ==> run_options(a, i, o) == run_options(
            a,
            i + 2,
            Run { strategy: Some(a[i + 1]), ..o },
        ),
        a[i] == "--arg"@ && i + 1 < a.len() && a[i + 1] == key.push('=') + value ==> run_options(
            a,
            i,
            o,
        ) == run_options(a, i + 2, Run { args: o.args.insert(key, value), ..o }),
        a[i] == "--arg"@ && i + 1 < a.len() && a[i + 1] == key ==> run_options(a, i, o) is Err,
        a[i] != "--skill"@ && a[i] != "--branch-strategy"@ && a[i] != "--arg"@ ==> run_options(
            a,
            i,
            o,
        ) == run_options(a, i + 1, Run { words: o.words.push(a[i]), ..o }),
        run_options(a, a.len() as int, o) == Ok::<Run, Seq<char>>(o),
        no_run_options().skill is None && no_run_options().strategy is None
            && no_run_options().words.len() == 0 && no_run_options().args == Map::<
            Seq<char>,
            Seq<char>,
        >::empty(),
{
    lemma_options();
    let kv = key.push('=') + value;
    lemma_seek_char(kv, 0, '=');
    assert(kv[key.len() as int] == '=');
    let z = seek_char(kv, 0, '=');
    assert(z == key.len()) by {
        if z < key.len() {
            assert(kv[z] == key[z]);
        }
    }
    assert(kv.take(z) =~= key);
    assert(kv.skip(z + 1) =~= value);
    lemma_seek_char(key, 0, '=');
}

/// A strategy is `head`, `merge-to-head` or `branch:` and a name that is not blank, and nothing
/// else.
pub proof fn law_strategies(s: Seq<char>, name: Seq<char>)
    ensures
        plan_of("head"@) == Ok::<Plan, Seq<char>>(Plan::Head),
        plan_of("merge-to-head"@) == Ok::<Plan, Seq<char>>(Plan::MergeToHead),
        trim(name).len() > 0 ==> plan_of("branch:"@ + name) == Ok::<Plan, Seq<char>>(
            Plan::Branch(trim(name)),
        ),
        trim(name).len() == 0 ==> plan_of("branch:"@ + name) is Err,
        s != "head"@ && s != "merge-to-head"@ && !starts_with(s, "branch:"@) ==> plan_of(s) is Err,
{
    reveal_strlit("head");
    reveal_strlit("merge-to-head");
    reveal_strlit("branch:");
    assert("head"@.len() == 4 && "merge-to-head"@.len() == 13 && "branch:"@.len() == 7);
    assert("head"@[0] == 'h' && "merge-to-head"@[0] == 'm' && "branch:"@[0] == 'b');
    let b = "branch:"@ + name;
    assert(b[0] == 'b');
    assert(b.take(7) =~= "branch:"@);
    assert(b.skip(7) =~= name);
}

/// A server listens on the last address it is given, and every other argument is odd.
pub proof fn law_serve_options(a: Seq<Seq<char>>, i: int, addr: Seq<char>)
    requires
        0 <= i < a.len(),
    ensures
        a[i] == "--addr"@ && i + 1 < a.len() ==> serve_options(a, i, addr) == serve_options(
            a,
            i + 2,
            a[i + 1],
        ),
        a[i] != "--addr"@ ==> {
            &&& serve_options(a, i, addr).0 == serve_options(a, i + 1, addr).0
            &&& serve_options(a, i, addr).1 == seq![a[i]] + serve_options(a, i + 1, addr).1
        },
        serve_options(a, a.len() as int, addr) == (addr, Seq::<Seq<char>>::empty()),
{
}

/// The provider decides which key is needed, and without it the command exits with code 2. The
/// name of the model is that of the option, else that of the environment, else the default of the
/// provider. Another address is for OpenAI alone.
pub proof fn law_model_is_chosen(o: Common, env: ModelEnv)
    ensures
        o.openai && env.openai_key is None ==> chosen(o, env) == Err::<Choice, CliState>(
            CliState::Exit { code: 2, err: Some("OPENAI_API_KEY required"@), usage: false },
        ),
        !o.openai && env.anthropic_key is None ==> chosen(o, env) == Err::<Choice, CliState>(
            CliState::Exit { code: 2, err: Some("ANTHROPIC_API_KEY required"@), usage: false },
        ),
        o.openai ==> (env.openai_key matches Some(k) ==> (chosen(o, env) matches Ok(c) && c.openai
            && c.key == k@ && c.base_url == maybe(env.openai_base_url))),
        !o.openai ==> (env.anthropic_key matches Some(k) ==> (chosen(o, env) matches Ok(c)
            && !c.openai && c.key == k@ && c.base_url is None)),
        chosen(o, env) matches Ok(c) ==> c.name == (match o.model {
            Some(m) => m,
            None => match env.model {
                Some(m) => m@,
                None => if o.openai {
                    "gpt-4o-mini"@
                } else {
                    env.anthropic_default@
                },
            },
        }),
{
}

proof fn lemma_word_end(s: Seq<char>, i: int, z: int)
    requires
        0 <= i <= z <= s.len(),
        forall|k: int| i <= k < z ==> !is_white(#[trigger] s[k]),
        z == s.len() || is_white(s[z]),
    ensures
        word_end(s, i) == z,
    decreases z - i,
{
    if i < z {
        assert(!is_white(s[i]));
        lemma_word_end(s, i + 1, z);
    }
}

/// What starts a tool server is cut at its blanks: each word between them is one argument, in its
/// order.
pub proof fn law_words_are_cut_at_blanks(s: Seq<char>, i: int, z: int)
    requires
        0 <= i <= z <= s.len(),
        forall|k: int| i <= k < z ==> !is_white(#[trigger] s[k]),
        z == s.len() || is_white(s[z]),
    ensures
        i < z ==> words(s, i) == seq![s.subrange(i, z)] + words(s, z),
        i == z && z < s.len() ==> words(s, i) == words(s, i + 1),
        words(s, s.len() as int) == Seq::<Seq<char>>::empty(),
{
    if i < z {
        assert(!is_white(s[i]));
        lemma_word_end(s, i + 1, z);
    }
}

/// A body that does not begin with a brace is the prompt, without the blanks around it; any other
/// is a JSON text, and the prompt is its member `prompt`.
pub proof fn law_prompt_of_a_body(body: Seq<u8>, v: Val)
    requires
        valid_utf8(body),
    ensures
        ({
            let t = trim(decode_utf8(body));
            &&& t.len() == 0 || t[0] != '{' ==> body_prompt(body) == Ok::<Seq<char>, Seq<char>>(t)
            &&& t.len() > 0 && t[0] == '{' && parsed(encode_utf8(t)) == Some(v) ==> (match member_str(
                v,
                "prompt"@,
            ) {
                Some(p) => body_prompt(body) == Ok::<Seq<char>, Seq<char>>(p),
                None => body_prompt(body) is Err,
            })
            &&& t.len() > 0 && t[0] == '{' && parsed(encode_utf8(t)) is None ==> body_prompt(
                body,
            ) is Err
        }),
        forall|other: Seq<u8>| !valid_utf8(other) ==> #[trigger] body_prompt(other) is Err,
{
}

// ---------------------------------------------------------------------------------
// Running
// ---------------------------------------------------------------------------------
/// The prompt is what the skill makes of its values, or the words of the command line with blanks
/// between them. Without either the command tells how it is used.
pub proof fn law_prompt_of_a_run(o: Run, r: Seq<CliReply>)
    ensures
        o.skill matches Some(name) ==> (r.len() == 0 ==> prompt(o, r) == Part::<Seq<char>>::Stop(
            CliState::Need(CliNeed::LoadSkill { name, args: o.args }),
        )),
        o.skill is Some && r.len() > 0 ==> (r[0] matches CliReply::Skill(Ok(p)) ==> prompt(o, r)
            == Part::Go(p@, 1)),
        o.skill matches Some(name) ==> (r.len() > 0 ==> (r[0] matches CliReply::Skill(Err(e))
            ==> prompt(o, r) == Part::<Seq<char>>::Stop(
            CliState::Exit { code: 2, err: Some("skill "@ + name + ": "@ + e@), usage: false },
        ))),
        o.skill is None && o.words.len() == 0 ==> prompt(o, r) == Part::<Seq<char>>::Stop(
            CliState::Exit { code: 2, err: None, usage: true },
        ),
        o.skill is None && spaced(o.words, o.words.len() as int).len() > 0 ==> prompt(o, r)
            == Part::Go(spaced(o.words, o.words.len() as int), 0),
{
}

/// Words with blanks between them: a word more comes behind a blank.
pub proof fn law_words_are_joined(w: Seq<Seq<char>>, x: Seq<char>)
    ensures
        spaced(seq![x], 1) == x,
        w.len() > 0 ==> spaced(w.push(x), w.len() as int + 1) == spaced(w, w.len() as int) + " "@ + x,
{
    lemma_spaced_prefix(w, w.push(x), w.len() as int);
    reveal_strlit(" ");
    let s = spaced(w, w.len() as int);
    assert(s.push(' ') =~= s + " "@);
}

proof fn lemma_spaced_prefix(a: Seq<Seq<char>>, b: Seq<Seq<char>>, n: int)
    requires
        n <= a.len() <= b.len(),
        forall|i: int| 0 <= i < a.len() ==> a[i] == b[i],
    ensures
        spaced(a, n) == spaced(b, n),
    decreases n,
{
    if n > 1 {
        lemma_spaced_prefix(a, b, n - 1);
    }
}

/// The tool servers are started one after the other, in their order; one that cannot be started
/// ends the command with code 1, and so does a blank one.
pub proof fn law_servers_in_order(specs: Seq<Seq<char>>, i: int, r: Seq<CliReply>, k: int)
    requires
        0 <= i < specs.len(),
        0 <= k <= r.len(),
    ensures
        ({
            let w = words(specs[i], 0);
            &&& w.len() > 0 && k == r.len() ==> servers(specs, i, r, k) == Part::<()>::Stop(
                CliState::Need(CliNeed::StartMcp(w)),
            )
            &&& w.len() > 0 && k < r.len() ==> (r[k] matches CliReply::Done(Ok(_)) ==> servers(
                specs,
                i,
                r,
                k,
            ) == servers(specs, i + 1, r, k + 1))
            &&& w.len() > 0 && k < r.len() ==> (r[k] matches CliReply::Done(Err(m)) ==> servers(
                specs,
                i,
                r,
                k,
            ) == Part::<()>::Stop(
                CliState::Exit { code: 1, err: Some("mcp "@ + w[0] + ": "@ + m@), usage: false },
            ))
            &&& w.len() == 0 ==> servers(specs, i, r, k) == Part::<()>::Stop(
                CliState::Exit { code: 1, err: Some("empty --mcp value"@), usage: false },
            )
            &&& servers(specs, specs.len() as int, r, k) == Part::Go((), k)
        }),
{
}

/// A run in its order, where every step goes well: the store is opened if one is named; with a
/// strategy the current directory is asked for, the workspace prepared in it and gone to; then the
/// prompt is sent, with the chosen model and under the workspace, what came of it is reported,
/// and the workspace is finished with.
pub proof fn law_run_in_order(
    c: Common,
    o: Run,
    strategy: Plan,
    model: Choice,
    r: Seq<CliReply>,
    root: Seq<char>,
    path: Seq<char>,
    p: Prompted,
)
    requires
        o.skill is None,
        spaced(o.words, o.words.len() as int).len() > 0,
        c.mcp.len() == 0,
        c.sessions is Some,
        r.len() > 0 ==> r[0] == CliReply::Done(Ok(())),
        r.len() > 1 ==> (r[1] matches CliReply::Dir(Ok(d)) && d@ == root),
        r.len() > 2 ==> (r[2] matches CliReply::Dir(Ok(d)) && d@ == path),
        r.len() > 3 ==> r[3] == CliReply::Done(Ok(())),
        r.len() > 4 ==> r[4] == CliReply::Prompted(p),
        r.len() > 5 ==> r[5] == CliReply::Done(Ok(())),
        r.len() > 6 ==> r[6] == CliReply::Done(Ok(())),
    ensures
        ({
            let s = run_with(c, o, Some(strategy), model, r);
            let text = spaced(o.words, o.words.len() as int);
            &&& r.len() == 0 ==> s == CliState::Need(CliNeed::OpenStore(c.sessions->0))
            &&& r.len() == 1 ==> s == CliState::Need(CliNeed::CurrentDir)
            &&& r.len() == 2 ==> s == CliState::Need(CliNeed::Prepare { strategy, root })
            &&& r.len() == 3 ==> s == CliState::Need(CliNeed::ChangeDir(path))
            &&& r.len() == 4 ==> s == CliState::Need(
                CliNeed::Prompt { text, root: Some(path), model },
            )
            &&& r.len() == 5 ==> s == CliState::Need(
                CliNeed::Report { out: outcome(p).0, err: outcome(p).1 },
            )
            &&& r.len() == 6 ==> s == CliState::Need(CliNeed::Finish(outcome(p).3))
            &&& r.len() == 7 ==> s == (CliState::Exit {
                code: outcome(p).2,
                err: None,
                usage: false,
            })
        }),
{
    assert(servers(c.mcp, 0, r, 0) == Part::Go((), 0));
}

/// Without a strategy there is no workspace, and the run ends with the report.
pub proof fn law_run_without_a_workspace(
    c: Common,
    o: Run,
    model: Choice,
    r: Seq<CliReply>,
    p: Prompted,
)
    requires
        o.skill is None,
        spaced(o.words, o.words.len() as int).len() > 0,
        c.mcp.len() == 0,
        c.sessions is None,
        r.len() > 0 ==> r[0] == CliReply::Prompted(p),
        r.len() > 1 ==> r[1] is Done,
    ensures
        ({
            let s = run_with(c, o, None, model, r);
            let text = spaced(o.words, o.words.len() as int);
            &&& r.len() == 0 ==> s == CliState::Need(CliNeed::Prompt { text, root: None, model })
            &&& r.len() == 1 ==> s == CliState::Need(
                CliNeed::Report { out: outcome(p).0, err: outcome(p).1 },
            )
            &&& r.len() >= 2 ==> s == (CliState::Exit {
                code: outcome(p).2,
                err: None,
                usage: false,
            })
        }),
{
    assert(servers(c.mcp, 0, r, 0) == Part::Go((), 0));
}

/// A step that fails ends the run with code 1 and a text that says which step and why; nothing
/// behind it is done.
pub proof fn law_failed_steps_end_the_run(
    d: Seq<char>,
    strategy: Plan,
    r: Seq<CliReply>,
    k: int,
    need: CliNeed,
    what: Seq<char>,
)
    requires
        0 <= k < r.len(),
    ensures
        r[k] matches CliReply::Done(Err(m)) ==> done(need, what, r, k) == Part::<()>::Stop(
            CliState::Exit { code: 1, err: Some(what + m@), usage: false },
        ) && (store(Some(d), r, k) matches Part::Stop(CliState::Exit { code, err: _, usage: _ })
            && code == 1),
        r[k] matches CliReply::Dir(Err(m)) ==> workspace(Some(strategy), r, k) == Part::<
            Option<Seq<char>>,
        >::Stop(CliState::Exit { code: 1, err: Some("cwd: "@ + m@), usage: false }),
        k + 1 < r.len() ==> (r[k] matches CliReply::Dir(Ok(_)) ==> (r[k + 1] matches CliReply::Dir(
            Err(m),
        ) ==> workspace(Some(strategy), r, k) == Part::<Option<Seq<char>>>::Stop(
            CliState::Exit {
                code: 1,
                err: Some("branch strategy prepare: "@ + m@),
                usage: false,
            },
        ))),
{
}

/// An answer is printed, with a newline at its end, and the run succeeds; how many turns it took is
/// told if the work was done or took more than one. Anything else is an error that is told,
/// with code 1, and the reason for which the workspace is finished with as failed.
pub proof fn law_outcomes(text: String, completed: bool, turns: usize, e: String)
    ensures
        ({
            let (out, err, code, why) = outcome(Prompted::Answer { text, completed, turns });
            &&& code == 0 && why is None
            &&& out matches Some(x) && x.last() == '\n' && (x == text@ || x == text@.push('\n'))
            &&& text@.len() > 0 && text@.last() == '\n' ==> out == Some(text@)
            &&& completed ==> err == Some(
                "[completion signal fired after "@ + dec(turns as nat) + " turn(s)]"@,
            )
            &&& !completed && turns > 1 ==> err == Some("["@ + dec(turns as nat) + " turn(s)]"@)
            &&& !completed && turns <= 1 ==> err is None
        }),
        outcome(Prompted::SendFailed(e)) == (
            None::<Seq<char>>,
            Some("send failed: "@ + e@),
            1u8,
            Some(e@),
        ),
        outcome(Prompted::Failed(e)) == (
            None::<Seq<char>>,
            Some("session error: "@ + e@),
            1u8,
            Some(e@),
        ),
        outcome(Prompted::Dropped) == (
            None::<Seq<char>>,
            Some("session dropped reply channel"@),
            1u8,
            Some("session dropped reply channel"@),
        ),
{
}

/// That the workspace could not be finished with is told, unless the prompt was not even sent; the
/// code stays that of the prompt.
pub proof fn law_finish_may_fail(p: Prompted, r: Seq<CliReply>, k: int)
    requires
        0 <= k,
        k + 1 < r.len(),
        r[k] is Done,
    ensures
        r[k + 1] matches CliReply::Done(Err(m)) ==> wind_up(p, true, r, k) == (CliState::Exit {
            code: outcome(p).2,
            err: if p is SendFailed {
                None
            } else {
                Some("branch strategy finish: "@ + m@)
            },
            usage: false,
        }),
{
}

/// The arguments of a run decide it: options that cannot be read and a strategy that is unknown
/// exit with code 2, a missing key too, and otherwise the run goes on with what they say.
pub proof fn law_arguments_decide_the_run(args: Seq<Seq<char>>, env: CliEnv, r: Seq<CliReply>)
    ensures
        ({
            let (c, rest) = common(args, 0, no_options(maybe(env.sessions_dir)));
            match run_options(rest, 0, no_run_options()) {
                Err(m) => run_state(args, env, r) == (CliState::Exit {
                    code: 2,
                    err: Some(m),
                    usage: false,
                }),
                Ok(o) => match o.strategy {
                    None => chosen(c, env.models) matches Ok(model) ==> run_state(args, env, r)
                        == run_with(c, o, None, model, r),
                    Some(s) => match plan_of(s) {
                        Err(m) => run_state(args, env, r) == (CliState::Exit {
                            code: 2,
                            err: Some(m),
                            usage: false,
                        }),
                        Ok(p) => chosen(c, env.models) matches Ok(model) ==> run_state(args, env, r)
                            == run_with(c, o, Some(p), model, r),
                    },
                },
            }
        }),
{
}

/// A server in its order, where every step goes well: the store is opened if one is named, and then
/// it listens on its address, with the chosen model, until it ends. Odd arguments are refused.
pub proof fn law_serve_in_order(
    args: Seq<Seq<char>>,
    env: CliEnv,
    r: Seq<CliReply>,
    c: Common,
    rest: Seq<Seq<char>>,
    model: Choice,
)
    requires
        common(args, 0, no_options(maybe(env.sessions_dir))) == (c, rest),
        chosen(c, env.models) == Ok::<Choice, CliState>(model),
        c.mcp.len() == 0,
        c.sessions is Some,
        r.len() > 0 ==> r[0] == CliReply::Done(Ok(())),
        r.len() > 1 ==> r[1] is Done,
    ensures
        ({
            let (addr, odd) = serve_options(rest, 0, "0.0.0.0:3583"@);
            let s = serve_state(args, env, r);
            &&& odd.len() > 0 ==> (s matches CliState::Exit { code, err, usage } && code == 2 && usage
                && err is Some)
            &&& odd.len() == 0 && r.len() == 0 ==> s == CliState::Need(
                CliNeed::OpenStore(c.sessions->0),
            )
            &&& odd.len() == 0 && r.len() == 1 ==> s == CliState::Need(
                CliNeed::Serve { addr, model },
            )
            &&& odd.len() == 0 && r.len() == 2 ==> (match r[1] {
                CliReply::Done(Ok(_)) => s == (CliState::Exit { code: 0, err: None, usage: false }),
                CliReply::Done(Err(m)) => s == (CliState::Exit {
                    code: 1,
                    err: Some("serve failed: "@ + m@),
                    usage: false,
                }),
                _ => true,
            })
        }),
{
    assert(servers(c.mcp, 0, r, 0) == Part::Go((), 0));
}

/// The parts of a run follow each other: first the prompt, then the tool servers, then the store, then
/// the workspace, and only then the prompt is sent. A part that stops the run stops all behind it.
pub proof fn law_run_part_by_part(
    c: Common,
    o: Run,
    plan: Option<Plan>,
    model: Choice,
    r: Seq<CliReply>,
)
    ensures
        ({
            let s = run_with(c, o, plan, model, r);
            match prompt(o, r) {
                Part::Stop(x) => s == x,
                Part::Go(text, a) => match servers(c.mcp, 0, r, a) {
                    Part::Stop(x) => s == x,
                    Part::Go(_, b) => match store(c.sessions, r, b) {
                        Part::Stop(x) => s == x,
                        Part::Go(_, d) => match workspace(plan, r, d) {
                            Part::Stop(x) => s == x,
                            Part::Go(root, e) => {
                                &&& e >= r.len() ==> s == CliState::Need(
                                    CliNeed::Prompt { text, root, model },
                                )
                                &&& 0 <= e < r.len() ==> (r[e] matches CliReply::Prompted(p) ==> s
                                    == wind_up(p, root is Some, r, e + 1))
                            },
                        },
                    },
                },
            }
        }),
        plan is None ==> workspace(plan, r, 0) == Part::Go(None::<Seq<char>>, 0),
        c.sessions is None ==> store(c.sessions, r, 0) == Part::Go((), 0),
{
}

/// An option at the end of the line that lacks its value is dropped, and nothing with it.
pub proof fn law_options_without_a_value(a: Seq<Seq<char>>, i: int, o: Common, run: Run, addr: Seq<char>)
    requires
        0 <= i,
        i + 1 == a.len(),
    ensures
        a[i] == "--model"@ || a[i] == "--sessions"@ || a[i] == "--mcp"@ ==> common(a, i, o) == (
            o,
            Seq::<Seq<char>>::empty(),
        ),
        a[i] == "--skill"@ || a[i] == "--arg"@ || a[i] == "--branch-strategy"@ ==> run_options(a, i, run)
            == Ok::<Run, Seq<char>>(run),
        a[i] == "--addr"@ ==> serve_options(a, i, addr) == (addr, Seq::<Seq<char>>::empty()),
{
    lemma_options();
    reveal_with_fuel(common, 2);
    reveal_with_fuel(run_options, 2);
    reveal_with_fuel(serve_options, 2);
}

} // verus!

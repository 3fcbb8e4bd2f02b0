//! What holds of every script.

use vstd::prelude::*;
use vstd::utf8::*;

use super::exec::{
    answers, builtin, chain_steps, child_env, child_result, child_stderr, echo_output, execution, exit_code, expand,
    expand_argv, expand_assigns, expand_plain, export, external, first_out, has_merge, line, overlay, pipe, resolve, route,
    run_chain, run_told, run_units, script, set_vars, simple, spaced, stages, strip_newlines, touch,
    unset, unwired, Action, Answer, ChildInput, ChildOutcome, Execution, Flow, Input, Need, OpenMode, Reply, Run, Shell, Told,
    Wiring, World,
};
use super::lex::Part;
use super::parse::{script_items, Chain, Command, Redir, SeqOp, Unit};
use super::{fault_text, Fault};
use crate::json::lemma_signed_number;
use crate::paths::path_in;
use crate::text::{
    dec, lemma_encode_concat, lemma_seek_char, readable, seek_char, signed_dec, signed_value,
    texts,
};

verus! {

// ---------------------------------------------------------------------------------
// Lists and pipelines
// ---------------------------------------------------------------------------------
/// The exit code of an `&&` / `||` list is that of the last pipeline of it that was run: the
/// code of a step that is run decides what follows, and is the code of the list where
/// nothing follows.
pub proof fn law_step_decides(
    w: World,
    rs: Seq<Answer>,
    n: nat,
    tail: Seq<(SeqOp, Seq<Command>)>,
    k: int,
    last: i32,
    code: i32,
    w2: World,
)
    requires
        0 <= k < tail.len(),
        (tail[k].0 == SeqOp::AndIf) == (last == 0),
        pipe(w, rs, n, tail[k].1) == Run::Done(Flow::Done(code), w2),
    ensures
        chain_steps(w, rs, n, tail, k, last) == chain_steps(w2, rs, n, tail, k + 1, code),
        k + 1 == tail.len() ==> chain_steps(w, rs, n, tail, k, last) == Run::Done(
            Flow::Done(code),
            w2,
        ),
        k + 1 < tail.len() && tail[k + 1].0 == SeqOp::AndIf && code == 0 ==> (pipe(
            w2,
            rs,
            n,
            tail[k + 1].1,
        ) matches Run::Need(need) ==> chain_steps(w, rs, n, tail, k, last) == Run::<Flow>::Need(
            need,
        )),
        k + 1 < tail.len() && tail[k + 1].0 == SeqOp::OrIf && code != 0 ==> (pipe(
            w2,
            rs,
            n,
            tail[k + 1].1,
        ) matches Run::Need(need) ==> chain_steps(w, rs, n, tail, k, last) == Run::<Flow>::Need(
            need,
        )),
{
}

/// A list whose steps are all skipped from some step on has the exit code so far.
pub proof fn law_skipped_steps_keep_the_code(
    w: World,
    rs: Seq<Answer>,
    n: nat,
    tail: Seq<(SeqOp, Seq<Command>)>,
    k: int,
    last: i32,
)
    requires
        0 <= k <= tail.len(),
        forall|i: int|
            k <= i < tail.len() ==> ((#[trigger] tail[i]).0 == SeqOp::AndIf) != (last == 0),
    ensures
        chain_steps(w, rs, n, tail, k, last) == Run::Done(Flow::Done(last), w),
    decreases tail.len() - k,
{
    if k < tail.len() {
        assert((tail[k].0 == SeqOp::AndIf) != (last == 0));
        law_skipped_steps_keep_the_code(w, rs, n, tail, k + 1, last);
    }
}

/// The first pipeline of a list is run first, and its exit code is where the steps start;
/// alone it is the list.
pub proof fn law_head_is_run_first(w: World, rs: Seq<Answer>, n: nat, c: Chain)
    ensures
        c.tail.len() == 0 ==> run_chain(w, rs, n, c) == pipe(w, rs, n, c.head),
        pipe(w, rs, n, c.head) matches Run::Done(Flow::Done(code), w2) ==> run_chain(w, rs, n, c)
            == chain_steps(w2, rs, n, c.tail, 0, code),
        pipe(w, rs, n, c.head) matches Run::Done(Flow::Exit(code), w2) ==> run_chain(w, rs, n, c)
            == Run::Done(Flow::Exit(code), w2),
{
}

/// `exit` in a step ends the list, and the script with it.
pub proof fn law_exit_leaves(
    w: World,
    rs: Seq<Answer>,
    n: nat,
    u: Seq<Unit>,
    k: int,
    c: Chain,
    code: i32,
    w1: World,
    w2: World,
)
    requires
        0 <= k < u.len(),
        u[k] == Unit::Run(c),
        c.tail.len() > 0,
        pipe(w, rs, n, c.head) == Run::Done(Flow::Done(0), w1),
        c.tail[0].0 == SeqOp::AndIf,
        pipe(w1, rs, n, c.tail[0].1) == Run::Done(Flow::Exit(code), w2),
    ensures
        run_units(w, rs, n, u, k) == Run::Done(code, w2),
{
    assert(chain_steps(w1, rs, n, c.tail, 0, 0) == Run::Done(Flow::Exit(code), w2));
    assert(run_chain(w, rs, n, c) == Run::Done(Flow::Exit(code), w2));
}

/// A pipeline of one command is that command, which reads nothing from the pipeline. In a
/// longer one each command reads what the one before wrote, only the last writes to the
/// output, and its exit code is that of the pipeline.
pub proof fn law_stages_are_joined(
    w: World,
    rs: Seq<Answer>,
    n: nat,
    p: Seq<Command>,
    k: int,
    input: Seq<u8>,
)
    requires
        0 <= k < p.len(),
    ensures
        p.len() == 1 ==> pipe(w, rs, n, p) == simple(w, rs, n, p[0], None),
        p.len() > 1 ==> pipe(w, rs, n, p) == stages(w, rs, n, p, 0, Seq::empty()),
        k + 1 == p.len() ==> stages(w, rs, n, p, k, input) == simple(w, rs, n, p[k], Some(input)),
        k + 1 < p.len() ==> (simple(World { out: Seq::empty(), ..w }, rs, n, p[k], Some(input)) matches
            Run::Done(Flow::Done(_), w2) ==> stages(w, rs, n, p, k, input) == stages(
            World { out: w.out, ..w2 },
            rs,
            n,
            p,
            k + 1,
            w2.out,
        )),
{
}

/// The items of a script run in their order. The exit code of each is what `last_exit` is
/// behind it, an assignment leaves 0, and the script ends with that of the last.
pub proof fn law_items_run_in_order(w: World, rs: Seq<Answer>, n: nat, u: Seq<Unit>, k: int)
    requires
        0 <= k < u.len(),
    ensures
        u[k] matches Unit::Run(c) ==> (run_chain(w, rs, n, c) matches Run::Done(
            Flow::Done(code),
            w2,
        ) ==> {
            let w3 = World { sh: Shell { last_exit: code, ..w2.sh }, ..w2 };
            &&& run_units(w, rs, n, u, k) == run_units(w3, rs, n, u, k + 1)
            &&& k + 1 == u.len() ==> run_units(w, rs, n, u, k) == Run::Done(code, w3)
        }),
        u[k] matches Unit::Assign(name, word) ==> (expand(w, rs, n, word, 0, Seq::empty()) matches
            Run::Done(v, w2) ==> {
            let w3 = World {
                sh: Shell { env: w2.sh.env.insert(name, v), last_exit: 0, ..w2.sh },
                ..w2
            };
            &&& run_units(w, rs, n, u, k) == run_units(w3, rs, n, u, k + 1)
            &&& k + 1 == u.len() ==> run_units(w, rs, n, u, k) == Run::Done(0i32, w3)
        }),
{
    reveal_with_fuel(run_units, 2);
}

/// An execution starts with nothing written and no answer used, tells the exit code and what
/// was written, and leaves the shell as the script did. A script that cannot be read ends
/// with code 2, a line that says why, and the shell as it was.
pub proof fn law_execution_tells_the_script(
    sh: Shell,
    timeout_secs: int,
    rs: Seq<Answer>,
    src: Seq<char>,
)
    ensures
        ({
            let w = World { sh, out: Seq::empty(), err: Seq::empty(), used: 0, timeout_secs };
            &&& script_items(src) matches Err(e) ==> execution(sh, timeout_secs, rs, src) == (
            Execution::Done {
                sh,
                exit_code: 2,
                stdout: Seq::empty(),
                stderr: Seq::<u8>::empty() + encode_utf8("vshell: "@ + fault_text(e) + "\n"@),
            })
            &&& script_items(src) matches Ok(u) ==> match run_units(
                w,
                rs,
                encode_utf8(src).len(),
                u,
                0,
            ) {
                Run::Done(code, w2) => execution(sh, timeout_secs, rs, src) == (Execution::Done {
                    sh: w2.sh,
                    exit_code: code,
                    stdout: w2.out,
                    stderr: w2.err,
                }),
                Run::Need(need) => execution(sh, timeout_secs, rs, src) == Execution::Need(need),
                Run::Fail(_, w2) => execution(sh, timeout_secs, rs, src) matches Execution::Done {
                    sh: after,
                    exit_code: code,
                    stdout: out,
                    stderr: _,
                } && after == w2.sh && code == 2 && out == w2.out,
            }
        }),
{
}

/// The assignments in front of a command are expanded first, then its words, then where it
/// sends its streams. Without words it sets its variables and ends with 0. A built-in keeps
/// out of the variables in front of it; any other command is a child that gets them.
pub proof fn law_command_by_its_first_word(
    w: World,
    rs: Seq<Answer>,
    n: nat,
    c: Command,
    stdin: Option<Seq<u8>>,
    local: Seq<(Seq<char>, Seq<char>)>,
    w2: World,
    argv: Seq<Seq<char>>,
    w3: World,
)
    requires
        expand_assigns(w, rs, n, c.assigns, 0, Seq::empty()) == Run::Done(local, w2),
        c.argv.len() > 0 ==> expand_argv(w2, rs, n, c.argv, 0, Seq::empty()) == Run::Done(argv, w3),
        c.redirects.len() == 0,
    ensures
        c.argv.len() == 0 ==> simple(w, rs, n, c, stdin) == Run::Done(
            Flow::Done(0),
            World { sh: set_vars(w2.sh, local, 0), ..w2 },
        ),
        c.argv.len() > 0 && (argv[0] == "echo"@ || argv[0] == "pwd"@ || argv[0] == "cd"@ || argv[0]
            == "export"@ || argv[0] == "unset"@ || argv[0] == "true"@ || argv[0] == "false"@
            || argv[0] == ":"@) ==> (run_told(w3, rs, argv, stdin is Some) matches Run::Done(t, w4)
            ==> simple(w, rs, n, c, stdin) == Run::Done(
            Flow::Done(t.code),
            World { out: w4.out + t.out, err: w4.err + t.err, ..w4 },
        )),
        c.argv.len() > 0 && argv[0] == "exit"@ ==> simple(w, rs, n, c, stdin) == Run::Done(
            Flow::Exit(exit_code(w3.sh, argv)),
            w3,
        ),
        c.argv.len() > 0 && !(argv[0] == "echo"@ || argv[0] == "pwd"@ || argv[0] == "cd"@ || argv[0]
            == "export"@ || argv[0] == "unset"@ || argv[0] == "true"@ || argv[0] == "false"@
            || argv[0] == ":"@ || argv[0] == "exit"@) ==> simple(w, rs, n, c, stdin) == external(
            w3,
            rs,
            n,
            argv,
            local,
            c.redirects,
            unwired(),
            stdin,
        ),
{
    lemma_builtin_names();
    let r = c.redirects;
    if c.argv.len() == 0 {
        assert(touch(World { sh: set_vars(w2.sh, local, 0), ..w2 }, rs, r, 0) == Run::Done(
            (),
            World { sh: set_vars(w2.sh, local, 0), ..w2 },
        ));
    } else {
        assert(resolve(w3, rs, n, r, 0, unwired()) == Run::Done(unwired(), w3));
        assert(!has_merge(r));
    }
}

// ---------------------------------------------------------------------------------
// Words
// ---------------------------------------------------------------------------------
/// What a part stands for where it runs nothing.
pub open spec fn plain_value(sh: Shell, p: Part) -> Seq<char> {
    match p {
        Part::Literal(s) => s,
        Part::Var(name) => if sh.env.contains_key(name) {
            sh.env[name]
        } else {
            Seq::empty()
        },
        Part::CmdSub(_) => Seq::empty(),
    }
}

/// A word that runs nothing stands for its parts, one behind the other: a literal for itself,
/// a variable for its value, and for nothing where it is not set.
pub proof fn law_word_is_its_parts(w: World, rs: Seq<Answer>, n: nat, parts: Seq<Part>)
    requires
        forall|k: int| 0 <= k < parts.len() ==> !((#[trigger] parts[k]) is CmdSub),
    ensures
        expand(w, rs, n, parts, 0, Seq::empty()) == Run::Done(
            parts.map_values(|p: Part| plain_value(w.sh, p)).flatten(),
            w,
        ),
{
    let l = parts.map_values(|p: Part| plain_value(w.sh, p));
    lemma_parts(w, rs, n, parts, 0, Seq::empty());
    assert(l.skip(0) =~= l);
    assert(Seq::<char>::empty() + l.flatten() =~= l.flatten());
}

proof fn lemma_parts(
    w: World,
    rs: Seq<Answer>,
    n: nat,
    parts: Seq<Part>,
    k: int,
    acc: Seq<char>,
)
    requires
        0 <= k <= parts.len(),
        forall|k: int| 0 <= k < parts.len() ==> !((#[trigger] parts[k]) is CmdSub),
    ensures
        expand(w, rs, n, parts, k, acc) == Run::Done(
            acc + parts.map_values(|p: Part| plain_value(w.sh, p)).skip(k).flatten(),
            w,
        ),
    decreases parts.len() - k,
{
    let l = parts.map_values(|p: Part| plain_value(w.sh, p));
    if k < parts.len() {
        assert(!(parts[k] is CmdSub));
        let more = acc + plain_value(w.sh, parts[k]);
        assert(acc + Seq::<char>::empty() =~= acc);
        lemma_parts(w, rs, n, parts, k + 1, more);
        assert(l.skip(k).drop_first() =~= l.skip(k + 1));
        assert(l.skip(k).flatten() == l.skip(k).first() + l.skip(k + 1).flatten());
        assert(more + l.skip(k + 1).flatten() =~= acc + l.skip(k).flatten());
    } else {
        assert(l.skip(k).flatten() =~= Seq::empty());
        assert(acc + Seq::<char>::empty() =~= acc);
    }
}

/// A text without its trailing newlines is the text up to where only newlines follow, and does
/// not end with one.
pub proof fn law_trailing_newlines_go(s: Seq<char>)
    ensures
        strip_newlines(s).len() <= s.len(),
        strip_newlines(s) == s.take(strip_newlines(s).len() as int),
        strip_newlines(s).len() > 0 ==> strip_newlines(s).last() != '\n',
        forall|i: int| strip_newlines(s).len() <= i < s.len() ==> s[i] == '\n',
    decreases s.len(),
{
    if s.len() > 0 && s.last() == '\n' {
        let t = s.drop_last();
        law_trailing_newlines_go(t);
        assert(s.take(strip_newlines(t).len() as int) =~= t.take(strip_newlines(t).len() as int));
        assert forall|i: int| strip_newlines(s).len() <= i < s.len() implies s[i] == '\n' by {
            if i < t.len() {
                assert(s[i] == t[i]);
            }
        }
    } else {
        assert(s.take(s.len() as int) =~= s);
    }
}

/// `$(body)` runs the body as a script of its own in the same shell and stands for what it
/// wrote, without the trailing newlines. Its error output and its exit code stay; its
/// output does not reach the output.
pub proof fn law_substitution_is_what_it_wrote(
    w: World,
    rs: Seq<Answer>,
    n: nat,
    body: Seq<char>,
    code: i32,
    w2: World,
)
    requires
        encode_utf8(body).len() < n,
        script(World { out: Seq::empty(), err: Seq::empty(), ..w }, rs, body) == Run::Done(code, w2),
    ensures
        expand(w, rs, n, seq![Part::CmdSub(body)], 0, Seq::empty()) matches Run::Done(v, w3) && {
            &&& v == strip_newlines(readable(w2.out))
            &&& w3.out == w.out
            &&& w3.err == w.err + w2.err
            &&& w3.sh == (Shell { last_exit: code, ..w2.sh })
            &&& w3.used == w2.used
        },
{
    reveal_with_fuel(expand, 2);
    assert(Seq::<char>::empty() + strip_newlines(readable(w2.out)) =~= strip_newlines(
        readable(w2.out),
    ));
}

/// The words of a command are expanded one by one from the left, each to one argument.
pub proof fn law_one_argument_for_each_word(
    w: World,
    rs: Seq<Answer>,
    n: nat,
    l: Seq<Seq<Part>>,
    k: int,
    acc: Seq<Seq<char>>,
)
    requires
        0 <= k <= l.len(),
    ensures
        expand_argv(w, rs, n, l, k, acc) matches Run::Done(argv, _) ==> argv.len() == acc.len()
            + l.len() - k && argv.take(acc.len() as int) == acc,
        k < l.len() ==> (expand_argv(w, rs, n, l, k, acc) matches Run::Done(argv, _) ==> (expand(
            w,
            rs,
            n,
            l[k],
            0,
            Seq::empty(),
        ) matches Run::Done(v, w2) && argv[acc.len() as int] == v && expand_argv(
            w2,
            rs,
            n,
            l,
            k + 1,
            acc.push(v),
        ) == expand_argv(w, rs, n, l, k, acc))),
    decreases l.len() - k,
{
    if k < l.len() {
        if let Run::Done(v, w2) = expand(w, rs, n, l[k], 0, Seq::empty()) {
            law_one_argument_for_each_word(w2, rs, n, l, k + 1, acc.push(v));
            if let Run::Done(argv, _) = expand_argv(w, rs, n, l, k, acc) {
                assert(argv.take(acc.len() as int) =~= argv.take(acc.len() as int + 1).drop_last());
                assert(acc.push(v).drop_last() =~= acc);
                assert(argv.take(acc.len() as int + 1)[acc.len() as int] == v);
            }
        }
    } else {
        assert(acc.take(acc.len() as int) =~= acc);
    }
}

// ---------------------------------------------------------------------------------
// Built-ins
// ---------------------------------------------------------------------------------
/// `echo` writes its arguments with one space between them and a newline at the end, which
/// `-n` leaves out.
pub proof fn law_echo_tells_its_arguments(name: Seq<char>, a: Seq<Seq<char>>, x: Seq<char>)
    requires
        a.len() > 0,
    ensures
        echo_output(seq![name]) == encode_utf8("\n"@),
        x != "-n"@ ==> echo_output(seq![name, x]) == encode_utf8(x) + encode_utf8("\n"@),
        echo_output(seq![name, "-n"@]) == Seq::<u8>::empty(),
        echo_output(seq![name, "-n"@, x]) == encode_utf8(x),
        a[0] != "-n"@ ==> echo_output(seq![name] + a).subrange(
            0,
            echo_output(seq![name] + a).len() - encode_utf8("\n"@).len(),
        ) + encode_utf8(" "@) + encode_utf8(x) + encode_utf8("\n"@) == echo_output(
            seq![name] + a.push(x),
        ),
        echo_output(seq![name, "-n"@] + a) + encode_utf8(" "@) + encode_utf8(x) == echo_output(
            seq![name, "-n"@] + a.push(x),
        ),
{
    reveal_with_fuel(spaced, 3);
    let nl = encode_utf8("\n"@);
    let p = seq![name] + a;
    let q = seq![name] + a.push(x);
    assert(Seq::<u8>::empty() + nl =~= nl);
    if a[0] != "-n"@ {
        lemma_spaced_prefix(p, q, 1, p.len() as int);
        let s = spaced(p, 1, p.len() as int);
        assert(echo_output(p) == s + nl);
        assert((s + nl).subrange(0, s.len() as int) =~= s);
        assert(p[1] == a[0] && q[1] == a[0]);
        assert(q[q.len() - 1] == x);
    }
    let p2 = seq![name, "-n"@] + a;
    let q2 = seq![name, "-n"@] + a.push(x);
    lemma_spaced_prefix(p2, q2, 2, p2.len() as int);
    assert(q2[q2.len() - 1] == x);
}

proof fn lemma_spaced_prefix(p: Seq<Seq<char>>, q: Seq<Seq<char>>, start: int, i: int)
    requires
        0 <= start <= i <= p.len() <= q.len(),
        forall|k: int| 0 <= k < p.len() ==> p[k] == q[k],
    ensures
        spaced(p, start, i) == spaced(q, start, i),
    decreases i,
{
    if i > start {
        lemma_spaced_prefix(p, q, start, i - 1);
    }
}

/// `pwd` writes the directory, `true` and `:` end with 0, `false` with 1, and none of them
/// changes the shell.
pub proof fn law_plain_builtins(w: World, rs: Seq<Answer>, argv: Seq<Seq<char>>, piped: bool)
    requires
        argv.len() > 0,
    ensures
        argv[0] == "pwd"@ ==> run_told(w, rs, argv, piped) == Run::Done(
            Told { out: encode_utf8(w.sh.cwd + "\n"@), err: Seq::empty(), code: 0 },
            w,
        ),
        argv[0] == "true"@ || argv[0] == ":"@ ==> run_told(w, rs, argv, piped) == Run::Done(
            Told { out: Seq::empty(), err: Seq::empty(), code: 0 },
            w,
        ),
        argv[0] == "false"@ ==> run_told(w, rs, argv, piped) == Run::Done(
            Told { out: Seq::empty(), err: Seq::empty(), code: 1 },
            w,
        ),
        argv[0] == "echo"@ ==> run_told(w, rs, argv, piped) == Run::Done(
            Told { out: echo_output(argv), err: Seq::empty(), code: 0 },
            w,
        ),
{
    lemma_builtin_names();
}

proof fn lemma_builtin_names()
    ensures
        "echo"@.len() == 4 && "echo"@[0] == 'e',
        "pwd"@.len() == 3,
        "cd"@.len() == 2,
        "export"@.len() == 6,
        "unset"@.len() == 5 && "unset"@[0] == 'u',
        "false"@.len() == 5 && "false"@[0] == 'f',
        "true"@.len() == 4 && "true"@[0] == 't',
        "exit"@.len() == 4 && "exit"@[0] == 'e' && "exit"@[1] == 'x',
        "echo"@[1] == 'c',
        ":"@.len() == 1,
{
    reveal_strlit("echo");
    reveal_strlit("pwd");
    reveal_strlit("cd");
    reveal_strlit("export");
    reveal_strlit("unset");
    reveal_strlit("false");
    reveal_strlit("true");
    reveal_strlit("exit");
    reveal_strlit(":");
}

/// `cd` asks for the directory that is named, taken from where the shell is, or for `HOME`
/// where none is named, and the shell is then at the path that was answered. Nothing else of
/// it changes, and where the directory cannot be had nothing at all.
pub proof fn law_cd_goes_where_it_says(w: World, rs: Seq<Answer>, argv: Seq<Seq<char>>)
    requires
        argv.len() > 0,
        argv[0] == "cd"@,
        argv.len() > 1 || w.sh.env.contains_key("HOME"@),
        w.used >= 0,
    ensures
        ({
            let dir = path_in(
                w.sh.cwd,
                if argv.len() > 1 {
                    argv[1]
                } else {
                    w.sh.env["HOME"@]
                },
            );
            &&& w.used >= rs.len() ==> run_told(w, rs, argv, false) == Run::<Told>::Need(
                Need::Canonicalize(dir),
            )
            &&& w.used < rs.len() ==> (run_told(w, rs, argv, false) matches Run::Done(t, w2) && {
                &&& w2.used == w.used + 1
                &&& rs[w.used] matches Answer::Path(p) ==> t.code == 0 && t.err.len() == 0 && w2.sh
                    == (Shell { cwd: p, ..w.sh })
                &&& rs[w.used] matches Answer::Failed(m) ==> t.code == 1 && w2.sh == w.sh && t.err
                    == encode_utf8("cd: "@ + dir + ": "@ + m + "\n"@)
                &&& t.out.len() == 0
            })
        }),
{
    lemma_builtin_names();
}

/// `unset` takes each name that it is given out of the shell and lets every other one be.
pub proof fn law_unset_takes_its_names(sh: Shell, argv: Seq<Seq<char>>, k: int, name: Seq<char>)
    requires
        0 <= k <= argv.len(),
    ensures
        ({
            let after = unset(sh, argv, k);
            let named = exists|i: int| k <= i < argv.len() && #[trigger] argv[i] == name;
            &&& named ==> !after.env.contains_key(name) && !after.exported.contains(name)
            &&& !named ==> after.env.contains_key(name) == sh.env.contains_key(name)
                && after.env[name] == sh.env[name] && after.exported.contains(name)
                == sh.exported.contains(name)
            &&& after.cwd == sh.cwd && after.last_exit == sh.last_exit
        }),
    decreases argv.len() - k,
{
    if k < argv.len() {
        let sh2 = Shell {
            env: sh.env.remove(argv[k]),
            exported: sh.exported.remove(argv[k]),
            ..sh
        };
        law_unset_takes_its_names(sh2, argv, k + 1, name);
        if exists|i: int| k <= i < argv.len() && #[trigger] argv[i] == name {
            let i = choose|i: int| k <= i < argv.len() && #[trigger] argv[i] == name;
            if i > k {
                assert(k + 1 <= i && argv[i] == name);
            } else {
                if !(exists|i: int| k + 1 <= i < argv.len() && #[trigger] argv[i] == name) {
                    assert(!sh2.env.contains_key(name));
                }
            }
        } else {
            assert(argv[k] != name);
            assert(sh.env.remove(argv[k]).contains_key(name) == sh.env.contains_key(name));
            if sh.env.contains_key(name) {
                assert(sh2.env[name] == sh.env[name]);
            }
        }
    }
}

/// `export NAME=VALUE` sets the variable and `export NAME` lets it be; both export it, and
/// no other name is touched.
pub proof fn law_export_exports(sh: Shell, cmd: Seq<char>, name: Seq<char>, value: Seq<char>)
    requires
        name.len() > 0,
        forall|i: int| 0 <= i < name.len() ==> name[i] != '=',
    ensures
        export(sh, seq![cmd, name.push('=') + value], 1) == (
            Told { out: Seq::<u8>::empty(), err: Seq::<u8>::empty(), code: 0i32 },
            Shell { env: sh.env.insert(name, value), exported: sh.exported.insert(name), ..sh },
        ),
        export(sh, seq![cmd, name], 1) == (
            Told { out: Seq::<u8>::empty(), err: Seq::<u8>::empty(), code: 0i32 },
            Shell { exported: sh.exported.insert(name), ..sh },
        ),
{
    reveal_with_fuel(export, 2);
    let a = name.push('=') + value;
    let eq = seek_char(a, 0, '=');
    lemma_seek_char(a, 0, '=');
    assert(a[name.len() as int] == '=');
    assert forall|i: int| 0 <= i < name.len() implies a[i] != '=' by {
        assert(a[i] == name[i]);
    }
    assert(eq == name.len());
    assert(a.take(eq) =~= name);
    assert(a.skip(eq + 1) =~= value);
    lemma_seek_char(name, 0, '=');
    assert(seek_char(name, 0, '=') == name.len());
}

/// `exit` asks for the code that it is given, or for that of the last command.
pub proof fn law_exit_without_a_code(sh: Shell, name: Seq<char>)
    ensures
        exit_code(sh, seq![name]) == sh.last_exit,
{
}

/// What a built-in wrote goes to the output and its error output to the error output; with
/// `2>&1` both go to the output, one behind the other; a file takes what is sent to it
/// instead. The exit code is that of the built-in.
pub proof fn law_output_goes_where_it_is_sent(
    w: World,
    rs: Seq<Answer>,
    wiring: Wiring,
    merge: bool,
    t: Told,
)
    requires
        w.used >= 0,
    ensures
        route(w, rs, wiring, merge, t) matches Run::Done(flow, w2) ==> flow == Flow::Done(t.code)
            && w2.sh == w.sh,
        wiring.stdout is None && wiring.stderr is None ==> (route(w, rs, wiring, merge, t) matches
            Run::Done(_, w2) && w2.used == w.used && if merge {
            w2.out == w.out + t.out + t.err && w2.err == w.err + Seq::<u8>::empty()
        } else {
            w2.out == w.out + t.out && w2.err == w.err + t.err
        }),
        wiring.stdout matches Some(file) ==> (w.used >= rs.len() ==> route(
            w,
            rs,
            wiring,
            merge,
            t,
        ) == Run::<Flow>::Need(Need::Write { file, data: t.out })),
        wiring.stdout is Some ==> (route(w, rs, wiring, merge, t) matches Run::Done(_, w2)
            ==> w2.out == w.out),
        wiring.stdout matches Some(file) ==> (merge && w.used + 1 == rs.len() ==> route(
            w,
            rs,
            wiring,
            merge,
            t,
        ) == Run::<Flow>::Need(Need::Write { file, data: t.err })),
        wiring.stdout is None ==> (wiring.stderr matches Some(file) ==> (!merge && w.used
            >= rs.len() ==> route(w, rs, wiring, merge, t) == Run::<Flow>::Need(
            Need::Write { file, data: t.err },
        ))),
{
}

// ---------------------------------------------------------------------------------
// Redirections
// ---------------------------------------------------------------------------------
/// A redirection that writes asks for its file, created for `>` and `2>`, added to for `>>` and
/// `2>>`; the file that was opened last for a stream is where the stream goes. The file to
/// read is named, not opened.
pub proof fn law_redirection_wires_its_stream(
    w: World,
    rs: Seq<Answer>,
    n: nat,
    r: Seq<Redir>,
    k: int,
    acc: Wiring,
    p: Seq<char>,
    w2: World,
)
    requires
        0 <= k < r.len(),
        w2.used >= 0,
        match r[k] {
            Redir::StdoutTrunc(x) => expand(w, rs, n, x, 0, Seq::empty()) == Run::Done(p, w2),
            Redir::StdoutAppend(x) => expand(w, rs, n, x, 0, Seq::empty()) == Run::Done(p, w2),
            Redir::StderrTrunc(x) => expand(w, rs, n, x, 0, Seq::empty()) == Run::Done(p, w2),
            Redir::StderrAppend(x) => expand(w, rs, n, x, 0, Seq::empty()) == Run::Done(p, w2),
            Redir::Stdin(x) => expand(w, rs, n, x, 0, Seq::empty()) == Run::Done(p, w2),
            Redir::Err2Out => w2 == w,
        },
    ensures
        ({
            let path = path_in(w2.sh.cwd, p);
            let opened = World { used: w2.used + 1, ..w2 };
            let out = r[k] is StdoutTrunc || r[k] is StdoutAppend;
            let err = r[k] is StderrTrunc || r[k] is StderrAppend;
            let mode = if r[k] is StdoutTrunc || r[k] is StderrTrunc {
                OpenMode::Create
            } else {
                OpenMode::Append
            };
            &&& (out || err) && w2.used >= rs.len() ==> resolve(w, rs, n, r, k, acc) == Run::<
                Wiring,
            >::Need(Need::Open { path, mode })
            &&& (out || err) && w2.used < rs.len() ==> (rs[w2.used] matches Answer::Failed(m)
                ==> resolve(w, rs, n, r, k, acc) == Run::<Wiring>::Fail(Fault::Io(m), opened))
            &&& out && w2.used < rs.len() && !(rs[w2.used] is Failed) ==> resolve(
                w,
                rs,
                n,
                r,
                k,
                acc,
            ) == resolve(opened, rs, n, r, k + 1, Wiring { stdout: Some(w2.used), ..acc })
            &&& err && w2.used < rs.len() && !(rs[w2.used] is Failed) ==> resolve(
                w,
                rs,
                n,
                r,
                k,
                acc,
            ) == resolve(opened, rs, n, r, k + 1, Wiring { stderr: Some(w2.used), ..acc })
            &&& r[k] is Stdin ==> resolve(w, rs, n, r, k, acc) == resolve(
                w2,
                rs,
                n,
                r,
                k + 1,
                Wiring { stdin: Some(path), ..acc },
            )
            &&& r[k] is Err2Out ==> resolve(w, rs, n, r, k, acc) == resolve(
                w,
                rs,
                n,
                r,
                k + 1,
                acc,
            )
            &&& resolve(w, rs, n, r, r.len() as int, acc) == Run::Done(acc, w)
        }),
{
}

// ---------------------------------------------------------------------------------
// Children
// ---------------------------------------------------------------------------------
/// Value of a name in a list of assignments, where the last one counts.
pub open spec fn last_value(l: Seq<(Seq<char>, Seq<char>)>, name: Seq<char>) -> Option<Seq<char>>
    decreases l.len(),
{
    if l.len() == 0 {
        None
    } else if l.last().0 == name {
        Some(l.last().1)
    } else {
        last_value(l.drop_last(), name)
    }
}

proof fn lemma_overlay(
    m: Map<Seq<char>, Seq<char>>,
    l: Seq<(Seq<char>, Seq<char>)>,
    i: int,
    name: Seq<char>,
)
    requires
        0 <= i <= l.len(),
    ensures
        last_value(l.skip(i), name) matches Some(v) ==> overlay(m, l, i).contains_key(name)
            && overlay(m, l, i)[name] == v,
        last_value(l.skip(i), name) is None ==> overlay(m, l, i).contains_key(name)
            == m.contains_key(name) && overlay(m, l, i)[name] == m[name],
    decreases l.len() - i,
{
    if i < l.len() {
        lemma_overlay(m.insert(l[i].0, l[i].1), l, i + 1, name);
        lemma_last_value(l.skip(i), name);
        assert(l.skip(i).drop_first() =~= l.skip(i + 1));
    }
}

proof fn lemma_last_value(l: Seq<(Seq<char>, Seq<char>)>, name: Seq<char>)
    requires
        l.len() > 0,
    ensures
        last_value(l, name) == match last_value(l.drop_first(), name) {
            Some(v) => Some(v),
            None => if l[0].0 == name {
                Some(l[0].1)
            } else {
                None
            },
        },
    decreases l.len(),
{
    reveal_with_fuel(last_value, 2);
    if l.len() > 1 {
        let t = l.drop_first();
        assert(t.last() == l.last());
        assert(l.drop_last().drop_first() =~= t.drop_last());
        if l.last().0 != name {
            lemma_last_value(l.drop_last(), name);
        }
    } else {
        assert(l.drop_first() =~= Seq::empty());
        assert(l.drop_last() =~= Seq::empty());
    }
}

/// A child is given what is assigned in front of its command, the last where a name is there
/// twice, and beside it the variables that are exported and set, and nothing else.
pub proof fn law_child_environment(sh: Shell, local: Seq<(Seq<char>, Seq<char>)>, name: Seq<char>)
    ensures
        ({
            let env = child_env(sh, local);
            match last_value(local, name) {
                Some(v) => env.contains_key(name) && env[name] == v,
                None => {
                    &&& env.contains_key(name) == (sh.exported.contains(name)
                        && sh.env.contains_key(name))
                    &&& env.contains_key(name) ==> env[name] == sh.env[name]
                },
            }
        }),
{
    lemma_overlay(sh.env.restrict(sh.exported), local, 0, name);
    assert(local.skip(0) =~= local);
}

/// Assignments without a command set their variables, the last where a name is there twice, and
/// change nothing else.
pub proof fn law_assignments_set_variables(
    sh: Shell,
    l: Seq<(Seq<char>, Seq<char>)>,
    i: int,
    name: Seq<char>,
)
    requires
        0 <= i <= l.len(),
    ensures
        ({
            let after = set_vars(sh, l, i);
            &&& last_value(l.skip(i), name) matches Some(v) ==> after.env.contains_key(name)
                && after.env[name] == v
            &&& last_value(l.skip(i), name) is None ==> after.env.contains_key(name)
                == sh.env.contains_key(name) && after.env[name] == sh.env[name]
            &&& after.cwd == sh.cwd && after.exported == sh.exported && after.last_exit
                == sh.last_exit
        }),
    decreases l.len() - i,
{
    if i < l.len() {
        let sh2 = Shell { env: sh.env.insert(l[i].0, l[i].1), ..sh };
        law_assignments_set_variables(sh2, l, i + 1, name);
        lemma_last_value(l.skip(i), name);
        assert(l.skip(i).drop_first() =~= l.skip(i + 1));
    }
}

/// A command that is no built-in asks for a child: the program is its first word, the
/// arguments are the others, in the directory of the shell. It reads what the stage before it
/// wrote, or the file it is sent, and its output is captured unless it is sent to a file.
pub proof fn law_child_is_what_was_asked(
    w: World,
    rs: Seq<Answer>,
    n: nat,
    argv: Seq<Seq<char>>,
    local: Seq<(Seq<char>, Seq<char>)>,
    r: Seq<Redir>,
    wiring: Wiring,
    stdin: Option<Seq<u8>>,
)
    requires
        argv.len() > 0,
        w.used >= rs.len(),
        forall|i: int| 0 <= i < r.len() ==> !((#[trigger] r[i]) is Err2Out),
    ensures
        wiring.stdin matches Some(path) ==> external(w, rs, n, argv, local, r, wiring, stdin)
            == Run::<Flow>::Need(Need::Open { path, mode: OpenMode::Read }),
        wiring.stdin is None ==> (external(w, rs, n, argv, local, r, wiring, stdin) matches Run::Need(
            Need::Spawn { program, args, cwd, env, stdin: input, stdout, stderr },
        ) && {
            &&& seq![program] + args == argv
            &&& cwd == w.sh.cwd
            &&& env == child_env(w.sh, local)
            &&& stdout == wiring.stdout
            &&& stderr == wiring.stderr
            &&& stdin matches Some(b) ==> input == (if b.len() > 0 {
                Input::Bytes(b)
            } else {
                Input::Null
            })
            &&& stdin is None ==> input is Null
        }),
{
    assert(seq![argv[0]] + argv.skip(1) =~= argv);
}

/// A child that ends by itself ends the command with its code, and what it wrote is added to
/// the output and the error output, or to the output alone where the two are merged. One that
/// takes too long gives 124, a cancelled one 130, one that writes too much 1, and one that
/// cannot be started 127; each of these says why, and adds nothing to the output.
pub proof fn law_child_ends_the_command(w: World, name: Seq<char>, merging: bool, a: Answer)
    ensures
        child_result(w, name, merging, a).1.sh == w.sh,
        child_result(w, name, merging, a).1.used == w.used,
        a matches Answer::Child { outcome: ChildOutcome::Exited(c), stdout, stderr } ==> {
            let (code, w2) = child_result(w, name, merging, a);
            &&& code == c
            &&& !merging ==> w2.out == w.out + stdout && w2.err == w.err + stderr
            &&& merging ==> w2.out == w.out + stdout + stderr && w2.err == w.err
        },
        !(a matches Answer::Child { outcome: ChildOutcome::Exited(_), stdout: _, stderr: _ }) ==> {
            let (code, w2) = child_result(w, name, merging, a);
            &&& w2.out == w.out
            &&& w.err.len() < w2.err.len()
            &&& w2.err.take(w.err.len() as int) == w.err
            &&& code == match a {
                Answer::Child { outcome, .. } => match outcome {
                    ChildOutcome::TimedOut => 124i32,
                    ChildOutcome::Cancelled => 130i32,
                    _ => 1i32,
                },
                _ => 127i32,
            }
        },
        a matches Answer::Child { outcome: ChildOutcome::TimedOut, stdout: _, stderr: _ }
            ==> child_result(w, name, merging, a).1.err == w.err + encode_utf8(
            "vshell: "@ + name + ": "@ + "killed after "@ + dec(w.timeout_secs as nat)
                + "s timeout"@ + "\n"@,
        ),
        a matches Answer::Failed(m) ==> child_result(w, name, merging, a).1.err == w.err
            + encode_utf8("vshell: "@ + name + ": "@ + m + "\n"@),
{
    let w2 = child_result(w, name, merging, a).1;
    if !(a matches Answer::Child { outcome: ChildOutcome::Exited(_), stdout: _, stderr: _ }) {
        assert forall|s: Seq<char>| #[trigger] line(s).len() > 0 by {
            lemma_encode_concat(s, "\n"@);
            reveal_strlit("\n");
            is_ascii_chars_encode_utf8("\n"@);
        }
        assert(w2.err.take(w.err.len() as int) =~= w.err);
    }
}

/// A script that cannot be run is told with what was wrong and where.
pub proof fn law_faults_are_told(m: Seq<char>, pos: int)
    ensures
        fault_text(Fault::Parse { msg: m, pos }) == "parse error at "@ + dec(pos as nat) + ": "@ + m,
        fault_text(Fault::Unsupported(m)) == "unsupported syntax: "@ + m,
        fault_text(Fault::Io(m)) == "io: "@ + m,
{
}

/// Redirections without a command make their files: one after the other each file that would be
/// written is asked for, created or added to as the operator says; one that is read is left alone.
pub proof fn law_bare_redirections_make_files(
    w: World,
    rs: Seq<Answer>,
    r: Seq<Redir>,
    k: int,
    x: Seq<Part>,
    p: Seq<char>,
)
    requires
        0 <= k < r.len(),
        w.used >= 0,
        expand_plain(w.sh, x, 0, Seq::empty()) == Ok::<Seq<char>, Fault>(p),
    ensures
        ({
            let writes = r[k] == Redir::StdoutTrunc(x) || r[k] == Redir::StderrTrunc(x) || r[k]
                == Redir::StdoutAppend(x) || r[k] == Redir::StderrAppend(x);
            let mode = if r[k] is StdoutTrunc || r[k] is StderrTrunc {
                OpenMode::Create
            } else {
                OpenMode::Append
            };
            &&& writes && w.used >= rs.len() ==> touch(w, rs, r, k) == Run::<()>::Need(
                Need::Open { path: path_in(w.sh.cwd, p), mode },
            )
            &&& writes && w.used < rs.len() && !(rs[w.used] is Failed) ==> touch(w, rs, r, k) == touch(
                World { used: w.used + 1, ..w },
                rs,
                r,
                k + 1,
            )
            &&& r[k] is Stdin || r[k] is Err2Out ==> touch(w, rs, r, k) == touch(w, rs, r, k + 1)
            &&& touch(w, rs, r, r.len() as int) == Run::Done((), w)
        }),
{
}

/// Where a word may run nothing it stands for its parts as everywhere, and one that would run
/// something is refused.
pub proof fn law_plain_words(sh: Shell, parts: Seq<Part>)
    ensures
        (forall|k: int| 0 <= k < parts.len() ==> !((#[trigger] parts[k]) is CmdSub)) ==> expand_plain(
            sh,
            parts,
            0,
            Seq::empty(),
        ) == Ok::<Seq<char>, Fault>(
            parts.map_values(|p: Part| plain_value(sh, p)).flatten(),
        ),
        (exists|k: int| 0 <= k < parts.len() && (#[trigger] parts[k]) is CmdSub) ==> expand_plain(
            sh,
            parts,
            0,
            Seq::empty(),
        ) is Err,
{
    let l = parts.map_values(|p: Part| plain_value(sh, p));
    lemma_plain_parts(sh, parts, 0, Seq::empty());
    assert(l.skip(0) =~= l);
    assert(Seq::<char>::empty() + l.flatten() =~= l.flatten());
}

proof fn lemma_plain_parts(sh: Shell, parts: Seq<Part>, k: int, acc: Seq<char>)
    requires
        0 <= k <= parts.len(),
    ensures
        (forall|j: int| k <= j < parts.len() ==> !((#[trigger] parts[j]) is CmdSub)) ==> expand_plain(
            sh,
            parts,
            k,
            acc,
        ) == Ok::<Seq<char>, Fault>(
            acc + parts.map_values(|p: Part| plain_value(sh, p)).skip(k).flatten(),
        ),
        (exists|j: int| k <= j < parts.len() && (#[trigger] parts[j]) is CmdSub) ==> expand_plain(
            sh,
            parts,
            k,
            acc,
        ) is Err,
    decreases parts.len() - k,
{
    let l = parts.map_values(|p: Part| plain_value(sh, p));
    if k < parts.len() {
        let more = acc + plain_value(sh, parts[k]);
        assert(acc + Seq::<char>::empty() =~= acc);
        lemma_plain_parts(sh, parts, k + 1, more);
        assert(l.skip(k).drop_first() =~= l.skip(k + 1));
        assert(l.skip(k).flatten() == l.skip(k).first() + l.skip(k + 1).flatten());
        assert(more + l.skip(k + 1).flatten() =~= acc + l.skip(k).flatten());
        if exists|j: int| k <= j < parts.len() && (#[trigger] parts[j]) is CmdSub {
            if !(parts[k] is CmdSub) {
                let j = choose|j: int| k <= j < parts.len() && (#[trigger] parts[j]) is CmdSub;
                assert(k + 1 <= j);
            }
        }
    } else {
        assert(l.skip(k).flatten() =~= Seq::empty());
        assert(acc + Seq::<char>::empty() =~= acc);
    }
}

/// The error output of a child goes where it is sent; with `2>&1` it follows the output: to the
/// file that takes it, which is opened once more at its end, or to what is captured of it.
pub proof fn law_child_error_output(
    w: World,
    rs: Seq<Answer>,
    n: nat,
    x: Seq<Part>,
    wiring: Wiring,
    p: Seq<char>,
    w2: World,
)
    requires
        expand(w, rs, n, x, 0, Seq::empty()) == Run::Done(p, w2),
        w2.used >= 0,
    ensures
        ({
            let r = seq![Redir::StdoutTrunc(x), Redir::Err2Out];
            &&& wiring.stderr is Some ==> child_stderr(w, rs, n, r, wiring) == Run::Done(
                wiring.stderr,
                w,
            )
            &&& wiring.stderr is None && wiring.stdout is Some && w2.used >= rs.len() ==> child_stderr(
                w,
                rs,
                n,
                r,
                wiring,
            ) == Run::<Option<int>>::Need(
                Need::Open { path: path_in(w2.sh.cwd, p), mode: OpenMode::AppendExisting },
            )
            &&& wiring.stderr is None && wiring.stdout is Some && w2.used < rs.len()
                && !(rs[w2.used] is Failed) ==> child_stderr(w, rs, n, r, wiring) == Run::Done(
                Some(w2.used),
                World { used: w2.used + 1, ..w2 },
            )
        }),
        forall|r: Seq<Redir>|
            (forall|i: int| 0 <= i < r.len() ==> !((#[trigger] r[i]) is Err2Out)) ==> #[trigger]
                child_stderr(w, rs, n, r, wiring) == Run::Done(wiring.stderr, w),
{
    let r = seq![Redir::StdoutTrunc(x), Redir::Err2Out];
    assert(r[1] is Err2Out);
    assert(has_merge(r));
    assert(first_out(r, 0) == 0);
}

/// `exit` with a number asks for it, and with anything else for 2.
pub proof fn law_exit_with_a_code(sh: Shell, name: Seq<char>, code: i32, other: Seq<char>)
    ensures
        exit_code(sh, seq![name, signed_dec(code as int)]) == code,
        signed_value(other, i32::MIN as int, i32::MAX as int) is None ==> exit_code(
            sh,
            seq![name, other],
        ) == 2,
{
    lemma_signed_number(code as int, i32::MIN as int, i32::MAX as int);
}

/// `export` takes its arguments one by one; the first that begins with `=` ends it with an error.
pub proof fn law_export_one_by_one(
    sh: Shell,
    argv: Seq<Seq<char>>,
    k: int,
    name: Seq<char>,
    value: Seq<char>,
)
    requires
        0 <= k < argv.len(),
        forall|i: int| 0 <= i < name.len() ==> name[i] != '=',
    ensures
        name.len() > 0 && argv[k] == name.push('=') + value ==> export(sh, argv, k) == export(
            Shell { env: sh.env.insert(name, value), exported: sh.exported.insert(name), ..sh },
            argv,
            k + 1,
        ),
        argv[k] == name ==> export(sh, argv, k) == export(
            Shell { exported: sh.exported.insert(name), ..sh },
            argv,
            k + 1,
        ),
        argv[k] == seq!['='] + value ==> export(sh, argv, k) == (
            Told {
                out: Seq::<u8>::empty(),
                err: encode_utf8("export: invalid name"@ + "\n"@),
                code: 1i32,
            },
            sh,
        ),
        export(sh, argv, argv.len() as int) == (
            Told { out: Seq::<u8>::empty(), err: Seq::<u8>::empty(), code: 0i32 },
            sh,
        ),
{
    let a = name.push('=') + value;
    lemma_seek_char(a, 0, '=');
    assert(a[name.len() as int] == '=');
    assert forall|i: int| 0 <= i < name.len() implies a[i] != '=' by {
        assert(a[i] == name[i]);
    }
    let eq = seek_char(a, 0, '=');
    assert(eq == name.len());
    assert(a.take(eq) =~= name);
    assert(a.skip(eq + 1) =~= value);
    lemma_seek_char(name, 0, '=');
}

/// Inside a pipeline `cd`, `export` and `unset` end with 1 and say that they cannot run there; `cd`
/// without a directory and without `HOME` ends with 1 too, and `export` without a name.
pub proof fn law_refused_builtins(w: World, rs: Seq<Answer>, argv: Seq<Seq<char>>)
    requires
        argv.len() > 0,
    ensures
        argv[0] == "cd"@ ==> run_told(w, rs, argv, true) == Run::Done(
            Told {
                out: Seq::empty(),
                err: encode_utf8("cd: not supported inside a pipeline"@ + "\n"@),
                code: 1,
            },
            w,
        ),
        argv[0] == "export"@ ==> run_told(w, rs, argv, true) == Run::Done(
            Told {
                out: Seq::empty(),
                err: encode_utf8("export: not supported inside a pipeline"@ + "\n"@),
                code: 1,
            },
            w,
        ),
        argv[0] == "unset"@ ==> run_told(w, rs, argv, true) == Run::Done(
            Told {
                out: Seq::empty(),
                err: encode_utf8("unset: not supported inside a pipeline"@ + "\n"@),
                code: 1,
            },
            w,
        ),
        argv[0] == "cd"@ && argv.len() == 1 && !w.sh.env.contains_key("HOME"@) ==> run_told(
            w,
            rs,
            argv,
            false,
        ) == Run::Done(
            Told { out: Seq::empty(), err: encode_utf8("cd: HOME not set"@ + "\n"@), code: 1 },
            w,
        ),
        argv[0] == "export"@ && argv.len() == 1 ==> run_told(w, rs, argv, false) == Run::Done(
            Told {
                out: Seq::empty(),
                err: encode_utf8("export: missing argument"@ + "\n"@),
                code: 1,
            },
            w,
        ),
        argv[0] == "unset"@ ==> run_told(w, rs, argv, false) == Run::Done(
            Told { out: Seq::empty(), err: Seq::empty(), code: 0 },
            World { sh: unset(w.sh, argv, 1), ..w },
        ),
        argv[0] == "export"@ && argv.len() > 1 ==> run_told(w, rs, argv, false) == Run::Done(
            export(w.sh, argv, 1).0,
            World { sh: export(w.sh, argv, 1).1, ..w },
        ),
{
    lemma_builtin_names();
}

/// Where the word before was expanded, `$(body)` behind it adds what the body wrote, and the rest of
/// the word follows in the shell that the body left. A body that cannot be run fails the word.
pub proof fn law_substitution_in_a_word(
    w: World,
    rs: Seq<Answer>,
    n: nat,
    parts: Seq<Part>,
    k: int,
    acc: Seq<char>,
    body: Seq<char>,
)
    requires
        0 <= k < parts.len(),
        parts[k] == Part::CmdSub(body),
        encode_utf8(body).len() < n,
    ensures
        match script(World { out: Seq::empty(), err: Seq::empty(), ..w }, rs, body) {
            Run::Done(code, w2) => expand(w, rs, n, parts, k, acc) == expand(
                World {
                    sh: Shell { last_exit: code, ..w2.sh },
                    out: w.out,
                    err: w.err + w2.err,
                    used: w2.used,
                    timeout_secs: w2.timeout_secs,
                },
                rs,
                n,
                parts,
                k + 1,
                acc + strip_newlines(readable(w2.out)),
            ),
            Run::Fail(e, w2) => expand(w, rs, n, parts, k, acc) matches Run::Fail(f, w3) && f == e
                && w3.out == w.out && w3.err == w.err + encode_utf8(
                "vshell: $(): "@ + fault_text(e) + "\n"@,
            ),
            Run::Need(need) => expand(w, rs, n, parts, k, acc) == Run::<Seq<char>>::Need(need),
        },
{
}

/// The values of the assignments in front of a command are expanded one by one, from the left.
pub proof fn law_one_value_for_each_assignment(
    w: World,
    rs: Seq<Answer>,
    n: nat,
    l: Seq<(Seq<char>, Seq<Part>)>,
    k: int,
    acc: Seq<(Seq<char>, Seq<char>)>,
)
    requires
        0 <= k < l.len(),
    ensures
        expand_assigns(w, rs, n, l, l.len() as int, acc) == Run::Done(acc, w),
        match expand(w, rs, n, l[k].1, 0, Seq::empty()) {
            Run::Done(v, w2) => expand_assigns(w, rs, n, l, k, acc) == expand_assigns(
                w2,
                rs,
                n,
                l,
                k + 1,
                acc.push((l[k].0, v)),
            ),
            Run::Fail(e, w2) => expand_assigns(w, rs, n, l, k, acc) == Run::<
                Seq<(Seq<char>, Seq<char>)>,
            >::Fail(e, w2),
            Run::Need(need) => expand_assigns(w, rs, n, l, k, acc) == Run::<
                Seq<(Seq<char>, Seq<char>)>,
            >::Need(need),
        },
{
}

/// A command with redirections: its streams are wired first, and then it runs. One without words
/// sets its variables and makes its files.
pub proof fn law_command_with_redirections(
    w: World,
    rs: Seq<Answer>,
    n: nat,
    c: Command,
    stdin: Option<Seq<u8>>,
    local: Seq<(Seq<char>, Seq<char>)>,
    w2: World,
    argv: Seq<Seq<char>>,
    w3: World,
    wiring: Wiring,
    w4: World,
)
    requires
        expand_assigns(w, rs, n, c.assigns, 0, Seq::empty()) == Run::Done(local, w2),
        c.argv.len() > 0 ==> expand_argv(w2, rs, n, c.argv, 0, Seq::empty()) == Run::Done(argv, w3),
        c.argv.len() > 0 ==> resolve(w3, rs, n, c.redirects, 0, unwired()) == Run::Done(wiring, w4),
    ensures
        c.argv.len() == 0 ==> match touch(
            World { sh: set_vars(w2.sh, local, 0), ..w2 },
            rs,
            c.redirects,
            0,
        ) {
            Run::Done(_, w5) => simple(w, rs, n, c, stdin) == Run::Done(Flow::Done(0), w5),
            Run::Fail(e, w5) => simple(w, rs, n, c, stdin) == Run::<Flow>::Fail(e, w5),
            Run::Need(need) => simple(w, rs, n, c, stdin) == Run::<Flow>::Need(need),
        },
        c.argv.len() > 0 && !(argv[0] == "echo"@ || argv[0] == "pwd"@ || argv[0] == "cd"@ || argv[0]
            == "export"@ || argv[0] == "unset"@ || argv[0] == "true"@ || argv[0] == "false"@
            || argv[0] == ":"@ || argv[0] == "exit"@) ==> simple(w, rs, n, c, stdin) == external(
            w4,
            rs,
            n,
            argv,
            local,
            c.redirects,
            wiring,
            stdin,
        ),
        c.argv.len() > 0 && (argv[0] == "echo"@ || argv[0] == "pwd"@ || argv[0] == "cd"@ || argv[0]
            == "export"@ || argv[0] == "unset"@ || argv[0] == "true"@ || argv[0] == "false"@
            || argv[0] == ":"@ || argv[0] == "exit"@) ==> simple(w, rs, n, c, stdin) == builtin(
            w4,
            rs,
            n,
            argv,
            c.redirects,
            stdin is Some,
        ),
        unwired().stdin is None && unwired().stdout is None && unwired().stderr is None,
{
    lemma_builtin_names();
}

/// What a built-in with redirections wrote goes where they send it.
pub proof fn law_builtin_with_redirections(
    w: World,
    rs: Seq<Answer>,
    n: nat,
    argv: Seq<Seq<char>>,
    r: Seq<Redir>,
    piped: bool,
    wiring: Wiring,
    w2: World,
    t: Told,
    w3: World,
)
    requires
        resolve(w, rs, n, r, 0, unwired()) == Run::Done(wiring, w2),
        argv.len() > 0,
        argv[0] != "exit"@,
        run_told(w2, rs, argv, piped) == Run::Done(t, w3),
    ensures
        builtin(w, rs, n, argv, r, piped) == route(
            w3,
            rs,
            wiring,
            exists|i: int| 0 <= i < r.len() && (#[trigger] r[i]) is Err2Out,
            t,
        ),
{
}

/// A child that was answered ends its command with what became of it; its error output goes to the
/// output only with `2>&1`, and then only where the output is captured. A child whose input comes
/// from a file reads the file that was opened for it.
pub proof fn law_child_that_was_answered(
    w: World,
    rs: Seq<Answer>,
    n: nat,
    argv: Seq<Seq<char>>,
    local: Seq<(Seq<char>, Seq<char>)>,
    r: Seq<Redir>,
    wiring: Wiring,
    stdin: Option<Seq<u8>>,
)
    requires
        argv.len() > 0,
        0 <= w.used < rs.len(),
    ensures
        wiring.stdin is None && (forall|i: int| 0 <= i < r.len() ==> !((#[trigger] r[i]) is Err2Out))
            ==> {
            let (code, w2) = child_result(
                World { used: w.used + 1, ..w },
                argv[0],
                false,
                rs[w.used],
            );
            external(w, rs, n, argv, local, r, wiring, stdin) == Run::Done(Flow::Done(code), w2)
        },
        wiring.stdin is None && wiring.stdout is None && (exists|i: int|
            0 <= i < r.len() && (#[trigger] r[i]) is Err2Out) && wiring.stderr is None ==> {
            let (code, w2) = child_result(
                World { used: w.used + 1, ..w },
                argv[0],
                true,
                rs[w.used],
            );
            external(w, rs, n, argv, local, r, wiring, stdin) == Run::Done(Flow::Done(code), w2)
        },
        wiring.stdin is Some && w.used + 1 == rs.len() && !(rs[w.used] is Failed) && (forall|i: int|
            0 <= i < r.len() ==> !((#[trigger] r[i]) is Err2Out)) ==> (external(
            w,
            rs,
            n,
            argv,
            local,
            r,
            wiring,
            stdin,
        ) matches Run::Need(
            Need::Spawn { program, args, cwd: _, env: _, stdin: input, stdout: _, stderr: _ },
        ) && program == argv[0] && args == argv.skip(1) && input == Input::File(w.used)),
{
    if forall|i: int| 0 <= i < r.len() ==> !((#[trigger] r[i]) is Err2Out) {
        assert(!has_merge(r));
    }
}

/// `exit` in a stage ends the pipeline, in a list the list, and in an item the script, with its code.
/// What fails, or needs an answer, stops all of them where they are.
pub proof fn law_what_stops_a_script(
    w: World,
    rs: Seq<Answer>,
    n: nat,
    p: Seq<Command>,
    tail: Seq<(SeqOp, Seq<Command>)>,
    last: i32,
    u: Seq<Unit>,
    k: int,
    input: Seq<u8>,
)
    ensures
        0 <= k < p.len() - 1 ==> match simple(
            World { out: Seq::empty(), ..w },
            rs,
            n,
            p[k],
            Some(input),
        ) {
            Run::Done(Flow::Exit(code), w2) => stages(w, rs, n, p, k, input) == Run::Done(
                Flow::Exit(code),
                World { out: w.out, ..w2 },
            ),
            Run::Done(Flow::Done(_), _) => true,
            Run::Fail(e, w2) => stages(w, rs, n, p, k, input) == Run::<Flow>::Fail(
                e,
                World { out: w.out, ..w2 },
            ),
            Run::Need(need) => stages(w, rs, n, p, k, input) == Run::<Flow>::Need(need),
        },
        0 <= k < tail.len() && (tail[k].0 == SeqOp::AndIf) == (last == 0) ==> match pipe(
            w,
            rs,
            n,
            tail[k].1,
        ) {
            Run::Done(Flow::Exit(code), w2) => chain_steps(w, rs, n, tail, k, last) == Run::Done(
                Flow::Exit(code),
                w2,
            ),
            Run::Done(Flow::Done(_), _) => true,
            Run::Fail(e, w2) => chain_steps(w, rs, n, tail, k, last) == Run::<Flow>::Fail(e, w2),
            Run::Need(need) => chain_steps(w, rs, n, tail, k, last) == Run::<Flow>::Need(need),
        },
        0 <= k < u.len() ==> (u[k] matches Unit::Run(c) ==> match run_chain(w, rs, n, c) {
            Run::Done(Flow::Exit(code), w2) => run_units(w, rs, n, u, k) == Run::Done(code, w2),
            Run::Done(Flow::Done(_), _) => true,
            Run::Fail(e, w2) => run_units(w, rs, n, u, k) == Run::<i32>::Fail(e, w2),
            Run::Need(need) => run_units(w, rs, n, u, k) == Run::<i32>::Need(need),
        }),
{
}

// ---------------------------------------------------------------------------------
// Mathematical forms
// ---------------------------------------------------------------------------------
/// The mathematical form of what is needed and of what is answered has all that it holds.
pub proof fn law_forms_are_faithful(a: Action, r: Seq<Reply>, i: int)
    ensures
        match a {
            Action::Canonicalize(p) => a@ == Need::Canonicalize(p@),
            Action::Open { path, mode } => a@ == (Need::Open { path: path@, mode }),
            Action::Write { file, data } => a@ == (Need::Write { file: file as int, data: data@ }),
            Action::Spawn(c) => a@ matches Need::Spawn { program, args, cwd, env, stdin, stdout, stderr }
                && {
                &&& program == c.program@ && cwd == c.cwd@
                &&& args.len() == c.args@.len() && forall|k: int|
                    0 <= k < args.len() ==> #[trigger] args[k] == c.args@[k]@
                &&& forall|k: Seq<char>| #[trigger] env.contains_key(k) <==> c.env@.contains_key(k)
                &&& forall|k: Seq<char>| #[trigger] env.contains_key(k) ==> env[k] == c.env@[k]@
                &&& stdin == (match c.stdin {
                    ChildInput::Null => Input::Null,
                    ChildInput::Bytes(b) => Input::Bytes(b@),
                    ChildInput::File(f) => Input::File(f as int),
                })
                &&& c.stdout is None <==> stdout is None
                &&& c.stdout matches Some(f) ==> stdout == Some(f as int)
                &&& c.stderr is None <==> stderr is None
                &&& c.stderr matches Some(f) ==> stderr == Some(f as int)
            },
        },
        answers(r).len() == r.len(),
        0 <= i < r.len() ==> answers(r)[i] == (match r[i] {
            Reply::Failed(m) => Answer::Failed(m@),
            Reply::Done => Answer::Done,
            Reply::Path(p) => Answer::Path(p@),
            Reply::Child { outcome, stdout, stderr } => Answer::Child {
                outcome,
                stdout: stdout@,
                stderr: stderr@,
            },
        }),
{
    if let Action::Spawn(c) = a {
        let t = texts(c.args@);
        assert forall|k: int| 0 <= k < t.len() implies #[trigger] t[k] == c.args@[k]@ by {}
    }
}

} // verus!

//! Running a script again with more answers: what was done stays done.
//!
//! A script is run from its beginning whenever an answer is added. That is sound because
//! answers that it did not get to make no difference, which is shown here for everything that
//! a script is made of.

use vstd::prelude::*;
use vstd::utf8::*;

use super::exec::{
    ask, builtin, cd, chain_steps, child_stderr, child_stdin, execution, expand, expand_argv,
    expand_assigns, expand_plain, external, first_out, fresh, has_merge, is_builtin,
    open_file, pipe, redir_target, resolve, route, route_out, run_chain, run_told,
    run_units, script, set_var, set_vars, simple, stages, touch, unwired, Answer, Flow,
    Need, OpenMode, Run, Shell, Told, Wiring, World,
};
use super::lex::Part;
use super::parse::{script_items, Chain, Command, Redir, SeqOp, Unit};

verus! {

/// Whether a run that did not lack an answer is the same as another.
pub open spec fn settled<T>(a: Run<T>, b: Run<T>) -> bool {
    a is Need || a == b
}

proof fn lemma_ask(w: World, rs: Seq<Answer>, more: Seq<Answer>, need: Need)
    ensures
        settled(ask(w, rs, need), ask(w, rs + more, need)),
{
    if 0 <= w.used < rs.len() {
        assert((rs + more)[w.used] == rs[w.used]);
    }
}

proof fn lemma_open(w: World, rs: Seq<Answer>, more: Seq<Answer>, path: Seq<char>, mode: OpenMode)
    ensures
        settled(open_file(w, rs, path, mode), open_file(w, rs + more, path, mode)),
{
    lemma_ask(w, rs, more, Need::Open { path, mode });
}

proof fn lemma_touch(w: World, rs: Seq<Answer>, more: Seq<Answer>, r: Seq<Redir>, k: int)
    ensures
        settled(touch(w, rs, r, k), touch(w, rs + more, r, k)),
    decreases r.len() - k,
{
    if 0 <= k < r.len() {
        let (word, mode) = match r[k] {
            Redir::StdoutTrunc(x) => (Some(x), OpenMode::Create),
            Redir::StderrTrunc(x) => (Some(x), OpenMode::Create),
            Redir::StdoutAppend(x) => (Some(x), OpenMode::Append),
            Redir::StderrAppend(x) => (Some(x), OpenMode::Append),
            _ => (None, OpenMode::Read),
        };
        match word {
            None => lemma_touch(w, rs, more, r, k + 1),
            Some(x) => {
                if let Ok(p) = expand_plain(w.sh, x, 0, Seq::empty()) {
                    let path = crate::paths::path_in(w.sh.cwd, p);
                    lemma_open(w, rs, more, path, mode);
                    if let Run::Done(_, w2) = open_file(w, rs, path, mode) {
                        lemma_touch(w2, rs, more, r, k + 1);
                    }
                }
            },
        }
    }
}

proof fn lemma_told(w: World, rs: Seq<Answer>, more: Seq<Answer>, argv: Seq<Seq<char>>, piped: bool)
    ensures
        settled(run_told(w, rs, argv, piped), run_told(w, rs + more, argv, piped)),
{
    let dir = crate::paths::path_in(
        w.sh.cwd,
        if argv.len() <= 1 {
            w.sh.env["HOME"@]
        } else {
            argv[1]
        },
    );
    lemma_ask(w, rs, more, Need::Canonicalize(dir));
    assert(settled(cd(w, rs, argv), cd(w, rs + more, argv)));
}

proof fn lemma_route(
    w: World,
    rs: Seq<Answer>,
    more: Seq<Answer>,
    wiring: Wiring,
    merge: bool,
    t: Told,
)
    ensures
        settled(route(w, rs, wiring, merge, t), route(w, rs + more, wiring, merge, t)),
{
    if let Some(file) = wiring.stdout {
        lemma_ask(w, rs, more, Need::Write { file, data: t.out });
        if let Run::Done(_, w2) = ask(w, rs, Need::Write { file, data: t.out }) {
            lemma_ask(w2, rs, more, Need::Write { file, data: t.err });
        }
    }
    let out = route_out(w, rs, wiring.stdout, merge, t);
    assert(settled(out, route_out(w, rs + more, wiring.stdout, merge, t)));
    if let Run::Done(err, w2) = out {
        if let Some(file) = wiring.stderr {
            lemma_ask(w2, rs, more, Need::Write { file, data: err });
        }
    }
}

proof fn lemma_expand(
    w: World,
    rs: Seq<Answer>,
    more: Seq<Answer>,
    n: nat,
    parts: Seq<Part>,
    k: int,
    acc: Seq<char>,
)
    ensures
        settled(expand(w, rs, n, parts, k, acc), expand(w, rs + more, n, parts, k, acc)),
    decreases n, 1nat, parts.len() - k,
{
    if 0 <= k < parts.len() {
        match parts[k] {
            Part::Literal(s) => lemma_expand(w, rs, more, n, parts, k + 1, acc + s),
            Part::Var(name) => {
                if w.sh.env.contains_key(name) {
                    lemma_expand(w, rs, more, n, parts, k + 1, acc + w.sh.env[name]);
                } else {
                    lemma_expand(w, rs, more, n, parts, k + 1, acc);
                }
            },
            Part::CmdSub(body) => {
                if encode_utf8(body).len() < n {
                    let w1 = World { out: Seq::empty(), err: Seq::empty(), ..w };
                    lemma_script(w1, rs, more, body);
                    if let Run::Done(code, w2) = script(w1, rs, body) {
                        lemma_expand(
                            World {
                                sh: Shell { last_exit: code, ..w2.sh },
                                out: w.out,
                                err: w.err + w2.err,
                                ..w2
                            },
                            rs,
                            more,
                            n,
                            parts,
                            k + 1,
                            acc + super::exec::strip_newlines(crate::text::readable(w2.out)),
                        );
                    }
                }
            },
        }
    }
}

proof fn lemma_assigns(
    w: World,
    rs: Seq<Answer>,
    more: Seq<Answer>,
    n: nat,
    l: Seq<(Seq<char>, Seq<Part>)>,
    k: int,
    acc: Seq<(Seq<char>, Seq<char>)>,
)
    ensures
        settled(expand_assigns(w, rs, n, l, k, acc), expand_assigns(w, rs + more, n, l, k, acc)),
    decreases n, 2nat, l.len() - k,
{
    if 0 <= k < l.len() {
        lemma_expand(w, rs, more, n, l[k].1, 0, Seq::empty());
        if let Run::Done(v, w2) = expand(w, rs, n, l[k].1, 0, Seq::empty()) {
            lemma_assigns(w2, rs, more, n, l, k + 1, acc.push((l[k].0, v)));
        }
    }
}

proof fn lemma_argv(
    w: World,
    rs: Seq<Answer>,
    more: Seq<Answer>,
    n: nat,
    l: Seq<Seq<Part>>,
    k: int,
    acc: Seq<Seq<char>>,
)
    ensures
        settled(expand_argv(w, rs, n, l, k, acc), expand_argv(w, rs + more, n, l, k, acc)),
    decreases n, 2nat, l.len() - k,
{
    if 0 <= k < l.len() {
        lemma_expand(w, rs, more, n, l[k], 0, Seq::empty());
        if let Run::Done(v, w2) = expand(w, rs, n, l[k], 0, Seq::empty()) {
            lemma_argv(w2, rs, more, n, l, k + 1, acc.push(v));
        }
    }
}

proof fn lemma_resolve(
    w: World,
    rs: Seq<Answer>,
    more: Seq<Answer>,
    n: nat,
    r: Seq<Redir>,
    k: int,
    acc: Wiring,
)
    ensures
        settled(resolve(w, rs, n, r, k, acc), resolve(w, rs + more, n, r, k, acc)),
    decreases n, 2nat, r.len() - k,
{
    if 0 <= k < r.len() {
        match redir_target(r[k]) {
            None => lemma_resolve(w, rs, more, n, r, k + 1, acc),
            Some((x, mode)) => {
                lemma_expand(w, rs, more, n, x, 0, Seq::empty());
                if let Run::Done(p, w2) = expand(w, rs, n, x, 0, Seq::empty()) {
                    let path = crate::paths::path_in(w2.sh.cwd, p);
                    if mode == OpenMode::Read {
                        lemma_resolve(
                            w2,
                            rs,
                            more,
                            n,
                            r,
                            k + 1,
                            Wiring { stdin: Some(path), ..acc },
                        );
                    } else {
                        lemma_open(w2, rs, more, path, mode);
                        if let Run::Done(file, w3) = open_file(w2, rs, path, mode) {
                            if r[k] is StdoutTrunc || r[k] is StdoutAppend {
                                lemma_resolve(
                                    w3,
                                    rs,
                                    more,
                                    n,
                                    r,
                                    k + 1,
                                    Wiring { stdout: Some(file), ..acc },
                                );
                            } else {
                                lemma_resolve(
                                    w3,
                                    rs,
                                    more,
                                    n,
                                    r,
                                    k + 1,
                                    Wiring { stderr: Some(file), ..acc },
                                );
                            }
                        }
                    }
                }
            },
        }
    }
}

proof fn lemma_builtin(
    w: World,
    rs: Seq<Answer>,
    more: Seq<Answer>,
    n: nat,
    argv: Seq<Seq<char>>,
    r: Seq<Redir>,
    piped: bool,
)
    ensures
        settled(builtin(w, rs, n, argv, r, piped), builtin(w, rs + more, n, argv, r, piped)),
    decreases n, 3nat, 0nat,
{
    lemma_resolve(w, rs, more, n, r, 0, unwired());
    if let Run::Done(wiring, w2) = resolve(w, rs, n, r, 0, unwired()) {
        lemma_told(w2, rs, more, argv, piped);
        if let Run::Done(t, w3) = run_told(w2, rs, argv, piped) {
            lemma_route(w3, rs, more, wiring, has_merge(r), t);
        }
    }
}

proof fn lemma_child_stderr(
    w: World,
    rs: Seq<Answer>,
    more: Seq<Answer>,
    n: nat,
    r: Seq<Redir>,
    wiring: Wiring,
)
    ensures
        settled(child_stderr(w, rs, n, r, wiring), child_stderr(w, rs + more, n, r, wiring)),
    decreases n, 2nat, 0nat,
{
    let k = first_out(r, 0);
    if 0 <= k < r.len() {
        let x = redir_target(r[k]).unwrap().0;
        lemma_expand(w, rs, more, n, x, 0, Seq::empty());
        if let Run::Done(p, w2) = expand(w, rs, n, x, 0, Seq::empty()) {
            lemma_open(
                w2,
                rs,
                more,
                crate::paths::path_in(w2.sh.cwd, p),
                OpenMode::AppendExisting,
            );
        }
    }
}

proof fn lemma_external(
    w: World,
    rs: Seq<Answer>,
    more: Seq<Answer>,
    n: nat,
    argv: Seq<Seq<char>>,
    local: Seq<(Seq<char>, Seq<char>)>,
    r: Seq<Redir>,
    wiring: Wiring,
    stdin: Option<Seq<u8>>,
)
    ensures
        settled(
            external(w, rs, n, argv, local, r, wiring, stdin),
            external(w, rs + more, n, argv, local, r, wiring, stdin),
        ),
    decreases n, 3nat, 0nat,
{
    if let Some(path) = wiring.stdin {
        lemma_open(w, rs, more, path, OpenMode::Read);
    }
    let input = child_stdin(w, rs, wiring.stdin, stdin);
    assert(settled(input, child_stdin(w, rs + more, wiring.stdin, stdin)));
    if let Run::Done(i, w2) = input {
        lemma_child_stderr(w2, rs, more, n, r, wiring);
        if let Run::Done(err, w3) = child_stderr(w2, rs, n, r, wiring) {
            let need = Need::Spawn {
                program: argv[0],
                args: argv.skip(1),
                cwd: w.sh.cwd,
                env: super::exec::child_env(w.sh, local),
                stdin: i,
                stdout: wiring.stdout,
                stderr: err,
            };
            lemma_ask(w3, rs, more, need);
        }
    }
}

proof fn lemma_simple(
    w: World,
    rs: Seq<Answer>,
    more: Seq<Answer>,
    n: nat,
    c: Command,
    stdin: Option<Seq<u8>>,
)
    ensures
        settled(simple(w, rs, n, c, stdin), simple(w, rs + more, n, c, stdin)),
    decreases n, 4nat, 0nat,
{
    lemma_assigns(w, rs, more, n, c.assigns, 0, Seq::empty());
    if let Run::Done(local, w2) = expand_assigns(w, rs, n, c.assigns, 0, Seq::empty()) {
        if c.argv.len() == 0 {
            lemma_touch(
                World { sh: set_vars(w2.sh, local, 0), ..w2 },
                rs,
                more,
                c.redirects,
                0,
            );
        } else {
            lemma_argv(w2, rs, more, n, c.argv, 0, Seq::empty());
            if let Run::Done(argv, w3) = expand_argv(w2, rs, n, c.argv, 0, Seq::empty()) {
                lemma_resolve(w3, rs, more, n, c.redirects, 0, unwired());
                if let Run::Done(wiring, w4) = resolve(w3, rs, n, c.redirects, 0, unwired()) {
                    if is_builtin(argv[0]) {
                        lemma_builtin(w4, rs, more, n, argv, c.redirects, stdin is Some);
                    } else {
                        lemma_external(w4, rs, more, n, argv, local, c.redirects, wiring, stdin);
                    }
                }
            }
        }
    }
}

proof fn lemma_stages(
    w: World,
    rs: Seq<Answer>,
    more: Seq<Answer>,
    n: nat,
    p: Seq<Command>,
    k: int,
    input: Seq<u8>,
)
    ensures
        settled(stages(w, rs, n, p, k, input), stages(w, rs + more, n, p, k, input)),
    decreases n, 5nat, p.len() - k,
{
    if 0 <= k < p.len() {
        if k + 1 == p.len() {
            lemma_simple(w, rs, more, n, p[k], Some(input));
        } else {
            let w1 = World { out: Seq::empty(), ..w };
            lemma_simple(w1, rs, more, n, p[k], Some(input));
            if let Run::Done(Flow::Done(_), w2) = simple(w1, rs, n, p[k], Some(input)) {
                lemma_stages(World { out: w.out, ..w2 }, rs, more, n, p, k + 1, w2.out);
            }
        }
    }
}

proof fn lemma_pipe(w: World, rs: Seq<Answer>, more: Seq<Answer>, n: nat, p: Seq<Command>)
    ensures
        settled(pipe(w, rs, n, p), pipe(w, rs + more, n, p)),
    decreases n, 6nat, 0nat,
{
    if p.len() == 1 {
        lemma_simple(w, rs, more, n, p[0], None);
    } else {
        lemma_stages(w, rs, more, n, p, 0, Seq::empty());
    }
}

proof fn lemma_chain(
    w: World,
    rs: Seq<Answer>,
    more: Seq<Answer>,
    n: nat,
    tail: Seq<(SeqOp, Seq<Command>)>,
    k: int,
    last: i32,
)
    ensures
        settled(chain_steps(w, rs, n, tail, k, last), chain_steps(w, rs + more, n, tail, k, last)),
    decreases n, 7nat, tail.len() - k,
{
    if 0 <= k < tail.len() {
        if (tail[k].0 == SeqOp::AndIf) == (last == 0) {
            lemma_pipe(w, rs, more, n, tail[k].1);
            if let Run::Done(Flow::Done(code), w2) = pipe(w, rs, n, tail[k].1) {
                lemma_chain(w2, rs, more, n, tail, k + 1, code);
            }
        } else {
            lemma_chain(w, rs, more, n, tail, k + 1, last);
        }
    }
}

proof fn lemma_run_chain(w: World, rs: Seq<Answer>, more: Seq<Answer>, n: nat, c: Chain)
    ensures
        settled(run_chain(w, rs, n, c), run_chain(w, rs + more, n, c)),
    decreases n, 8nat, 0nat,
{
    lemma_pipe(w, rs, more, n, c.head);
    if let Run::Done(Flow::Done(code), w2) = pipe(w, rs, n, c.head) {
        lemma_chain(w2, rs, more, n, c.tail, 0, code);
    }
}

proof fn lemma_units(
    w: World,
    rs: Seq<Answer>,
    more: Seq<Answer>,
    n: nat,
    u: Seq<Unit>,
    k: int,
)
    ensures
        settled(run_units(w, rs, n, u, k), run_units(w, rs + more, n, u, k)),
    decreases n, 9nat, u.len() - k,
{
    if 0 <= k < u.len() {
        match u[k] {
            Unit::Assign(name, word) => {
                lemma_expand(w, rs, more, n, word, 0, Seq::empty());
                if let Run::Done(v, w2) = expand(w, rs, n, word, 0, Seq::empty()) {
                    lemma_units(
                        World { sh: Shell { last_exit: 0, ..set_var(w2.sh, name, v) }, ..w2 },
                        rs,
                        more,
                        n,
                        u,
                        k + 1,
                    );
                }
            },
            Unit::Run(c) => {
                lemma_run_chain(w, rs, more, n, c);
                if let Run::Done(Flow::Done(code), w2) = run_chain(w, rs, n, c) {
                    lemma_units(
                        World { sh: Shell { last_exit: code, ..w2.sh }, ..w2 },
                        rs,
                        more,
                        n,
                        u,
                        k + 1,
                    );
                }
            },
        }
    }
}

proof fn lemma_script(w: World, rs: Seq<Answer>, more: Seq<Answer>, src: Seq<char>)
    ensures
        settled(script(w, rs, src), script(w, rs + more, src)),
    decreases encode_utf8(src).len(), 10nat, 0nat,
{
    if let Ok(u) = script_items(src) {
        lemma_units(w, rs, more, encode_utf8(src).len(), u, 0);
    }
}

/// A script that has ended stays as it ended: answers that it did not get to make no
/// difference, neither to what it printed nor to the shell that it left.
pub proof fn law_the_end_is_kept(
    sh: Shell,
    timeout_secs: int,
    rs: Seq<Answer>,
    more: Seq<Answer>,
    src: Seq<char>,
)
    requires
        execution(sh, timeout_secs, rs, src) is Done,
    ensures
        execution(sh, timeout_secs, rs + more, src) == execution(sh, timeout_secs, rs, src),
{
    lemma_script(fresh(sh, timeout_secs), rs, more, src);
}

} // verus!

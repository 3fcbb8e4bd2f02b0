//! What holds of every reading of a script: what is written down is what is read.

use vstd::prelude::*;
use vstd::utf8::*;

use super::lex::{
    assignment, dquote, name_end, sub_close, token_at, tokens, word, word_view, Part, Token, WordPart,
};
use super::parse::{
    accept, assigns_end, bare, chain, command, empty_command, items_view, keyword, lemma_skip_semis,
    pipeline, program, skip_semis, steps, target, Chain, Command, Item, Redir, Redirect, SeqOp,
    Sequence, SimpleCommand, Unit,
};
use super::Fault;
use crate::text::{latin, lemma_seek_char, seek_char};
use crate::wire::scan::{lemma_seek, seek};

verus! {

// ---------------------------------------------------------------------------------
// Commands
// ---------------------------------------------------------------------------------
/// Whether some tokens stand at a position, whatever their offsets.
pub open spec fn spells(t: Seq<(Token, int)>, pos: int, ts: Seq<Token>) -> bool {
    &&& 0 <= pos && pos + ts.len() <= t.len()
    &&& forall|i: int| 0 <= i < ts.len() ==> (#[trigger] t[pos + i]).0 == ts[i]
}

/// A redirection as it is written.
pub open spec fn redir_tokens(r: Redir) -> Seq<Token> {
    match r {
        Redir::StdoutTrunc(w) => seq![Token::Great, Token::Word(w)],
        Redir::StdoutAppend(w) => seq![Token::DGreat, Token::Word(w)],
        Redir::Stdin(w) => seq![Token::Less, Token::Word(w)],
        Redir::StderrTrunc(w) => seq![Token::Great2, Token::Word(w)],
        Redir::StderrAppend(w) => seq![Token::DGreat2, Token::Word(w)],
        Redir::Err2Out => seq![Token::Err2Out],
    }
}

/// The redirections from the `k`-th on as they are written.
pub open spec fn redirs_tokens(r: Seq<Redir>, k: int) -> Seq<Token>
    decreases r.len() - k,
{
    if k < 0 || k >= r.len() {
        Seq::empty()
    } else {
        redir_tokens(r[k]) + redirs_tokens(r, k + 1)
    }
}

/// A command as it is written: its assignments, its words and its redirections.
pub open spec fn command_tokens(c: Command) -> Seq<Token> {
    c.assigns.map_values(|a: (Seq<char>, Seq<Part>)| Token::Assign(a.0, a.1)) + c.argv.map_values(
        |w: Seq<Part>| Token::Word(w),
    ) + redirs_tokens(c.redirects, 0)
}

/// Whether a command can be written: it has a word or a redirection, and its name is no keyword.
pub open spec fn writable(c: Command) -> bool {
    &&& c.argv.len() > 0 || c.redirects.len() > 0
    &&& c.argv.len() > 0 && c.argv[0].len() == 1 ==> (c.argv[0][0] matches Part::Literal(s) ==> !keyword(
        s,
    ))
}

/// Whether a command ends at a position.
pub open spec fn ends_at(t: Seq<(Token, int)>, pos: int) -> bool {
    pos == t.len() || (0 <= pos < t.len() && (t[pos].0 is Pipe || t[pos].0 is AndIf || t[pos].0
        is OrIf || t[pos].0 is Semi))
}

proof fn lemma_redirs(t: Seq<(Token, int)>, pos: int, c: Command, k: int)
    requires
        0 <= k <= c.redirects.len(),
        spells(t, pos, redirs_tokens(c.redirects, k)),
        ends_at(t, pos + redirs_tokens(c.redirects, k).len()),
        writable(c),
    ensures
        command(t, pos, Command { redirects: c.redirects.take(k), ..c }) == Ok::<_, Fault>(
            (c, pos + redirs_tokens(c.redirects, k).len()),
        ),
    decreases c.redirects.len() - k,
{
    let r = c.redirects;
    let now = Command { redirects: r.take(k), ..c };
    if k < r.len() {
        let ts = redirs_tokens(r, k);
        let head = redir_tokens(r[k]);
        let rest = redirs_tokens(r, k + 1);
        assert(ts == head + rest);
        assert(t[pos + 0].0 == ts[0]);
        assert forall|i: int| 0 <= i < rest.len() implies (#[trigger] t[pos + head.len() + i]).0
            == rest[i] by {
            assert(t[pos + (head.len() + i)].0 == ts[head.len() + i]);
        }
        assert(r.take(k).push(r[k]) =~= r.take(k + 1));
        lemma_redirs(t, pos + head.len(), c, k + 1);
        if head.len() == 2 {
            assert(t[pos + 1].0 == ts[1]);
            assert(target(t, pos + 1) is Ok);
        }
    } else {
        assert(r.take(k) =~= r);
        assert(command(t, pos, now) == accept(t, pos, now));
    }
}

proof fn lemma_argv(t: Seq<(Token, int)>, pos: int, c: Command, k: int)
    requires
        0 <= k <= c.argv.len(),
        spells(
            t,
            pos,
            c.argv.map_values(|w: Seq<Part>| Token::Word(w)).skip(k) + redirs_tokens(c.redirects, 0),
        ),
        ends_at(t, pos + c.argv.len() - k + redirs_tokens(c.redirects, 0).len()),
        writable(c),
    ensures
        command(t, pos, Command { argv: c.argv.take(k), redirects: Seq::empty(), ..c }) == Ok::<
            _,
            Fault,
        >((c, pos + c.argv.len() - k + redirs_tokens(c.redirects, 0).len())),
    decreases c.argv.len() - k,
{
    let words = c.argv.map_values(|w: Seq<Part>| Token::Word(w));
    let more = redirs_tokens(c.redirects, 0);
    let ts = words.skip(k) + more;
    if k < c.argv.len() {
        assert(t[pos + 0].0 == ts[0]);
        assert(c.argv.take(k).push(c.argv[k]) =~= c.argv.take(k + 1));
        let rest = words.skip(k + 1) + more;
        assert forall|i: int| 0 <= i < rest.len() implies (#[trigger] t[pos + 1 + i]).0 == rest[i] by {
            assert(t[pos + (1 + i)].0 == ts[1 + i]);
        }
        lemma_argv(t, pos + 1, c, k + 1);
    } else {
        assert(c.argv.take(k) =~= c.argv);
        assert(c.redirects.take(0) =~= Seq::empty());
        assert(ts =~= more);
        lemma_redirs(t, pos, c, 0);
    }
}

proof fn lemma_assigns(t: Seq<(Token, int)>, pos: int, c: Command, k: int)
    requires
        0 <= k <= c.assigns.len(),
        spells(t, pos, command_tokens(c).skip(k)),
        ends_at(t, pos + command_tokens(c).len() - k),
        writable(c),
    ensures
        command(
            t,
            pos,
            Command { assigns: c.assigns.take(k), argv: Seq::empty(), redirects: Seq::empty() },
        ) == Ok::<_, Fault>((c, pos + command_tokens(c).len() - k)),
    decreases c.assigns.len() - k,
{
    let ts = command_tokens(c).skip(k);
    if k < c.assigns.len() {
        assert(t[pos + 0].0 == ts[0]);
        assert(c.assigns.take(k).push(c.assigns[k]) =~= c.assigns.take(k + 1));
        let rest = command_tokens(c).skip(k + 1);
        assert forall|i: int| 0 <= i < rest.len() implies (#[trigger] t[pos + 1 + i]).0 == rest[i] by {
            assert(t[pos + (1 + i)].0 == ts[1 + i]);
        }
        lemma_assigns(t, pos + 1, c, k + 1);
    } else {
        let words = c.argv.map_values(|w: Seq<Part>| Token::Word(w));
        assert(c.assigns.take(k) =~= c.assigns);
        assert(c.argv.take(0) =~= Seq::empty());
        assert(ts =~= words.skip(0) + redirs_tokens(c.redirects, 0));
        lemma_argv(t, pos, c, 0);
    }
}

/// A command that is written down is read back: its assignments, its words and its redirections,
/// all of them and in their order.
pub proof fn law_command_reads_back(t: Seq<(Token, int)>, pos: int, c: Command)
    requires
        spells(t, pos, command_tokens(c)),
        ends_at(t, pos + command_tokens(c).len()),
        writable(c),
    ensures
        command(t, pos, empty_command()) == Ok::<_, Fault>((c, pos + command_tokens(c).len())),
{
    assert(command_tokens(c).skip(0) =~= command_tokens(c));
    assert(c.assigns.take(0) =~= Seq::empty());
    lemma_assigns(t, pos, c, 0);
}

/// Behind the name of a command `NAME=value` is a word like any other.
pub proof fn law_late_assignment_is_a_word(
    t: Seq<(Token, int)>,
    pos: int,
    c: Command,
    name: Seq<char>,
    value: Seq<Part>,
)
    requires
        0 <= pos < t.len(),
        t[pos].0 == Token::Assign(name, value),
        c.argv.len() > 0,
    ensures
        command(t, pos, c) == command(
            t,
            pos + 1,
            Command { argv: c.argv.push(seq![Part::Literal(name + "="@)] + value), ..c },
        ),
{
}

/// A keyword as the name of a command, a command without anything in it, and a redirection
/// without a file behind it are refused.
pub proof fn law_refused_commands(t: Seq<(Token, int)>, pos: int, c: Command)
    requires
        0 <= pos <= t.len(),
    ensures
        ends_at(t, pos) ==> command(t, pos, empty_command()) is Err,
        ends_at(t, pos) && c.argv.len() > 0 && c.argv[0].len() == 1 ==> (c.argv[0][0] matches Part::Literal(
            s,
        ) ==> (s == "if"@ || s == "then"@ || s == "else"@ || s == "elif"@ || s == "fi"@ || s == "case"@
            || s == "esac"@ || s == "for"@ || s == "select"@ || s == "while"@ || s == "until"@ || s
            == "do"@ || s == "done"@ || s == "function"@ || s == "in"@ ==> (command(t, pos, c) matches Err(
            e,
        ) && e is Unsupported))),
        pos < t.len() && (t[pos].0 is Great || t[pos].0 is DGreat || t[pos].0 is Less || t[pos].0
            is Great2 || t[pos].0 is DGreat2) && (pos + 1 == t.len() || !(t[pos + 1].0 is Word)) ==> (
        command(t, pos, c) matches Err(e) && e is Parse),
{
}

// ---------------------------------------------------------------------------------
// Pipelines, lists and scripts
// ---------------------------------------------------------------------------------
/// The commands of a pipeline from the `k`-th on as they are written, with `|` between them.
pub open spec fn stage_tokens(p: Seq<Command>, k: int) -> Seq<Token>
    decreases p.len() - k,
{
    if k < 0 || k >= p.len() {
        Seq::empty()
    } else if k + 1 == p.len() {
        command_tokens(p[k])
    } else {
        command_tokens(p[k]) + seq![Token::Pipe] + stage_tokens(p, k + 1)
    }
}

pub open spec fn writable_pipe(p: Seq<Command>) -> bool {
    p.len() > 0 && forall|i: int| 0 <= i < p.len() ==> writable(#[trigger] p[i])
}

proof fn lemma_command_starts(c: Command)
    requires
        writable(c),
    ensures
        command_tokens(c).len() > 0,
        !(command_tokens(c)[0] is Semi),
{
    if c.assigns.len() == 0 && c.argv.len() == 0 {
        assert(redirs_tokens(c.redirects, 0) == redir_tokens(c.redirects[0]) + redirs_tokens(
            c.redirects,
            1,
        ));
        assert(command_tokens(c) =~= redirs_tokens(c.redirects, 0));
    }
}

proof fn lemma_stages(t: Seq<(Token, int)>, pos: int, p: Seq<Command>, k: int)
    requires
        0 <= k < p.len(),
        writable_pipe(p),
        spells(t, pos, stage_tokens(p, k)),
        ends_at(t, pos + stage_tokens(p, k).len()),
        pos + stage_tokens(p, k).len() < t.len() ==> !(t[pos + stage_tokens(p, k).len()].0 is Pipe),
    ensures
        pipeline(t, pos, p.take(k)) == Ok::<_, Fault>((p, pos + stage_tokens(p, k).len())),
    decreases p.len() - k,
{
    let ts = stage_tokens(p, k);
    let head = command_tokens(p[k]);
    let z = pos + head.len();
    assert(writable(p[k]));
    assert forall|i: int| 0 <= i < head.len() implies (#[trigger] t[pos + i]).0 == head[i] by {
        assert(t[pos + i].0 == ts[i]);
    }
    assert(p.take(k).push(p[k]) =~= p.take(k + 1));
    if k + 1 == p.len() {
        law_command_reads_back(t, pos, p[k]);
        assert(p.take(k + 1) =~= p);
    } else {
        let rest = stage_tokens(p, k + 1);
        assert(ts == head + seq![Token::Pipe] + rest);
        assert(t[pos + head.len() as int].0 == ts[head.len() as int]);
        law_command_reads_back(t, pos, p[k]);
        assert forall|i: int| 0 <= i < rest.len() implies (#[trigger] t[z + 1 + i]).0 == rest[i] by {
            assert(t[pos + (head.len() + 1 + i)].0 == ts[head.len() + 1 + i]);
        }
        lemma_command_starts(p[k + 1]);
        assert(rest[0] == command_tokens(p[k + 1])[0]);
        assert(t[z + 1 + 0].0 == rest[0]);
        assert(skip_semis(t, z + 1) == z + 1);
        lemma_stages(t, z + 1, p, k + 1);
    }
}

/// A pipeline that is written down, with `|` between its commands, is read back.
pub proof fn law_pipeline_reads_back(t: Seq<(Token, int)>, pos: int, p: Seq<Command>)
    requires
        writable_pipe(p),
        spells(t, pos, stage_tokens(p, 0)),
        ends_at(t, pos + stage_tokens(p, 0).len()),
        pos + stage_tokens(p, 0).len() < t.len() ==> !(t[pos + stage_tokens(p, 0).len()].0 is Pipe),
    ensures
        pipeline(t, pos, Seq::empty()) == Ok::<_, Fault>((p, pos + stage_tokens(p, 0).len())),
{
    assert(p.take(0) =~= Seq::empty());
    lemma_stages(t, pos, p, 0);
}

/// The steps of a list from the `k`-th on as they are written.
pub open spec fn step_tokens(tail: Seq<(SeqOp, Seq<Command>)>, k: int) -> Seq<Token>
    decreases tail.len() - k,
{
    if k < 0 || k >= tail.len() {
        Seq::empty()
    } else {
        seq![
            if tail[k].0 == SeqOp::AndIf {
                Token::AndIf
            } else {
                Token::OrIf
            },
        ] + stage_tokens(tail[k].1, 0) + step_tokens(tail, k + 1)
    }
}

pub open spec fn writable_chain(c: Chain) -> bool {
    writable_pipe(c.head) && forall|i: int|
        0 <= i < c.tail.len() ==> writable_pipe((#[trigger] c.tail[i]).1)
}

proof fn lemma_stage_starts(p: Seq<Command>)
    requires
        writable_pipe(p),
    ensures
        stage_tokens(p, 0).len() > 0,
        !(stage_tokens(p, 0)[0] is Semi),
        stage_tokens(p, 0)[0] == command_tokens(p[0])[0],
{
    assert(writable(p[0]));
    lemma_command_starts(p[0]);
}

proof fn lemma_chain_steps(t: Seq<(Token, int)>, pos: int, c: Chain, k: int)
    requires
        0 <= k <= c.tail.len(),
        writable_chain(c),
        spells(t, pos, step_tokens(c.tail, k)),
        ({
            let z = pos + step_tokens(c.tail, k).len();
            z == t.len() || (z < t.len() && t[z].0 is Semi)
        }),
    ensures
        steps(t, pos, c.head, c.tail.take(k)) == Ok::<_, Fault>(
            (c, pos + step_tokens(c.tail, k).len()),
        ),
    decreases c.tail.len() - k,
{
    let ts = step_tokens(c.tail, k);
    if k < c.tail.len() {
        let p = c.tail[k].1;
        let mid = stage_tokens(p, 0);
        let rest = step_tokens(c.tail, k + 1);
        assert(writable_pipe(p));
        assert(t[pos + 0].0 == ts[0]);
        lemma_stage_starts(p);
        assert forall|i: int| 0 <= i < mid.len() implies (#[trigger] t[pos + 1 + i]).0 == mid[i] by {
            assert(t[pos + (1 + i)].0 == ts[1 + i]);
        }
        assert(t[pos + 1 + 0].0 == mid[0]);
        assert(skip_semis(t, pos + 1) == pos + 1);
        let z = pos + 1 + mid.len();
        assert forall|i: int| 0 <= i < rest.len() implies (#[trigger] t[z + i]).0 == rest[i] by {
            assert(t[pos + (1 + mid.len() + i)].0 == ts[1 + mid.len() + i]);
        }
        if k + 1 < c.tail.len() {
            assert(t[z + 0].0 == rest[0]);
        }
        law_pipeline_reads_back(t, pos + 1, p);
        lemma_chain_steps(t, z, c, k + 1);
        assert(c.tail.take(k).push(c.tail[k]) =~= c.tail.take(k + 1));
    } else {
        assert(c.tail.take(k) =~= c.tail);
    }
}

/// A list of pipelines as it is written.
pub open spec fn chain_tokens(c: Chain) -> Seq<Token> {
    stage_tokens(c.head, 0) + step_tokens(c.tail, 0)
}

/// A list that is written down, with `&&` and `||` between its pipelines, is read back.
pub proof fn law_list_reads_back(t: Seq<(Token, int)>, pos: int, c: Chain)
    requires
        writable_chain(c),
        spells(t, pos, chain_tokens(c)),
        ({
            let z = pos + chain_tokens(c).len();
            z == t.len() || (z < t.len() && t[z].0 is Semi)
        }),
    ensures
        chain(t, pos) == Ok::<_, Fault>((c, pos + chain_tokens(c).len())),
{
    let ts = chain_tokens(c);
    let head = stage_tokens(c.head, 0);
    let rest = step_tokens(c.tail, 0);
    let z = pos + head.len();
    assert forall|i: int| 0 <= i < head.len() implies (#[trigger] t[pos + i]).0 == head[i] by {
        assert(t[pos + i].0 == ts[i]);
    }
    assert forall|i: int| 0 <= i < rest.len() implies (#[trigger] t[z + i]).0 == rest[i] by {
        assert(t[pos + (head.len() + i)].0 == ts[head.len() + i]);
    }
    if c.tail.len() > 0 {
        assert(t[z + 0].0 == rest[0]);
    }
    law_pipeline_reads_back(t, pos, c.head);
    assert(c.tail.take(0) =~= Seq::empty());
    lemma_chain_steps(t, z, c, 0);
}

/// An item of a script as it is written.
pub open spec fn unit_tokens(u: Unit) -> Seq<Token> {
    match u {
        Unit::Assign(name, value) => seq![Token::Assign(name, value)],
        Unit::Run(c) => chain_tokens(c),
    }
}

/// The items of a script from the `k`-th on as they are written, each with a `;` behind it.
pub open spec fn script_tokens(u: Seq<Unit>, k: int) -> Seq<Token>
    decreases u.len() - k,
{
    if k < 0 || k >= u.len() {
        Seq::empty()
    } else {
        unit_tokens(u[k]) + seq![Token::Semi] + script_tokens(u, k + 1)
    }
}

pub open spec fn writable_unit(u: Unit) -> bool {
    u matches Unit::Run(c) ==> writable_chain(c)
}

proof fn lemma_head_assigns(t: Seq<(Token, int)>, pos: int, c: Command, k: int)
    requires
        0 <= k <= c.assigns.len(),
        writable(c),
        spells(t, pos, command_tokens(c)),
    ensures
        assigns_end(t, pos + k) == pos + c.assigns.len(),
        c.assigns.len() < command_tokens(c).len(),
        !(t[pos + c.assigns.len()].0 is Assign || t[pos + c.assigns.len()].0 is Semi),
    decreases c.assigns.len() - k,
{
    let ts = command_tokens(c);
    let n = c.assigns.len() as int;
    assert(redirs_tokens(c.redirects, 0).len() > 0 || c.redirects.len() == 0);
    assert(n < ts.len());
    assert(t[pos + n].0 == ts[n]);
    if c.argv.len() > 0 {
        assert(ts[n] == Token::Word(c.argv[0]));
    } else {
        assert(ts[n] == redirs_tokens(c.redirects, 0)[0]);
    }
    if k < n {
        assert(t[pos + k].0 == ts[k]);
        assert(ts[k] == Token::Assign(c.assigns[k].0, c.assigns[k].1));
        lemma_head_assigns(t, pos, c, k + 1);
    }
}

proof fn lemma_items(t: Seq<(Token, int)>, pos: int, u: Seq<Unit>, k: int)
    requires
        0 <= k <= u.len(),
        forall|i: int| 0 <= i < u.len() ==> writable_unit(#[trigger] u[i]),
        spells(t, pos, script_tokens(u, k)),
        pos + script_tokens(u, k).len() == t.len(),
    ensures
        program(t, pos, u.take(k)) == Ok::<_, Fault>(u),
    decreases u.len() - k,
{
    if k < u.len() {
        let ts = script_tokens(u, k);
        let head = unit_tokens(u[k]);
        let rest = script_tokens(u, k + 1);
        let z = pos + head.len();
        assert(writable_unit(u[k]));
        assert forall|i: int| 0 <= i < head.len() implies (#[trigger] t[pos + i]).0 == head[i] by {
            assert(t[pos + i].0 == ts[i]);
        }
        assert(t[pos + head.len() as int].0 == ts[head.len() as int]);
        assert(t[z].0 is Semi);
        assert forall|i: int| 0 <= i < rest.len() implies (#[trigger] t[z + 1 + i]).0 == rest[i] by {
            assert(t[pos + (head.len() + 1 + i)].0 == ts[head.len() + 1 + i]);
        }
        lemma_items(t, z + 1, u, k + 1);
        assert(u.take(k).push(u[k]) =~= u.take(k + 1));
        lemma_after_semi(t, z, u.take(k + 1));
        match u[k] {
            Unit::Assign(name, value) => {
                assert(t[pos + 0].0 == head[0]);
                assert(skip_semis(t, pos) == pos);
                assert(assigns_end(t, pos + 1) == pos + 1);
                assert(assigns_end(t, pos) == pos + 1);
                assert(bare(t, pos, pos + 1) =~= seq![u[k]]);
                assert(u.take(k) + bare(t, pos, pos + 1) =~= u.take(k + 1));
                assert(program(t, pos, u.take(k)) == program(t, z, u.take(k + 1)));
            },
            Unit::Run(c) => {
                let first = c.head[0];
                assert(writable(first));
                lemma_stage_starts(c.head);
                assert(t[pos + 0].0 == head[0]);
                assert(head[0] == stage_tokens(c.head, 0)[0]);
                assert(skip_semis(t, pos) == pos);
                let ct = command_tokens(first);
                assert forall|i: int| 0 <= i < ct.len() implies (#[trigger] t[pos + i]).0 == ct[i] by {
                    assert(t[pos + i].0 == head[i]);
                    assert(head[i] == stage_tokens(c.head, 0)[i]);
                }
                lemma_head_assigns(t, pos, first, 0);
                law_list_reads_back(t, pos, c);
                assert(program(t, pos, u.take(k)) == program(t, z, u.take(k).push(Unit::Run(c))));
            },
        }
    } else {
        assert(u.take(k) =~= u);
        assert(skip_semis(t, pos) == pos);
    }
}

proof fn lemma_after_semi(t: Seq<(Token, int)>, z: int, items: Seq<Unit>)
    requires
        0 <= z < t.len(),
        t[z].0 is Semi,
    ensures
        program(t, z, items) == program(t, z + 1, items),
{
    assert(skip_semis(t, z) == skip_semis(t, z + 1));
    lemma_skip_semis(t, z + 1);
}

/// A script that is written down, with `;` or a newline behind each of its items, is read back:
/// all of its items, in their order.
pub proof fn law_script_reads_back(t: Seq<(Token, int)>, u: Seq<Unit>)
    requires
        forall|i: int| 0 <= i < u.len() ==> writable_unit(#[trigger] u[i]),
        spells(t, 0, script_tokens(u, 0)),
        script_tokens(u, 0).len() == t.len(),
    ensures
        program(t, 0, Seq::empty()) == Ok::<_, Fault>(u),
{
    assert(u.take(0) =~= Seq::empty());
    lemma_items(t, 0, u, 0);
}

// ---------------------------------------------------------------------------------
// Tokens
// ---------------------------------------------------------------------------------
/// A byte that stands for itself outside quotes.
pub open spec fn plain(c: u8) -> bool {
    !(c == 0x20 || c == 0x09 || c == 0x0a || c == 0x3b || c == 0x7c || c == 0x26 || c == 0x3c || c
        == 0x3e || c == 0x60 || c == 0x28 || c == 0x29 || c == 0x27 || c == 0x22 || c == 0x5c || c
        == 0x24 || c == 0x2a || c == 0x3f || c == 0x5b)
}

proof fn lemma_plain(b: Seq<u8>, i: int, z: int, cur: Seq<char>, parts: Seq<Part>)
    requires
        0 <= i <= z <= b.len(),
        forall|k: int| i <= k < z ==> plain(#[trigger] b[k]),
    ensures
        word(b, i, cur, parts) == word(b, z, cur + latin(b.subrange(i, z)), parts),
    decreases z - i,
{
    if i < z {
        assert(plain(b[i]));
        lemma_plain(b, i + 1, z, cur.push(b[i] as char), parts);
        assert(cur.push(b[i] as char) + latin(b.subrange(i + 1, z)) =~= cur + latin(
            b.subrange(i, z),
        ));
    } else {
        assert(cur + latin(b.subrange(i, z)) =~= cur);
    }
}

/// Text without quotes, blanks or operators is one word that stands for itself.
pub proof fn law_plain_text_is_a_word(b: Seq<u8>, i: int, z: int)
    requires
        0 <= i < z <= b.len(),
        forall|k: int| i <= k < z ==> plain(#[trigger] b[k]),
        z == b.len() || b[z] == 0x20 || b[z] == 0x09 || b[z] == 0x0a || b[z] == 0x3b || b[z] == 0x7c
            || b[z] == 0x26 || b[z] == 0x3e || b[z] == 0x3c,
    ensures
        word(b, i, Seq::empty(), Seq::empty()) == Ok::<_, Fault>(
            (seq![Part::Literal(latin(b.subrange(i, z)))], z),
        ),
{
    lemma_plain(b, i, z, Seq::empty(), Seq::empty());
    assert(Seq::<char>::empty() + latin(b.subrange(i, z)) =~= latin(b.subrange(i, z)));
    assert(Seq::<Part>::empty().push(Part::Literal(latin(b.subrange(i, z)))) =~= seq![
        Part::Literal(latin(b.subrange(i, z))),
    ]);
}

/// Between single quotes everything stands for itself, up to the next single quote; the word goes
/// on behind it. Without one the script is refused.
pub proof fn law_single_quotes_keep_everything(
    b: Seq<u8>,
    i: int,
    z: int,
    cur: Seq<char>,
    parts: Seq<Part>,
)
    requires
        0 <= i < z <= b.len(),
        b[i] == 0x27,
        forall|k: int| i < k < z ==> #[trigger] b[k] != 0x27,
        z < b.len() ==> b[z] == 0x27,
    ensures
        z < b.len() ==> word(b, i, cur, parts) == word(
            b,
            z + 1,
            cur + decode_utf8(b.subrange(i + 1, z)),
            parts,
        ),
        z == b.len() ==> (word(b, i, cur, parts) matches Err(e) && e is Parse),
{
    lemma_seek(b, i + 1, 0x27);
    let w = seek(b, i + 1, 0x27);
    assert(w == z) by {
        if w < z {
            assert(b[w] != 0x27);
        }
    }
}

/// A byte that stands for itself between double quotes.
pub open spec fn plain_quoted(c: u8) -> bool {
    !(c == 0x22 || c == 0x5c || c == 0x24 || c == 0x60)
}

proof fn lemma_quoted(b: Seq<u8>, i: int, z: int, cur: Seq<char>, parts: Seq<Part>)
    requires
        0 <= i <= z <= b.len(),
        forall|k: int| i <= k < z ==> plain_quoted(#[trigger] b[k]),
    ensures
        dquote(b, i, cur, parts) == dquote(b, z, cur + latin(b.subrange(i, z)), parts),
    decreases z - i,
{
    if i < z {
        assert(plain_quoted(b[i]));
        lemma_quoted(b, i + 1, z, cur.push(b[i] as char), parts);
        assert(cur.push(b[i] as char) + latin(b.subrange(i + 1, z)) =~= cur + latin(
            b.subrange(i, z),
        ));
    } else {
        assert(cur + latin(b.subrange(i, z)) =~= cur);
    }
}

/// Between double quotes blanks, operators and single quotes stand for themselves; only `$`, the
/// backslash, the backtick and the closing quote do not.
pub proof fn law_double_quotes_keep_text(
    b: Seq<u8>,
    i: int,
    z: int,
    cur: Seq<char>,
    parts: Seq<Part>,
)
    requires
        0 <= i < z < b.len(),
        b[i] == 0x22,
        forall|k: int| i < k < z ==> plain_quoted(#[trigger] b[k]),
        b[z] == 0x22,
    ensures
        word(b, i, cur, parts) == word(b, z + 1, cur + latin(b.subrange(i + 1, z)), parts),
{
    lemma_quoted(b, i + 1, z, cur, parts);
}

/// A backslash keeps what follows it. Outside quotes that is any byte; between double quotes it
/// is `$`, the backtick, the double quote and the backslash, and before another byte the
/// backslash stays. A newline behind it goes with it.
pub proof fn law_backslash_keeps_the_next(b: Seq<u8>, i: int, cur: Seq<char>, parts: Seq<Part>)
    requires
        0 <= i,
        i + 1 < b.len(),
        b[i] == 0x5c,
    ensures
        b[i + 1] == 0x0a ==> word(b, i, cur, parts) == word(b, i + 2, cur, parts),
        b[i + 1] == 0x0a ==> dquote(b, i, cur, parts) == dquote(b, i + 2, cur, parts),
        b[i + 1] != 0x0a ==> word(b, i, cur, parts) == word(
            b,
            i + 2,
            cur.push(b[i + 1] as char),
            parts,
        ),
        b[i + 1] == 0x24 || b[i + 1] == 0x60 || b[i + 1] == 0x22 || b[i + 1] == 0x5c ==> dquote(
            b,
            i,
            cur,
            parts,
        ) == dquote(b, i + 2, cur.push(b[i + 1] as char), parts),
        b[i + 1] != 0x24 && b[i + 1] != 0x60 && b[i + 1] != 0x22 && b[i + 1] != 0x5c && b[i + 1]
            != 0x0a ==> dquote(b, i, cur, parts) == dquote(b, i + 1, cur.push('\\'), parts),
{
}

/// A byte that can stand in the name of a variable.
pub open spec fn name_byte(c: u8) -> bool {
    (0x61 <= c <= 0x7a) || (0x41 <= c <= 0x5a) || (0x30 <= c <= 0x39) || c == 0x5f
}

proof fn lemma_name(b: Seq<u8>, i: int, z: int)
    requires
        0 <= i <= z <= b.len(),
        forall|k: int| i <= k < z ==> name_byte(#[trigger] b[k]),
        z < b.len() ==> !name_byte(b[z]),
    ensures
        name_end(b, i) == z,
    decreases z - i,
{
    if i < z {
        assert(name_byte(b[i]));
        lemma_name(b, i + 1, z);
    }
}

/// `$NAME` and `${NAME}` are the variable of that name, in a word as between double quotes, and
/// the text before them is a part of its own.
pub proof fn law_dollar_names_a_variable(
    b: Seq<u8>,
    i: int,
    z: int,
    cur: Seq<char>,
    parts: Seq<Part>,
)
    requires
        0 <= i,
        i + 1 < z <= b.len(),
        b[i] == 0x24,
    ensures
        (forall|k: int| i < k < z ==> name_byte(#[trigger] b[k])) && !(0x30 <= b[i + 1] <= 0x39) && (z
            < b.len() ==> !name_byte(b[z])) ==> {
            let var = Part::Var(latin(b.subrange(i + 1, z)));
            let before = if cur.len() > 0 {
                parts.push(Part::Literal(cur))
            } else {
                parts
            };
            &&& word(b, i, cur, parts) == word(b, z, Seq::empty(), before.push(var))
            &&& dquote(b, i, cur, parts) == dquote(b, z, Seq::empty(), before.push(var))
        },
        i + 2 < z && z < b.len() && b[i + 1] == 0x7b && (forall|k: int|
            i + 1 < k < z ==> name_byte(#[trigger] b[k])) && b[z] == 0x7d ==> {
            let var = Part::Var(latin(b.subrange(i + 2, z)));
            let before = if cur.len() > 0 {
                parts.push(Part::Literal(cur))
            } else {
                parts
            };
            &&& word(b, i, cur, parts) == word(b, z + 1, Seq::empty(), before.push(var))
            &&& dquote(b, i, cur, parts) == dquote(b, z + 1, Seq::empty(), before.push(var))
        },
{
    if (forall|k: int| i < k < z ==> name_byte(#[trigger] b[k])) && !(0x30 <= b[i + 1] <= 0x39) && (z
        < b.len() ==> !name_byte(b[z])) {
        assert(name_byte(b[i + 1]));
        lemma_name(b, i + 1, z);
    }
    if i + 2 < z && z < b.len() && b[i + 1] == 0x7b && (forall|k: int|
        i + 1 < k < z ==> name_byte(#[trigger] b[k])) && b[z] == 0x7d {
        lemma_name(b, i + 2, z);
    }
}

/// A byte that does not count where the end of `$(` is looked for.
pub open spec fn inert(c: u8) -> bool {
    c != 0x28 && c != 0x29 && c != 0x27 && c != 0x22 && c != 0x5c
}

proof fn lemma_inert(b: Seq<u8>, i: int, z: int, depth: nat)
    requires
        0 <= i <= z <= b.len(),
        forall|k: int| i <= k < z ==> inert(#[trigger] b[k]),
    ensures
        sub_close(b, i, depth) == sub_close(b, z, depth),
    decreases z - i,
{
    if i < z {
        assert(inert(b[i]));
        lemma_inert(b, i + 1, z, depth);
    }
}

/// `$(body)` runs the body: all that stands up to its closing parenthesis. Parentheses inside
/// are matched, those between quotes or behind a backslash do not count, and without a closing
/// one the script is refused.
pub proof fn law_substitution_runs_its_body(
    b: Seq<u8>,
    i: int,
    z: int,
    cur: Seq<char>,
    parts: Seq<Part>,
    depth: nat,
)
    requires
        0 <= i,
        i + 2 <= z < b.len(),
        depth > 0,
    ensures
        b[i] == 0x24 && b[i + 1] == 0x28 && b[z] == 0x29 && (forall|k: int|
            i + 2 <= k < z ==> inert(#[trigger] b[k])) ==> {
            let body = Part::CmdSub(decode_utf8(b.subrange(i + 2, z)));
            let before = if cur.len() > 0 {
                parts.push(Part::Literal(cur))
            } else {
                parts
            };
            &&& word(b, i, cur, parts) == word(b, z + 1, Seq::empty(), before.push(body))
            &&& dquote(b, i, cur, parts) == dquote(b, z + 1, Seq::empty(), before.push(body))
        },
        b[i] == 0x28 ==> sub_close(b, i, depth) == sub_close(b, i + 1, depth + 1),
        b[i] == 0x29 && depth > 1 ==> sub_close(b, i, depth) == sub_close(
            b,
            i + 1,
            (depth - 1) as nat,
        ),
        b[i] == 0x29 && depth == 1 ==> sub_close(b, i, depth) == Some(i),
        b[i] == 0x5c ==> sub_close(b, i, depth) == sub_close(b, i + 2, depth),
        b[i] == 0x27 && b[z] == 0x27 && (forall|k: int| i < k < z ==> #[trigger] b[k] != 0x27)
            ==> sub_close(b, i, depth) == sub_close(b, z + 1, depth),
        b[i] == 0x24 && b[i + 1] == 0x28 && sub_close(b, i + 2, 1) is None ==> (word(
            b,
            i,
            cur,
            parts,
        ) matches Err(e) && e is Parse),
{
    if b[i + 1] == 0x28 && b[z] == 0x29 && (forall|k: int| i + 2 <= k < z ==> inert(#[trigger] b[k])) {
        lemma_inert(b, i + 2, z, 1);
    }
    if b[i] == 0x27 && b[z] == 0x27 && (forall|k: int| i < k < z ==> #[trigger] b[k] != 0x27) {
        lemma_seek(b, i + 1, 0x27);
        let w = seek(b, i + 1, 0x27);
        assert(w == z) by {
            if w < z {
                assert(b[w] != 0x27);
            }
        }
    }
}

/// Each operator is its own token: `;` and a newline, `|`, `||`, `&&`, `>`, `>>`, `<`, `2>`, `2>>`
/// and `2>&1`, the longest that stands there.
pub proof fn law_operators(b: Seq<u8>, i: int)
    requires
        0 <= i < b.len(),
    ensures
        ({
            let c1: int = if i + 1 < b.len() {
                b[i + 1] as int
            } else {
                -1
            };
            let c2: int = if i + 2 < b.len() {
                b[i + 2] as int
            } else {
                -1
            };
            let c3: int = if i + 3 < b.len() {
                b[i + 3] as int
            } else {
                -1
            };
            let t = token_at(b, i);
            &&& b[i] == 0x3b || b[i] == 0x0a ==> t == Ok::<_, Fault>((Token::Semi, i + 1))
            &&& b[i] == 0x7c && c1 == 0x7c ==> t == Ok::<_, Fault>((Token::OrIf, i + 2))
            &&& b[i] == 0x7c && c1 != 0x7c ==> t == Ok::<_, Fault>((Token::Pipe, i + 1))
            &&& b[i] == 0x26 && c1 == 0x26 ==> t == Ok::<_, Fault>((Token::AndIf, i + 2))
            &&& b[i] == 0x26 && c1 != 0x26 ==> t is Err
            &&& b[i] == 0x3e && c1 == 0x3e ==> t == Ok::<_, Fault>((Token::DGreat, i + 2))
            &&& b[i] == 0x3e && c1 != 0x3e ==> t == Ok::<_, Fault>((Token::Great, i + 1))
            &&& b[i] == 0x3c && (c1 == 0x3c || c1 == 0x28) ==> t is Err
            &&& b[i] == 0x3c && c1 != 0x3c && c1 != 0x28 ==> t == Ok::<_, Fault>(
                (Token::Less, i + 1),
            )
            &&& b[i] == 0x60 || b[i] == 0x28 || b[i] == 0x29 ==> t is Err
            &&& b[i] == 0x32 && c1 == 0x3e && c2 == 0x26 && c3 == 0x31 ==> t == Ok::<_, Fault>(
                (Token::Err2Out, i + 4),
            )
            &&& b[i] == 0x32 && c1 == 0x3e && c2 == 0x26 && c3 != 0x31 ==> t is Err
            &&& b[i] == 0x32 && c1 == 0x3e && c2 == 0x3e ==> t == Ok::<_, Fault>(
                (Token::DGreat2, i + 3),
            )
            &&& b[i] == 0x32 && c1 == 0x3e && c2 != 0x26 && c2 != 0x3e ==> t == Ok::<_, Fault>(
                (Token::Great2, i + 2),
            )
        }),
{
}

/// A word that begins with a name and `=` is an assignment of what follows, and any other word
/// is none.
pub proof fn law_assignment_is_name_and_value(name: Seq<char>, value: Seq<char>, rest: Seq<Part>)
    requires
        forall|i: int| 0 <= i < name.len() ==> name[i] != '=',
    ensures
        ({
            let good = name.len() > 0 && !('0' <= name[0] <= '9') && forall|i: int|
                0 <= i < name.len() ==> (#[trigger] name[i] == '_' || ('a' <= name[i] <= 'z') || ('A'
                    <= name[i] <= 'Z') || ('0' <= name[i] <= '9'));
            let w = seq![Part::Literal(name.push('=') + value)] + rest;
            &&& good && value.len() > 0 ==> assignment(w) == Some(
                (name, seq![Part::Literal(value)] + rest),
            )
            &&& good && value.len() == 0 ==> assignment(w) == Some((name, rest))
            &&& !good ==> assignment(w) is None
            &&& assignment(seq![Part::Literal(name)] + rest) is None
        }),
{
    let lit = name.push('=') + value;
    let w = seq![Part::Literal(lit)] + rest;
    lemma_seek_char(lit, 0, '=');
    assert(lit[name.len() as int] == '=');
    assert forall|i: int| 0 <= i < name.len() implies lit[i] != '=' by {
        assert(lit[i] == name[i]);
    }
    let eq = seek_char(lit, 0, '=');
    assert(eq == name.len());
    assert(lit.take(eq) =~= name);
    assert(lit.skip(eq + 1) =~= value);
    assert(w.skip(1) =~= rest);
    assert(Seq::<Part>::empty() + rest =~= rest);
    lemma_seek_char(name, 0, '=');
}

/// Blanks are skipped, and a comment up to the end of its line where it begins a word. Anything
/// else is the next token, behind those that were read before, with the offset it stands at.
pub proof fn law_tokens_in_their_order(b: Seq<u8>, i: int, out: Seq<(Token, int)>, z: int)
    requires
        0 <= i < b.len(),
        i <= z <= b.len(),
    ensures
        b[i] == 0x20 || b[i] == 0x09 ==> tokens(b, i, out) == tokens(b, i + 1, out),
        b[i] == 0x23 && (i == 0 || b[i - 1] == 0x20 || b[i - 1] == 0x09 || b[i - 1] == 0x0a || b[i - 1]
            == 0x3b || b[i - 1] == 0x7c || b[i - 1] == 0x26) && (forall|k: int| i <= k < z ==> #[trigger] b[k] != 0x0a) && (z == b.len() || b[z] == 0x0a)
            ==> tokens(b, i, out) == tokens(b, z, out),
        b[i] != 0x20 && b[i] != 0x09 && !(b[i] == 0x23 && (i == 0 || b[i - 1] == 0x20 || b[i - 1] == 0x09
            || b[i - 1] == 0x0a || b[i - 1] == 0x3b || b[i - 1] == 0x7c || b[i - 1] == 0x26)) && !(b[i]
            == 0x5c && i + 1 < b.len() && b[i + 1] == 0x0a) ==> match token_at(b, i) {
            Ok((t, end)) => tokens(b, i, out) == tokens(b, end, out.push((t, i))),
            Err(e) => tokens(b, i, out) == Err::<Seq<(Token, int)>, Fault>(e),
        },
        tokens(b, b.len() as int, out) == Ok::<_, Fault>(out),
{
    lemma_seek(b, i, 0x0a);
    let w = seek(b, i, 0x0a);
    if (forall|k: int| i <= k < z ==> #[trigger] b[k] != 0x0a) && (z == b.len() || b[z] == 0x0a) {
        assert(w == z) by {
            if w < z {
                assert(b[w] != 0x0a);
            }
        }
    }
}

/// Assignments with nothing between them that no command follows are all made, in their order.
pub proof fn law_bare_assignments_stand_alone(t: Seq<(Token, int)>, n: int)
    requires
        0 < n <= t.len(),
        forall|i: int| 0 <= i < n ==> (#[trigger] t[i]).0 is Assign,
        n == t.len() || t[n].0 is Semi,
    ensures
        ({
            let u = Seq::new(
                n as nat,
                |i: int| Unit::Assign(t[i].0->Assign_0, t[i].0->Assign_1),
            );
            &&& program(t, 0, Seq::empty()) == program(t, n, u)
            &&& n == t.len() ==> program(t, 0, Seq::empty()) == Ok::<_, Fault>(u)
        }),
{
    let u = Seq::new(n as nat, |i: int| Unit::Assign(t[i].0->Assign_0, t[i].0->Assign_1));
    assert(t[0].0 is Assign);
    assert(skip_semis(t, 0) == 0);
    lemma_assigns_to(t, 0, n);
    assert(Seq::<Unit>::empty() + bare(t, 0, n) =~= u);
    assert(skip_semis(t, n) == n || n < t.len());
}

proof fn lemma_assigns_to(t: Seq<(Token, int)>, i: int, n: int)
    requires
        0 <= i <= n <= t.len(),
        forall|k: int| i <= k < n ==> (#[trigger] t[k]).0 is Assign,
        n == t.len() || t[n].0 is Semi,
    ensures
        assigns_end(t, i) == n,
    decreases n - i,
{
    if i < n {
        assert(t[i].0 is Assign);
        lemma_assigns_to(t, i + 1, n);
    }
}

/// Behind `|`, `&&` and `||` newlines do not count, and neither do they before an item.
pub proof fn law_newlines_behind_operators(
    t: Seq<(Token, int)>,
    pos: int,
    z: int,
    c: Command,
    done: Seq<Command>,
    head: Seq<Command>,
    tail: Seq<(SeqOp, Seq<Command>)>,
    p: Seq<Command>,
    end: int,
)
    requires
        0 <= pos <= t.len(),
        pos < z < t.len(),
    ensures
        t[z].0 is Semi ==> skip_semis(t, z) == skip_semis(t, z + 1),
        !(t[z].0 is Semi) ==> skip_semis(t, z) == z,
        command(t, pos, empty_command()) == Ok::<_, Fault>((c, z)) && t[z].0 is Pipe ==> pipeline(
            t,
            pos,
            done,
        ) == pipeline(t, skip_semis(t, z + 1), done.push(c)),
        command(t, pos, empty_command()) == Ok::<_, Fault>((c, z)) && !(t[z].0 is Pipe) ==> pipeline(
            t,
            pos,
            done,
        ) == Ok::<_, Fault>((done.push(c), z)),
        t[z].0 is AndIf && pipeline(t, skip_semis(t, z + 1), Seq::empty()) == Ok::<_, Fault>((p, end))
            && z < end <= t.len() ==> steps(t, z, head, tail) == steps(
            t,
            end,
            head,
            tail.push((SeqOp::AndIf, p)),
        ),
        t[z].0 is OrIf && pipeline(t, skip_semis(t, z + 1), Seq::empty()) == Ok::<_, Fault>((p, end)) && z
            < end <= t.len() ==> steps(t, z, head, tail) == steps(
            t,
            end,
            head,
            tail.push((SeqOp::OrIf, p)),
        ),
{
    lemma_skip_semis(t, z + 1);
}

/// A backslash before a newline joins two lines: between tokens both are skipped.
pub proof fn law_lines_are_joined(b: Seq<u8>, i: int, out: Seq<(Token, int)>)
    requires
        0 <= i,
        i + 1 < b.len(),
        b[i] == 0x5c,
        b[i + 1] == 0x0a,
    ensures
        tokens(b, i, out) == tokens(b, i + 2, out),
{
}

// ---------------------------------------------------------------------------------
// Mathematical forms
// ---------------------------------------------------------------------------------
/// The mathematical form of a command has all its assignments, words and redirections, in their
/// order, and that of a list all its pipelines.
pub proof fn law_forms_are_faithful(c: SimpleCommand, s: Sequence, u: Seq<Item>, w: Seq<WordPart>, i: int)
    ensures
        word_view(w).len() == w.len(),
        0 <= i < w.len() ==> word_view(w)[i] == (match w[i] {
            WordPart::Literal(x) => Part::Literal(x@),
            WordPart::Var(x) => Part::Var(x@),
            WordPart::CmdSub(x) => Part::CmdSub(x@),
        }),
        c@.assigns.len() == c.assigns@.len() && c@.argv.len() == c.argv@.len() && c@.redirects.len()
            == c.redirects@.len(),
        0 <= i < c.assigns@.len() ==> c@.assigns[i] == (c.assigns@[i].0@, word_view(c.assigns@[i].1@)),
        0 <= i < c.argv@.len() ==> c@.argv[i] == word_view(c.argv@[i]@),
        0 <= i < c.redirects@.len() ==> c@.redirects[i] == (match c.redirects@[i] {
            Redirect::StdoutTrunc(x) => Redir::StdoutTrunc(word_view(x@)),
            Redirect::StdoutAppend(x) => Redir::StdoutAppend(word_view(x@)),
            Redirect::Stdin(x) => Redir::Stdin(word_view(x@)),
            Redirect::StderrTrunc(x) => Redir::StderrTrunc(word_view(x@)),
            Redirect::StderrAppend(x) => Redir::StderrAppend(word_view(x@)),
            Redirect::Err2Out => Redir::Err2Out,
        }),
        s@.head.len() == s.head.stages@.len() && s@.tail.len() == s.tail@.len(),
        0 <= i < s.head.stages@.len() ==> s@.head[i] == s.head.stages@[i]@,
        0 <= i < s.tail@.len() ==> s@.tail[i].0 == s.tail@[i].0 && s@.tail[i].1 == s.tail@[i].1@,
        items_view(u).len() == u.len(),
        0 <= i < u.len() ==> items_view(u)[i] == (match u[i] {
            Item::BareAssign(k, x) => Unit::Assign(k@, word_view(x@)),
            Item::Run(x) => Unit::Run(x@),
        }),
{
}

/// A dollar that begins nothing stands for itself. Special parameters, braces with anything but a
/// name in them, wildcards, backticks and an open quote are refused.
pub proof fn law_refused_words(b: Seq<u8>, i: int, z: int, cur: Seq<char>, parts: Seq<Part>)
    requires
        0 <= i < b.len(),
    ensures
        b[i] == 0x2a || b[i] == 0x3f || b[i] == 0x5b ==> (word(b, i, cur, parts) matches Err(e) && e
            is Unsupported),
        b[i] == 0x60 ==> (dquote(b, i, cur, parts) matches Err(e) && e is Unsupported),
        b[i] == 0x24 && i + 1 < b.len() && (b[i + 1] == 0x24 || b[i + 1] == 0x3f || b[i + 1] == 0x21
            || b[i + 1] == 0x23 || b[i + 1] == 0x40 || b[i + 1] == 0x2a) ==> (word(b, i, cur, parts) matches Err(
            e,
        ) && e is Unsupported) && (dquote(b, i, cur, parts) matches Err(f) && f is Unsupported),
        b[i] == 0x24 && (i + 1 == b.len() || !(name_byte(b[i + 1]) && !(0x30 <= b[i + 1] <= 0x39))
            && b[i + 1] != 0x28 && b[i + 1] != 0x7b && b[i + 1] != 0x24 && b[i + 1] != 0x3f && b[i + 1]
            != 0x21 && b[i + 1] != 0x23 && b[i + 1] != 0x40 && b[i + 1] != 0x2a) ==> word(
            b,
            i,
            cur,
            parts,
        ) == word(
            b,
            i + 1,
            Seq::empty(),
            (if cur.len() > 0 {
                parts.push(Part::Literal(cur))
            } else {
                parts
            }).push(Part::Literal("$"@)),
        ),
        b[i] == 0x24 && i + 1 < z < b.len() && b[i + 1] == 0x7b && (forall|k: int|
            i + 1 < k < z ==> name_byte(#[trigger] b[k])) && !name_byte(b[z]) && (b[z] != 0x7d || z == i
            + 2) ==> word(b, i, cur, parts) is Err,
        dquote(b, b.len() as int, cur, parts) is Err,
{
    if i + 1 < z < b.len() && (forall|k: int| i + 1 < k < z ==> name_byte(#[trigger] b[k]))
        && !name_byte(b[z]) {
        lemma_name(b, i + 2, z);
    }
}

} // verus!

//! Parser: tokens to a list of items.

use vstd::prelude::*;
use vstd::utf8::*;

use super::lex::{
    bodies_below, parse_error, part_below, token_below, tokenize, tokens, tokens_below, toks_view,
    word_view, Part, Tok, Token, Word, WordPart,
};
use super::{Fault, ShellError};
use crate::text::{dec, push_dec, quote, quoted, text_eq};

verus! {

/// A redirection of one of the standard streams.
#[derive(Debug)]
pub enum Redirect {
    StdoutTrunc(Word),
    StdoutAppend(Word),
    Stdin(Word),
    StderrTrunc(Word),
    StderrAppend(Word),
    Err2Out,
}

#[derive(Debug)]
pub struct SimpleCommand {
    /// `KEY=value` prefixes; they apply to this command only.
    pub assigns: Vec<(String, Word)>,
    pub argv: Vec<Word>,
    pub redirects: Vec<Redirect>,
}

#[derive(Debug)]
pub struct Pipeline {
    pub stages: Vec<SimpleCommand>,
}

#[derive(Debug, Clone, Copy, PartialEq, Eq, Structural)]
pub enum SeqOp {
    /// `&&`
    AndIf,
    /// `||`
    OrIf,
}

/// `head op step op step ...`
#[derive(Debug)]
pub struct Sequence {
    pub head: Pipeline,
    pub tail: Vec<(SeqOp, Pipeline)>,
}

#[derive(Debug)]
pub enum Item {
    /// A standalone `KEY=value`, which sets a shell variable.
    BareAssign(String, Word),
    Run(Sequence),
}

/// The mathematical form of a `Redirect`.
pub enum Redir {
    StdoutTrunc(Seq<Part>),
    StdoutAppend(Seq<Part>),
    Stdin(Seq<Part>),
    StderrTrunc(Seq<Part>),
    StderrAppend(Seq<Part>),
    Err2Out,
}

/// The mathematical form of a `SimpleCommand`.
pub struct Command {
    pub assigns: Seq<(Seq<char>, Seq<Part>)>,
    pub argv: Seq<Seq<Part>>,
    pub redirects: Seq<Redir>,
}

/// The mathematical form of a `Sequence`.
pub struct Chain {
    pub head: Seq<Command>,
    pub tail: Seq<(SeqOp, Seq<Command>)>,
}

/// The mathematical form of an `Item`.
pub enum Unit {
    Assign(Seq<char>, Seq<Part>),
    Run(Chain),
}

impl View for Redirect {
    type V = Redir;

    open spec fn view(&self) -> Redir {
        match *self {
            Redirect::StdoutTrunc(w) => Redir::StdoutTrunc(word_view(w@)),
            Redirect::StdoutAppend(w) => Redir::StdoutAppend(word_view(w@)),
            Redirect::Stdin(w) => Redir::Stdin(word_view(w@)),
            Redirect::StderrTrunc(w) => Redir::StderrTrunc(word_view(w@)),
            Redirect::StderrAppend(w) => Redir::StderrAppend(word_view(w@)),
            Redirect::Err2Out => Redir::Err2Out,
        }
    }
}

pub open spec fn assigns_view(a: Seq<(String, Word)>) -> Seq<(Seq<char>, Seq<Part>)> {
    Seq::new(a.len(), |i: int| (a[i].0@, word_view(a[i].1@)))
}

pub open spec fn argv_view(a: Seq<Word>) -> Seq<Seq<Part>> {
    Seq::new(a.len(), |i: int| word_view(a[i]@))
}

pub open spec fn redirects_view(r: Seq<Redirect>) -> Seq<Redir> {
    Seq::new(r.len(), |i: int| r[i]@)
}

impl View for SimpleCommand {
    type V = Command;

    open spec fn view(&self) -> Command {
        Command {
            assigns: assigns_view(self.assigns@),
            argv: argv_view(self.argv@),
            redirects: redirects_view(self.redirects@),
        }
    }
}

impl View for Pipeline {
    type V = Seq<Command>;

    open spec fn view(&self) -> Seq<Command> {
        Seq::new(self.stages@.len(), |i: int| self.stages@[i]@)
    }
}

pub open spec fn tail_view(t: Seq<(SeqOp, Pipeline)>) -> Seq<(SeqOp, Seq<Command>)> {
    Seq::new(t.len(), |i: int| (t[i].0, t[i].1@))
}

impl View for Sequence {
    type V = Chain;

    open spec fn view(&self) -> Chain {
        Chain { head: self.head@, tail: tail_view(self.tail@) }
    }
}

impl View for Item {
    type V = Unit;

    open spec fn view(&self) -> Unit {
        match *self {
            Item::BareAssign(k, w) => Unit::Assign(k@, word_view(w@)),
            Item::Run(s) => Unit::Run(s@),
        }
    }
}

pub open spec fn items_view(items: Seq<Item>) -> Seq<Unit> {
    Seq::new(items.len(), |i: int| items[i]@)
}

// ---------------------------------------------------------------------------------
// Grammar
// ---------------------------------------------------------------------------------
pub open spec fn empty_command() -> Command {
    Command { assigns: Seq::empty(), argv: Seq::empty(), redirects: Seq::empty() }
}

/// Offset in the script of the token at `pos`, 0 behind the last one.
pub open spec fn offset_at(t: Seq<(Token, int)>, pos: int) -> int {
    if 0 <= pos < t.len() {
        t[pos].1
    } else {
        0
    }
}

pub open spec fn keyword(s: Seq<char>) -> bool {
    s == "if"@ || s == "then"@ || s == "else"@ || s == "elif"@ || s == "fi"@ || s == "case"@ || s
        == "esac"@ || s == "for"@ || s == "select"@ || s == "while"@ || s == "until"@ || s == "do"@
        || s == "done"@ || s == "function"@ || s == "in"@
}

/// The name of a command that is one literal.
pub open spec fn literal_name(argv: Seq<Seq<Part>>) -> Option<Seq<char>> {
    if argv.len() > 0 && argv[0].len() == 1 {
        match argv[0][0] {
            Part::Literal(s) => Some(s),
            _ => None,
        }
    } else {
        None
    }
}

/// Accepts a command that has ended at `pos`.
pub open spec fn accept(t: Seq<(Token, int)>, pos: int, c: Command) -> Result<
    (Command, int),
    Fault,
> {
    if c.assigns.len() == 0 && c.argv.len() == 0 && c.redirects.len() == 0 {
        Err(Fault::Parse { msg: "expected a command"@, pos: offset_at(t, pos) })
    } else {
        match literal_name(c.argv) {
            Some(name) => if keyword(name) {
                Err(
                    Fault::Unsupported(
                        "shell keyword `"@ + name
                            + "` (loops/conditionals/functions) not supported"@,
                    ),
                )
            } else {
                Ok((c, pos))
            },
            None => Ok((c, pos)),
        }
    }
}

/// The form in which a part is shown in an error.
pub open spec fn show_part(p: Part) -> Seq<char> {
    match p {
        Part::Literal(s) => "Literal("@ + quoted(s) + ")"@,
        Part::Var(s) => "Var("@ + quoted(s) + ")"@,
        Part::CmdSub(s) => "CmdSub("@ + quoted(s) + ")"@,
    }
}

/// The first `n` parts of a word, with commas between them.
pub open spec fn show_parts(w: Seq<Part>, n: int) -> Seq<char>
    decreases n,
{
    if n <= 0 {
        Seq::empty()
    } else if n == 1 {
        show_part(w[0])
    } else {
        show_parts(w, n - 1) + ", "@ + show_part(w[n - 1])
    }
}

pub open spec fn show_word(w: Seq<Part>) -> Seq<char> {
    "["@ + show_parts(w, w.len() as int) + "]"@
}

pub open spec fn show_token(t: Token) -> Seq<char> {
    match t {
        Token::Word(w) => "Word("@ + show_word(w) + ")"@,
        Token::Assign(k, w) => "Assign("@ + quoted(k) + ", "@ + show_word(w) + ")"@,
        Token::Semi => "Semi"@,
        Token::AndIf => "AndIf"@,
        Token::OrIf => "OrIf"@,
        Token::Pipe => "Pipe"@,
        Token::Great => "Great"@,
        Token::DGreat => "DGreat"@,
        Token::Less => "Less"@,
        Token::Great2 => "Great2"@,
        Token::DGreat2 => "DGreat2"@,
        Token::Err2Out => "Err2Out"@,
    }
}

/// The form in which the token at `pos`, or its absence, is shown in an error.
pub open spec fn show_at(t: Seq<(Token, int)>, pos: int) -> Seq<char> {
    if 0 <= pos < t.len() {
        "Some(("@ + show_token(t[pos].0) + ", "@ + dec(t[pos].1 as nat) + "))"@
    } else {
        "None"@
    }
}

/// The word that names the target of a redirection.
pub open spec fn target(t: Seq<(Token, int)>, pos: int) -> Result<Seq<Part>, Fault> {
    if 0 <= pos < t.len() && t[pos].0 is Word {
        Ok(t[pos].0->Word_0)
    } else {
        Err(
            Fault::Parse {
                msg: "expected filename after redirect, got "@ + show_at(t, pos),
                pos: offset_at(
                    t,
                    if pos < t.len() {
                        pos + 1
                    } else {
                        pos
                    },
                ),
            },
        )
    }
}

/// The redirection that an operator with the given target stands for.
pub open spec fn redirection(op: Token, w: Seq<Part>) -> Redir {
    match op {
        Token::Great => Redir::StdoutTrunc(w),
        Token::DGreat => Redir::StdoutAppend(w),
        Token::Less => Redir::Stdin(w),
        Token::Great2 => Redir::StderrTrunc(w),
        _ => Redir::StderrAppend(w),
    }
}

/// Reads a simple command from `pos`, behind the pieces read so far.
pub open spec fn command(t: Seq<(Token, int)>, pos: int, c: Command) -> Result<
    (Command, int),
    Fault,
>
    decreases t.len() - pos,
{
    if pos < 0 || pos >= t.len() {
        accept(t, pos, c)
    } else {
        match t[pos].0 {
            Token::Word(w) => command(t, pos + 1, Command { argv: c.argv.push(w), ..c }),
            Token::Assign(k, v) => if c.argv.len() == 0 {
                command(t, pos + 1, Command { assigns: c.assigns.push((k, v)), ..c })
            } else {
                // Behind the command name `KEY=value` is a plain word.
                command(
                    t,
                    pos + 1,
                    Command { argv: c.argv.push(seq![Part::Literal(k + "="@)] + v), ..c },
                )
            },
            Token::Great | Token::DGreat | Token::Less | Token::Great2 | Token::DGreat2 => {
                match target(t, pos + 1) {
                    Ok(w) => command(
                        t,
                        pos + 2,
                        Command { redirects: c.redirects.push(redirection(t[pos].0, w)), ..c },
                    ),
                    Err(e) => Err(e),
                }
            },
            Token::Err2Out => command(
                t,
                pos + 1,
                Command { redirects: c.redirects.push(Redir::Err2Out), ..c },
            ),
            _ => accept(t, pos, c),
        }
    }
}

/// A command ends behind its beginning.
pub proof fn lemma_command(t: Seq<(Token, int)>, pos: int, c: Command)
    requires
        0 <= pos <= t.len(),
    ensures
        command(t, pos, c) matches Ok((_, z)) ==> pos <= z <= t.len() && (c == empty_command()
            ==> pos < z),
    decreases t.len() - pos,
{
    if pos < t.len() {
        match t[pos].0 {
            Token::Word(w) => {
                lemma_command(t, pos + 1, Command { argv: c.argv.push(w), ..c });
            },
            Token::Assign(k, v) => {
                if c.argv.len() == 0 {
                    lemma_command(
                        t,
                        pos + 1,
                        Command { assigns: c.assigns.push((k, v)), ..c },
                    );
                } else {
                    lemma_command(
                        t,
                        pos + 1,
                        Command { argv: c.argv.push(seq![Part::Literal(k + "="@)] + v), ..c },
                    );
                }
            },
            Token::Great | Token::DGreat | Token::Less | Token::Great2 | Token::DGreat2 => {
                match target(t, pos + 1) {
                    Ok(w) => {
                        lemma_command(
                            t,
                            pos + 2,
                            Command { redirects: c.redirects.push(redirection(t[pos].0, w)), ..c },
                        );
                    },
                    Err(_) => {},
                }
            },
            Token::Err2Out => {
                lemma_command(
                    t,
                    pos + 1,
                    Command { redirects: c.redirects.push(Redir::Err2Out), ..c },
                );
            },
            _ => {},
        }
    }
}

/// Position of the first token at or after `pos` that is not a separator.
pub open spec fn skip_semis(t: Seq<(Token, int)>, pos: int) -> int
    decreases t.len() - pos,
{
    if 0 <= pos < t.len() && t[pos].0 is Semi {
        skip_semis(t, pos + 1)
    } else {
        pos
    }
}

pub proof fn lemma_skip_semis(t: Seq<(Token, int)>, pos: int)
    requires
        0 <= pos <= t.len(),
    ensures
        pos <= skip_semis(t, pos) <= t.len(),
    decreases t.len() - pos,
{
    if pos < t.len() && t[pos].0 is Semi {
        lemma_skip_semis(t, pos + 1);
    }
}

/// Reads a pipeline from `pos`, behind the stages read so far.
pub open spec fn pipeline(t: Seq<(Token, int)>, pos: int, stages: Seq<Command>) -> Result<
    (Seq<Command>, int),
    Fault,
>
    decreases t.len() - pos,
    when 0 <= pos <= t.len()
{
    match command(t, pos, empty_command()) {
        Ok((c, z)) => {
            if 0 <= z < t.len() && t[z].0 is Pipe {
                proof {
                    lemma_command(t, pos, empty_command());
                    lemma_skip_semis(t, z + 1);
                }
                pipeline(t, skip_semis(t, z + 1), stages.push(c))
            } else {
                Ok((stages.push(c), z))
            }
        },
        Err(e) => Err(e),
    }
}

pub proof fn lemma_pipeline(t: Seq<(Token, int)>, pos: int, stages: Seq<Command>)
    requires
        0 <= pos <= t.len(),
    ensures
        pipeline(t, pos, stages) matches Ok((_, z)) ==> pos < z <= t.len(),
    decreases t.len() - pos,
{
    lemma_command(t, pos, empty_command());
    match command(t, pos, empty_command()) {
        Ok((c, z)) => {
            if z < t.len() && t[z].0 is Pipe {
                lemma_skip_semis(t, z + 1);
                lemma_pipeline(t, skip_semis(t, z + 1), stages.push(c));
            }
        },
        Err(_) => {},
    }
}

/// Reads the `&&` and `||` steps from `pos`, behind those read so far.
pub open spec fn steps(
    t: Seq<(Token, int)>,
    pos: int,
    head: Seq<Command>,
    tail: Seq<(SeqOp, Seq<Command>)>,
) -> Result<(Chain, int), Fault>
    decreases t.len() - pos,
{
    if 0 <= pos < t.len() && (t[pos].0 is AndIf || t[pos].0 is OrIf) {
        let op = if t[pos].0 is AndIf {
            SeqOp::AndIf
        } else {
            SeqOp::OrIf
        };
        match pipeline(t, skip_semis(t, pos + 1), Seq::empty()) {
            Ok((p, z)) => {
                proof {
                    lemma_skip_semis(t, pos + 1);
                    lemma_pipeline(t, skip_semis(t, pos + 1), Seq::empty());
                }
                steps(t, z, head, tail.push((op, p)))
            },
            Err(e) => Err(e),
        }
    } else {
        Ok((Chain { head, tail }, pos))
    }
}

pub proof fn lemma_steps(
    t: Seq<(Token, int)>,
    pos: int,
    head: Seq<Command>,
    tail: Seq<(SeqOp, Seq<Command>)>,
)
    requires
        0 <= pos <= t.len(),
    ensures
        steps(t, pos, head, tail) matches Ok((_, z)) ==> pos <= z <= t.len(),
    decreases t.len() - pos,
{
    if pos < t.len() && (t[pos].0 is AndIf || t[pos].0 is OrIf) {
        let op = if t[pos].0 is AndIf {
            SeqOp::AndIf
        } else {
            SeqOp::OrIf
        };
        lemma_skip_semis(t, pos + 1);
        lemma_pipeline(t, skip_semis(t, pos + 1), Seq::empty());
        match pipeline(t, skip_semis(t, pos + 1), Seq::empty()) {
            Ok((p, z)) => {
                lemma_steps(t, z, head, tail.push((op, p)));
            },
            Err(_) => {},
        }
    }
}

/// Reads a chain of pipelines from `pos`.
pub open spec fn chain(t: Seq<(Token, int)>, pos: int) -> Result<(Chain, int), Fault> {
    match pipeline(t, pos, Seq::empty()) {
        Ok((p, z)) => steps(t, z, p, Seq::empty()),
        Err(e) => Err(e),
    }
}

/// Position of the first token at or after `pos` that is not an assignment.
pub open spec fn assigns_end(t: Seq<(Token, int)>, pos: int) -> int
    decreases t.len() - pos,
{
    if 0 <= pos < t.len() && t[pos].0 is Assign {
        assigns_end(t, pos + 1)
    } else {
        pos
    }
}

pub proof fn lemma_assigns_end(t: Seq<(Token, int)>, pos: int)
    requires
        0 <= pos <= t.len(),
    ensures
        pos <= assigns_end(t, pos) <= t.len(),
        pos < t.len() && t[pos].0 is Assign ==> pos < assigns_end(t, pos),
        forall|k: int| pos <= k < assigns_end(t, pos) ==> (#[trigger] t[k]).0 is Assign,
    decreases t.len() - pos,
{
    if pos < t.len() && t[pos].0 is Assign {
        lemma_assigns_end(t, pos + 1);
    }
}

/// The assignments at positions `from` to `to` as items.
pub open spec fn bare(t: Seq<(Token, int)>, from: int, to: int) -> Seq<Unit> {
    Seq::new(
        (to - from) as nat,
        |i: int| Unit::Assign(t[from + i].0->Assign_0, t[from + i].0->Assign_1),
    )
}

/// Reads the items from `pos` on, behind those read so far. Assignments that no command
/// follows stand alone; otherwise they belong to the command.
pub open spec fn program(t: Seq<(Token, int)>, pos: int, items: Seq<Unit>) -> Result<
    Seq<Unit>,
    Fault,
>
    decreases t.len() - pos,
    when 0 <= pos <= t.len()
{
    let p = skip_semis(t, pos);
    if p >= t.len() {
        Ok(items)
    } else {
        let e = assigns_end(t, p);
        if e > p && (e >= t.len() || t[e].0 is Semi) {
            proof {
                lemma_skip_semis(t, pos);
                lemma_assigns_end(t, p);
            }
            program(t, e, items + bare(t, p, e))
        } else {
            match chain(t, p) {
                Ok((c, z)) => {
                    proof {
                        lemma_skip_semis(t, pos);
                        lemma_pipeline(t, p, Seq::empty());
                        let q = pipeline(t, p, Seq::empty())->Ok_0;
                        lemma_steps(t, q.1, q.0, Seq::empty());
                    }
                    program(t, z, items.push(Unit::Run(c)))
                },
                Err(e) => Err(e),
            }
        }
    }
}

/// The items of a script.
pub open spec fn script_items(src: Seq<char>) -> Result<Seq<Unit>, Fault> {
    match tokens(encode_utf8(src), 0, Seq::empty()) {
        Ok(t) => program(t, 0, Seq::empty()),
        Err(e) => Err(e),
    }
}

// ---------------------------------------------------------------------------------
// The `$(...)` bodies of a script are shorter than the script
// ---------------------------------------------------------------------------------
pub open spec fn redir_below(r: Redir, n: int) -> bool {
    match r {
        Redir::StdoutTrunc(w) => bodies_below(w, n),
        Redir::StdoutAppend(w) => bodies_below(w, n),
        Redir::Stdin(w) => bodies_below(w, n),
        Redir::StderrTrunc(w) => bodies_below(w, n),
        Redir::StderrAppend(w) => bodies_below(w, n),
        Redir::Err2Out => true,
    }
}

pub open spec fn command_below(c: Command, n: int) -> bool {
    &&& forall|i: int| 0 <= i < c.assigns.len() ==> bodies_below(#[trigger] c.assigns[i].1, n)
    &&& forall|i: int| 0 <= i < c.argv.len() ==> bodies_below(#[trigger] c.argv[i], n)
    &&& forall|i: int| 0 <= i < c.redirects.len() ==> redir_below(#[trigger] c.redirects[i], n)
}

pub open spec fn pipeline_below(p: Seq<Command>, n: int) -> bool {
    forall|i: int| 0 <= i < p.len() ==> command_below(#[trigger] p[i], n)
}

pub open spec fn chain_below(c: Chain, n: int) -> bool {
    &&& pipeline_below(c.head, n)
    &&& forall|i: int| 0 <= i < c.tail.len() ==> pipeline_below(#[trigger] c.tail[i].1, n)
}

pub open spec fn unit_below(u: Unit, n: int) -> bool {
    match u {
        Unit::Assign(_, w) => bodies_below(w, n),
        Unit::Run(c) => chain_below(c, n),
    }
}

pub open spec fn units_below(u: Seq<Unit>, n: int) -> bool {
    forall|i: int| 0 <= i < u.len() ==> unit_below(#[trigger] u[i], n)
}

proof fn lemma_target_below(t: Seq<(Token, int)>, pos: int, n: int)
    requires
        tokens_below(t, n),
    ensures
        target(t, pos) matches Ok(w) ==> bodies_below(w, n),
{
    if 0 <= pos < t.len() {
        assert(token_below(t[pos].0, n));
    }
}

proof fn lemma_command_below(t: Seq<(Token, int)>, pos: int, c: Command, n: int)
    requires
        0 <= pos <= t.len(),
        tokens_below(t, n),
        command_below(c, n),
    ensures
        command(t, pos, c) matches Ok((d, _)) ==> command_below(d, n),
    decreases t.len() - pos,
{
    if pos < t.len() {
        assert(token_below(t[pos].0, n));
        match t[pos].0 {
            Token::Word(w) => {
                lemma_command_below(t, pos + 1, Command { argv: c.argv.push(w), ..c }, n);
            },
            Token::Assign(k, v) => {
                if c.argv.len() == 0 {
                    lemma_command_below(
                        t,
                        pos + 1,
                        Command { assigns: c.assigns.push((k, v)), ..c },
                        n,
                    );
                } else {
                    let w = seq![Part::Literal(k + "="@)] + v;
                    assert forall|i: int| 0 <= i < w.len() implies part_below(
                        #[trigger] w[i],
                        n,
                    ) by {
                        if i > 0 {
                            assert(w[i] == v[i - 1]);
                        }
                    }
                    lemma_command_below(t, pos + 1, Command { argv: c.argv.push(w), ..c }, n);
                }
            },
            Token::Great | Token::DGreat | Token::Less | Token::Great2 | Token::DGreat2 => {
                lemma_target_below(t, pos + 1, n);
                match target(t, pos + 1) {
                    Ok(w) => {
                        lemma_command_below(
                            t,
                            pos + 2,
                            Command { redirects: c.redirects.push(redirection(t[pos].0, w)), ..c },
                            n,
                        );
                    },
                    Err(_) => {},
                }
            },
            Token::Err2Out => {
                lemma_command_below(
                    t,
                    pos + 1,
                    Command { redirects: c.redirects.push(Redir::Err2Out), ..c },
                    n,
                );
            },
            _ => {},
        }
    }
}

proof fn lemma_pipeline_below(t: Seq<(Token, int)>, pos: int, stages: Seq<Command>, n: int)
    requires
        0 <= pos <= t.len(),
        tokens_below(t, n),
        pipeline_below(stages, n),
    ensures
        pipeline(t, pos, stages) matches Ok((p, _)) ==> pipeline_below(p, n),
    decreases t.len() - pos,
{
    lemma_command(t, pos, empty_command());
    lemma_command_below(t, pos, empty_command(), n);
    match command(t, pos, empty_command()) {
        Ok((c, z)) => {
            assert(pipeline_below(stages.push(c), n));
            if z < t.len() && t[z].0 is Pipe {
                lemma_skip_semis(t, z + 1);
                lemma_pipeline_below(t, skip_semis(t, z + 1), stages.push(c), n);
            }
        },
        Err(_) => {},
    }
}

proof fn lemma_steps_below(
    t: Seq<(Token, int)>,
    pos: int,
    head: Seq<Command>,
    tail: Seq<(SeqOp, Seq<Command>)>,
    n: int,
)
    requires
        0 <= pos <= t.len(),
        tokens_below(t, n),
        chain_below(Chain { head, tail }, n),
    ensures
        steps(t, pos, head, tail) matches Ok((c, _)) ==> chain_below(c, n),
    decreases t.len() - pos,
{
    if pos < t.len() && (t[pos].0 is AndIf || t[pos].0 is OrIf) {
        let op = if t[pos].0 is AndIf {
            SeqOp::AndIf
        } else {
            SeqOp::OrIf
        };
        lemma_skip_semis(t, pos + 1);
        lemma_pipeline(t, skip_semis(t, pos + 1), Seq::empty());
        lemma_pipeline_below(t, skip_semis(t, pos + 1), Seq::empty(), n);
        match pipeline(t, skip_semis(t, pos + 1), Seq::empty()) {
            Ok((p, z)) => {
                let more = tail.push((op, p));
                assert forall|i: int| 0 <= i < more.len() implies pipeline_below(
                    #[trigger] more[i].1,
                    n,
                ) by {
                    if i < tail.len() {
                        assert(more[i] == tail[i]);
                        assert(pipeline_below((Chain { head, tail }).tail[i].1, n));
                    } else {
                        assert(more[i] == (op, p));
                        assert(pipeline_below(p, n));
                    }
                }
                lemma_steps_below(t, z, head, more, n);
            },
            Err(_) => {},
        }
    }
}

proof fn lemma_program_below(t: Seq<(Token, int)>, pos: int, items: Seq<Unit>, n: int)
    requires
        0 <= pos <= t.len(),
        tokens_below(t, n),
        units_below(items, n),
    ensures
        program(t, pos, items) matches Ok(u) ==> units_below(u, n),
    decreases t.len() - pos,
{
    let p = skip_semis(t, pos);
    lemma_skip_semis(t, pos);
    if p < t.len() {
        let e = assigns_end(t, p);
        lemma_assigns_end(t, p);
        if e > p && (e >= t.len() || t[e].0 is Semi) {
            let more = items + bare(t, p, e);
            assert forall|i: int| 0 <= i < more.len() implies unit_below(#[trigger] more[i], n) by {
                if i >= items.len() {
                    assert(more[i] == bare(t, p, e)[i - items.len()]);
                    assert(token_below(t[p + (i - items.len())].0, n));
                }
            }
            lemma_program_below(t, e, more, n);
        } else {
            lemma_pipeline(t, p, Seq::empty());
            lemma_pipeline_below(t, p, Seq::empty(), n);
            match pipeline(t, p, Seq::empty()) {
                Ok((q, z)) => {
                    lemma_steps(t, z, q, Seq::empty());
                    lemma_steps_below(t, z, q, Seq::empty(), n);
                    match steps(t, z, q, Seq::empty()) {
                        Ok((c, y)) => {
                            lemma_program_below(t, y, items.push(Unit::Run(c)), n);
                        },
                        Err(_) => {},
                    }
                },
                Err(_) => {},
            }
        }
    }
}

// ---------------------------------------------------------------------------------
// Reader
// ---------------------------------------------------------------------------------
/// A copy of a word.
pub fn copy_word(w: &Word) -> (res: Word)
    ensures
        word_view(res@) == word_view(w@),
{
    let mut res: Word = Vec::new();
    let mut i: usize = 0;
    while i < w.len()
        invariant
            i <= w@.len(),
            word_view(res@) =~= word_view(w@.take(i as int)),
        decreases w.len() - i,
    {
        let p = match &w[i] {
            WordPart::Literal(s) => WordPart::Literal(s.clone()),
            WordPart::Var(s) => WordPart::Var(s.clone()),
            WordPart::CmdSub(s) => WordPart::CmdSub(s.clone()),
        };
        proof {
            assert(p@ == w@[i as int]@);
            assert(w@.take(i + 1) =~= w@.take(i as int).push(w@[i as int]));
            assert(word_view(res@.push(p)) =~= word_view(res@).push(p@));
            assert(word_view(w@.take(i + 1)) =~= word_view(w@.take(i as int)).push(p@));
        }
        res.push(p);
        i += 1;
    }
    proof {
        assert(w@.take(w@.len() as int) =~= w@);
    }
    res
}

fn is_keyword(s: &str) -> (res: bool)
    ensures
        res == keyword(s@),
{
    text_eq(s, "if") || text_eq(s, "then") || text_eq(s, "else") || text_eq(s, "elif") || text_eq(
        s,
        "fi",
    ) || text_eq(s, "case") || text_eq(s, "esac") || text_eq(s, "for") || text_eq(s, "select")
        || text_eq(s, "while") || text_eq(s, "until") || text_eq(s, "do") || text_eq(s, "done")
        || text_eq(s, "function") || text_eq(s, "in")
}

/// The name of a command that is one literal.
fn first_literal(argv: &Vec<Word>) -> (res: Option<&String>)
    ensures
        match res {
            Some(s) => literal_name(argv_view(argv@)) == Some(s@),
            None => literal_name(argv_view(argv@)) is None,
        },
{
    if argv.len() > 0 {
        proof {
            assert(argv_view(argv@)[0] == word_view(argv@[0]@));
        }
        if argv[0].len() == 1 {
            proof {
                assert(argv_view(argv@)[0][0] == argv@[0]@[0]@);
            }
            return match &argv[0][0] {
                WordPart::Literal(s) => Some(s),
                _ => None,
            };
        }
    }
    None
}

fn offset(toks: &[(Tok, usize)], pos: usize) -> (res: usize)
    ensures
        res == offset_at(toks_view(toks@), pos as int),
{
    if pos < toks.len() {
        toks[pos].1
    } else {
        0
    }
}

fn push_part(out: &mut String, p: &WordPart)
    ensures
        final(out)@ == old(out)@ + show_part(p@),
{
    let ghost start = out@;
    match p {
        WordPart::Literal(s) => {
            out.push_str("Literal(");
            out.push_str(quote(s.as_str()).as_str());
        },
        WordPart::Var(s) => {
            out.push_str("Var(");
            out.push_str(quote(s.as_str()).as_str());
        },
        WordPart::CmdSub(s) => {
            out.push_str("CmdSub(");
            out.push_str(quote(s.as_str()).as_str());
        },
    }
    out.push_str(")");
    proof {
        assert(out@ =~= start + show_part(p@));
    }
}

fn push_word(out: &mut String, w: &Word)
    ensures
        final(out)@ == old(out)@ + show_word(word_view(w@)),
{
    let ghost start = out@;
    let ghost v = word_view(w@);
    out.push_str("[");
    let mut i: usize = 0;
    while i < w.len()
        invariant
            i <= w@.len(),
            v == word_view(w@),
            out@ =~= start + "["@ + show_parts(v, i as int),
        decreases w.len() - i,
    {
        if i > 0 {
            out.push_str(", ");
        }
        push_part(out, &w[i]);
        proof {
            assert(v[i as int] == w@[i as int]@);
        }
        i += 1;
    }
    out.push_str("]");
    proof {
        assert(out@ =~= start + show_word(v));
    }
}

fn push_token(out: &mut String, t: &Tok)
    ensures
        final(out)@ == old(out)@ + show_token(t@),
{
    let ghost start = out@;
    match t {
        Tok::Word(w) => {
            out.push_str("Word(");
            push_word(out, w);
            out.push_str(")");
        },
        Tok::Assign(k, w) => {
            out.push_str("Assign(");
            out.push_str(quote(k.as_str()).as_str());
            out.push_str(", ");
            push_word(out, w);
            out.push_str(")");
        },
        Tok::Semi => out.push_str("Semi"),
        Tok::AndIf => out.push_str("AndIf"),
        Tok::OrIf => out.push_str("OrIf"),
        Tok::Pipe => out.push_str("Pipe"),
        Tok::Great => out.push_str("Great"),
        Tok::DGreat => out.push_str("DGreat"),
        Tok::Less => out.push_str("Less"),
        Tok::Great2 => out.push_str("Great2"),
        Tok::DGreat2 => out.push_str("DGreat2"),
        Tok::Err2Out => out.push_str("Err2Out"),
    }
    proof {
        assert(out@ =~= start + show_token(t@));
    }
}

/// The word that names the target of a redirection.
fn expect_target(toks: &[(Tok, usize)], pos: usize) -> (res: Result<Word, ShellError>)
    requires
        pos <= toks@.len(),
    ensures
        match res {
            Ok(w) => target(toks_view(toks@), pos as int) == Ok::<_, Fault>(word_view(w@)),
            Err(e) => target(toks_view(toks@), pos as int) == Err::<Seq<Part>, _>(e@),
        },
        res is Ok ==> pos < toks@.len(),
{
    let ghost t = toks_view(toks@);
    let mut msg = "expected filename after redirect, got ".to_owned();
    if pos < toks.len() {
        proof {
            assert(t[pos as int] == (toks@[pos as int].0@, toks@[pos as int].1 as int));
        }
        match &toks[pos].0 {
            Tok::Word(w) => Ok(copy_word(w)),
            other => {
                msg.push_str("Some((");
                push_token(&mut msg, other);
                msg.push_str(", ");
                push_dec(&mut msg, toks[pos].1 as u128);
                msg.push_str("))");
                proof {
                    assert(msg@ =~= "expected filename after redirect, got "@ + show_at(
                        t,
                        pos as int,
                    ));
                }
                Err(ShellError::ParseError { msg, pos: offset(toks, pos + 1) })
            },
        }
    } else {
        msg.push_str("None");
        Err(ShellError::ParseError { msg, pos: offset(toks, pos) })
    }
}

/// Reads a simple command.
fn simple_command(toks: &[(Tok, usize)], from: usize) -> (res: Result<
    (SimpleCommand, usize),
    ShellError,
>)
    requires
        from <= toks@.len(),
    ensures
        match res {
            Ok((c, z)) => command(toks_view(toks@), from as int, empty_command()) == Ok::<_, Fault>(
                (c@, z as int),
            ) && z <= toks@.len(),
            Err(e) => command(toks_view(toks@), from as int, empty_command()) == Err::<
                (Command, int),
                _,
            >(e@),
        },
{
    let ghost t = toks_view(toks@);
    let ghost goal = command(t, from as int, empty_command());
    let mut assigns: Vec<(String, Word)> = Vec::new();
    let mut argv: Vec<Word> = Vec::new();
    let mut redirects: Vec<Redirect> = Vec::new();
    let mut pos: usize = from;
    proof {
        assert(assigns_view(assigns@) =~= empty_command().assigns);
        assert(argv_view(argv@) =~= empty_command().argv);
        assert(redirects_view(redirects@) =~= empty_command().redirects);
    }
    while pos < toks.len()
        invariant_except_break
            goal == command(
                t,
                pos as int,
                (Command {
                    assigns: assigns_view(assigns@),
                    argv: argv_view(argv@),
                    redirects: redirects_view(redirects@),
                }),
            ),
        invariant
            from <= pos <= toks@.len(),
            t == toks_view(toks@),
            goal == command(t, from as int, empty_command()),
        ensures
            goal == accept(
                t,
                pos as int,
                (Command {
                    assigns: assigns_view(assigns@),
                    argv: argv_view(argv@),
                    redirects: redirects_view(redirects@),
                }),
            ),
        decreases toks.len() - pos,
    {
        let ghost a0 = assigns@;
        let ghost v0 = argv@;
        let ghost r0 = redirects@;
        proof {
            assert(t[pos as int].0 == toks@[pos as int].0@);
        }
        match &toks[pos].0 {
            Tok::Word(w) => {
                argv.push(copy_word(w));
                proof {
                    assert(argv_view(argv@) =~= argv_view(v0).push(word_view(w@)));
                }
                pos += 1;
            },
            Tok::Assign(k, v) => {
                if argv.len() == 0 {
                    assigns.push((k.clone(), copy_word(v)));
                    proof {
                        assert(assigns_view(assigns@) =~= assigns_view(a0).push(
                            (k@, word_view(v@)),
                        ));
                    }
                } else {
                    let mut lit = k.clone();
                    lit.push_str("=");
                    let mut w: Word = Vec::new();
                    w.push(WordPart::Literal(lit));
                    let mut rest = copy_word(v);
                    w.append(&mut rest);
                    proof {
                        assert(word_view(w@) =~= seq![Part::Literal(k@ + "="@)] + word_view(v@));
                    }
                    argv.push(w);
                    proof {
                        assert(argv_view(argv@) =~= argv_view(v0).push(word_view(w@)));
                    }
                }
                pos += 1;
            },
            Tok::Great => {
                match expect_target(toks, pos + 1) {
                    Ok(w) => {
                        redirects.push(Redirect::StdoutTrunc(w));
                        proof {
                            assert(redirects_view(redirects@) =~= redirects_view(r0).push(
                                Redir::StdoutTrunc(word_view(w@)),
                            ));
                        }
                    },
                    Err(e) => {
                        return Err(e);
                    },
                }
                pos += 2;
            },
            Tok::DGreat => {
                match expect_target(toks, pos + 1) {
                    Ok(w) => {
                        redirects.push(Redirect::StdoutAppend(w));
                        proof {
                            assert(redirects_view(redirects@) =~= redirects_view(r0).push(
                                Redir::StdoutAppend(word_view(w@)),
                            ));
                        }
                    },
                    Err(e) => {
                        return Err(e);
                    },
                }
                pos += 2;
            },
            Tok::Less => {
                match expect_target(toks, pos + 1) {
                    Ok(w) => {
                        redirects.push(Redirect::Stdin(w));
                        proof {
                            assert(redirects_view(redirects@) =~= redirects_view(r0).push(
                                Redir::Stdin(word_view(w@)),
                            ));
                        }
                    },
                    Err(e) => {
                        return Err(e);
                    },
                }
                pos += 2;
            },
            Tok::Great2 => {
                match expect_target(toks, pos + 1) {
                    Ok(w) => {
                        redirects.push(Redirect::StderrTrunc(w));
                        proof {
                            assert(redirects_view(redirects@) =~= redirects_view(r0).push(
                                Redir::StderrTrunc(word_view(w@)),
                            ));
                        }
                    },
                    Err(e) => {
                        return Err(e);
                    },
                }
                pos += 2;
            },
            Tok::DGreat2 => {
                match expect_target(toks, pos + 1) {
                    Ok(w) => {
                        redirects.push(Redirect::StderrAppend(w));
                        proof {
                            assert(redirects_view(redirects@) =~= redirects_view(r0).push(
                                Redir::StderrAppend(word_view(w@)),
                            ));
                        }
                    },
                    Err(e) => {
                        return Err(e);
                    },
                }
                pos += 2;
            },
            Tok::Err2Out => {
                redirects.push(Redirect::Err2Out);
                proof {
                    assert(redirects_view(redirects@) =~= redirects_view(r0).push(Redir::Err2Out));
                }
                pos += 1;
            },
            _ => {
                break;
            },
        }
    }
    if assigns.len() == 0 && argv.len() == 0 && redirects.len() == 0 {
        return Err(parse_error("expected a command", offset(toks, pos)));
    }
    if let Some(name) = first_literal(&argv) {
        if is_keyword(name.as_str()) {
            let mut msg = "shell keyword `".to_owned();
            msg.push_str(name.as_str());
            msg.push_str("` (loops/conditionals/functions) not supported");
            return Err(ShellError::UnsupportedSyntax(msg));
        }
    }
    Ok((SimpleCommand { assigns, argv, redirects }, pos))
}

fn after_semis(toks: &[(Tok, usize)], from: usize) -> (z: usize)
    requires
        from <= toks@.len(),
    ensures
        z == skip_semis(toks_view(toks@), from as int),
        from <= z <= toks@.len(),
{
    let ghost t = toks_view(toks@);
    let mut pos: usize = from;
    while pos < toks.len() && matches!(toks[pos].0, Tok::Semi)
        invariant
            from <= pos <= toks@.len(),
            t == toks_view(toks@),
            skip_semis(t, from as int) == skip_semis(t, pos as int),
        decreases toks.len() - pos,
    {
        pos += 1;
    }
    pos
}

/// Reads a pipeline.
fn read_pipeline(toks: &[(Tok, usize)], from: usize) -> (res: Result<(Pipeline, usize), ShellError>)
    requires
        from <= toks@.len(),
    ensures
        match res {
            Ok((p, z)) => pipeline(toks_view(toks@), from as int, Seq::empty()) == Ok::<_, Fault>(
                (p@, z as int),
            ) && z <= toks@.len(),
            Err(e) => pipeline(toks_view(toks@), from as int, Seq::empty()) == Err::<
                (Seq<Command>, int),
                _,
            >(e@),
        },
{
    let ghost t = toks_view(toks@);
    let ghost goal = pipeline(t, from as int, Seq::empty());
    let mut p = Pipeline { stages: Vec::new() };
    let mut pos: usize = from;
    proof {
        assert(p@ =~= Seq::<Command>::empty());
    }
    loop
        invariant
            from <= pos <= toks@.len(),
            t == toks_view(toks@),
            goal == pipeline(t, from as int, Seq::empty()),
            goal == pipeline(t, pos as int, p@),
        decreases toks.len() - pos,
    {
        proof {
            lemma_command(t, pos as int, empty_command());
        }
        let ghost before = p@;
        match simple_command(toks, pos) {
            Ok((c, z)) => {
                p.stages.push(c);
                proof {
                    assert(p@ =~= before.push(c@));
                }
                if z < toks.len() && matches!(toks[z].0, Tok::Pipe) {
                    pos = after_semis(toks, z + 1);
                } else {
                    return Ok((p, z));
                }
            },
            Err(e) => {
                return Err(e);
            },
        }
    }
}

/// Reads a chain of pipelines.
fn read_sequence(toks: &[(Tok, usize)], from: usize) -> (res: Result<(Sequence, usize), ShellError>)
    requires
        from <= toks@.len(),
    ensures
        match res {
            Ok((c, z)) => chain(toks_view(toks@), from as int) == Ok::<_, Fault>((c@, z as int))
                && z <= toks@.len(),
            Err(e) => chain(toks_view(toks@), from as int) == Err::<(Chain, int), _>(e@),
        },
{
    let ghost t = toks_view(toks@);
    let (head, z) = match read_pipeline(toks, from) {
        Ok(r) => r,
        Err(e) => {
            return Err(e);
        },
    };
    let mut tail: Vec<(SeqOp, Pipeline)> = Vec::new();
    let mut pos: usize = z;
    proof {
        assert(tail_view(tail@) =~= Seq::<(SeqOp, Seq<Command>)>::empty());
    }
    loop
        invariant
            pos <= toks@.len(),
            t == toks_view(toks@),
            chain(t, from as int) == steps(t, pos as int, head@, tail_view(tail@)),
        decreases toks.len() - pos,
    {
        if pos >= toks.len() {
            return Ok((Sequence { head, tail }, pos));
        }
        proof {
            assert(t[pos as int].0 == toks@[pos as int].0@);
        }
        let op = match &toks[pos].0 {
            Tok::AndIf => SeqOp::AndIf,
            Tok::OrIf => SeqOp::OrIf,
            _ => {
                return Ok((Sequence { head, tail }, pos));
            },
        };
        let next = after_semis(toks, pos + 1);
        proof {
            lemma_pipeline(t, next as int, Seq::empty());
        }
        let ghost before = tail@;
        match read_pipeline(toks, next) {
            Ok((p, z)) => {
                tail.push((op, p));
                proof {
                    assert(tail_view(tail@) =~= tail_view(before).push((op, p@)));
                }
                pos = z;
            },
            Err(e) => {
                return Err(e);
            },
        }
    }
}

/// Reads the items of a token list.
fn read_program(toks: &[(Tok, usize)]) -> (res: Result<Vec<Item>, ShellError>)
    ensures
        match res {
            Ok(items) => program(toks_view(toks@), 0, Seq::empty()) == Ok::<_, Fault>(
                items_view(items@),
            ),
            Err(e) => program(toks_view(toks@), 0, Seq::empty()) == Err::<Seq<Unit>, _>(e@),
        },
{
    let ghost t = toks_view(toks@);
    let ghost goal = program(t, 0, Seq::empty());
    let mut items: Vec<Item> = Vec::new();
    let mut pos: usize = 0;
    proof {
        assert(items_view(items@) =~= Seq::<Unit>::empty());
    }
    loop
        invariant
            pos <= toks@.len(),
            t == toks_view(toks@),
            goal == program(t, 0, Seq::empty()),
            goal == program(t, pos as int, items_view(items@)),
        decreases toks.len() - pos,
    {
        let p = after_semis(toks, pos);
        if p >= toks.len() {
            return Ok(items);
        }
        let ghost before = items@;
        let ghost stop = assigns_end(t, p as int);
        proof {
            lemma_assigns_end(t, p as int);
        }
        let mut e: usize = p;
        while e < toks.len() && matches!(toks[e].0, Tok::Assign(_, _))
            invariant
                p <= e <= toks@.len(),
                t == toks_view(toks@),
                stop == assigns_end(t, e as int),
            decreases toks.len() - e,
        {
            e += 1;
        }
        if e > p && (e >= toks.len() || matches!(toks[e].0, Tok::Semi)) {
            let mut k: usize = p;
            proof {
                assert(items_view(before) + bare(t, p as int, p as int) =~= items_view(before));
            }
            while k < e
                invariant
                    p <= k <= e <= toks@.len(),
                    e == assigns_end(t, p as int),
                    t == toks_view(toks@),
                    items_view(items@) == items_view(before) + bare(t, p as int, k as int),
                    forall|j: int| p <= j < e ==> (#[trigger] t[j]).0 is Assign,
                decreases e - k,
            {
                proof {
                    assert(t[k as int].0 is Assign);
                    assert(t[k as int].0 == toks@[k as int].0@);
                }
                let ghost mid = items@;
                if let Tok::Assign(name, w) = &toks[k].0 {
                    items.push(Item::BareAssign(name.clone(), copy_word(w)));
                    proof {
                        assert(items_view(items@) =~= items_view(mid).push(
                            Unit::Assign(name@, word_view(w@)),
                        ));
                        assert(bare(t, p as int, k + 1) =~= bare(t, p as int, k as int).push(
                            Unit::Assign(name@, word_view(w@)),
                        ));
                        assert(items_view(items@) =~= items_view(before) + bare(
                            t,
                            p as int,
                            k + 1,
                        ));
                    }
                }
                k += 1;
            }
            pos = e;
        } else {
            proof {
                lemma_pipeline(t, p as int, Seq::empty());
                if let Ok((q, z)) = pipeline(t, p as int, Seq::empty()) {
                    lemma_steps(t, z, q, Seq::empty());
                }
            }
            match read_sequence(toks, p) {
                Ok((c, z)) => {
                    items.push(Item::Run(c));
                    proof {
                        assert(items_view(items@) =~= items_view(before).push(Unit::Run(c@)));
                    }
                    pos = z;
                },
                Err(e) => {
                    return Err(e);
                },
            }
        }
    }
}

/// Parses a script. The `$(...)` bodies in the result are shorter than the script.
pub fn parse(src: &str) -> (res: Result<Vec<Item>, ShellError>)
    ensures
        match res {
            Ok(items) => script_items(src@) == Ok::<_, Fault>(items_view(items@)) && units_below(
                items_view(items@),
                encode_utf8(src@).len() as int,
            ),
            Err(e) => script_items(src@) == Err::<Seq<Unit>, _>(e@),
        },
{
    match tokenize(src) {
        Ok(toks) => {
            proof {
                lemma_program_below(
                    toks_view(toks@),
                    0,
                    Seq::empty(),
                    encode_utf8(src@).len() as int,
                );
            }
            read_program(toks.as_slice())
        },
        Err(e) => Err(e),
    }
}

} // verus!

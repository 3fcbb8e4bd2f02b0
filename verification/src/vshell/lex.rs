//! Tokenizer.
//!
//! Splits a script into tokens while resolving quoting and escapes, but leaves variable
//! expansion and command substitution as deferred parts, since the environment may
//! change between commands.

use vstd::prelude::*;
use vstd::utf8::*;

use crate::ascii::{
    AMPERSAND, AT, BACKSLASH, BACKTICK, BANG, BAR, DIGIT_0, DIGIT_1, DIGIT_2, DIGIT_9, DOLLAR,
    DQUOTE, GREATER, HASH, LBRACE, LBRACKET, LESS, LOWER_A, LOWER_Z, LPAREN, NEWLINE, QUESTION,
    QUOTE, RBRACE, RPAREN, SEMICOLON, SPACE, STAR, TAB, UNDERSCORE, UPPER_A, UPPER_Z,
};
use super::{Fault, ShellError};
use crate::text::{
    chars_of, find_char, latin, lemma_ascii_cut, seek_char, text_of, utf8_between,
};
use crate::wire::scan::{lemma_seek, seek, seek_byte};

verus! {

/// A piece of a word.
#[derive(Debug)]
pub enum WordPart {
    Literal(String),
    Var(String),
    /// The source of a `$(...)` body, parsed when it is run.
    CmdSub(String),
}

pub type Word = Vec<WordPart>;

#[derive(Debug)]
pub enum Tok {
    Word(Word),
    /// `KEY=value`; the value may hold expansions.
    Assign(String, Word),
    /// `;` or a newline.
    Semi,
    /// `&&`
    AndIf,
    /// `||`
    OrIf,
    /// `|`
    Pipe,
    /// `>`
    Great,
    /// `>>`
    DGreat,
    /// `<`
    Less,
    /// `2>`
    Great2,
    /// `2>>`
    DGreat2,
    /// `2>&1`
    Err2Out,
}

/// The mathematical form of a `WordPart`.
pub enum Part {
    Literal(Seq<char>),
    Var(Seq<char>),
    CmdSub(Seq<char>),
}

/// The mathematical form of a `Tok`.
pub enum Token {
    Word(Seq<Part>),
    Assign(Seq<char>, Seq<Part>),
    Semi,
    AndIf,
    OrIf,
    Pipe,
    Great,
    DGreat,
    Less,
    Great2,
    DGreat2,
    Err2Out,
}

impl View for WordPart {
    type V = Part;

    open spec fn view(&self) -> Part {
        match *self {
            WordPart::Literal(s) => Part::Literal(s@),
            WordPart::Var(s) => Part::Var(s@),
            WordPart::CmdSub(s) => Part::CmdSub(s@),
        }
    }
}

/// The mathematical form of a word.
pub open spec fn word_view(w: Seq<WordPart>) -> Seq<Part> {
    Seq::new(w.len(), |i: int| w[i]@)
}

impl View for Tok {
    type V = Token;

    open spec fn view(&self) -> Token {
        match *self {
            Tok::Word(w) => Token::Word(word_view(w@)),
            Tok::Assign(k, w) => Token::Assign(k@, word_view(w@)),
            Tok::Semi => Token::Semi,
            Tok::AndIf => Token::AndIf,
            Tok::OrIf => Token::OrIf,
            Tok::Pipe => Token::Pipe,
            Tok::Great => Token::Great,
            Tok::DGreat => Token::DGreat,
            Tok::Less => Token::Less,
            Tok::Great2 => Token::Great2,
            Tok::DGreat2 => Token::DGreat2,
            Tok::Err2Out => Token::Err2Out,
        }
    }
}

/// The mathematical form of a token list: each token with the offset it starts at.
pub open spec fn toks_view(t: Seq<(Tok, usize)>) -> Seq<(Token, int)> {
    Seq::new(t.len(), |i: int| (t[i].0@, t[i].1 as int))
}

// ---------------------------------------------------------------------------------
// Grammar
// ---------------------------------------------------------------------------------
pub open spec fn is_alpha(c: u8) -> bool {
    (LOWER_A <= c <= LOWER_Z) || (UPPER_A <= c <= UPPER_Z)
}

pub open spec fn is_name_byte(c: u8) -> bool {
    c == UNDERSCORE || is_alpha(c) || (DIGIT_0 <= c <= DIGIT_9)
}

/// Offset of the first byte at or after `i` that cannot stand in a name.
pub open spec fn name_end(b: Seq<u8>, i: int) -> int
    decreases b.len() - i,
{
    if i >= b.len() {
        b.len() as int
    } else if is_name_byte(b[i]) {
        name_end(b, i + 1)
    } else {
        i
    }
}

/// Offset just behind a double-quoted stretch whose inside starts at `j`.
pub open spec fn skip_dquote(b: Seq<u8>, j: int) -> int
    decreases b.len() - j,
{
    if j >= b.len() {
        b.len() as int
    } else if b[j] == DQUOTE {
        j + 1
    } else if b[j] == BACKSLASH && j + 1 < b.len() {
        skip_dquote(b, j + 2)
    } else {
        skip_dquote(b, j + 1)
    }
}

/// Offset just behind a single-quoted stretch whose inside starts at `j`.
pub open spec fn skip_squote(b: Seq<u8>, j: int) -> int {
    let z = seek(b, j, QUOTE);
    if z < b.len() {
        z + 1
    } else {
        z
    }
}

pub proof fn lemma_name_end(b: Seq<u8>, i: int)
    requires
        0 <= i <= b.len(),
    ensures
        i <= name_end(b, i) <= b.len(),
    decreases b.len() - i,
{
    if i < b.len() && is_name_byte(b[i]) {
        lemma_name_end(b, i + 1);
    }
}

pub proof fn lemma_skip_dquote(b: Seq<u8>, j: int)
    requires
        0 <= j <= b.len(),
    ensures
        j <= skip_dquote(b, j) <= b.len(),
    decreases b.len() - j,
{
    if j < b.len() && b[j] != DQUOTE {
        if b[j] == BACKSLASH && j + 1 < b.len() {
            lemma_skip_dquote(b, j + 2);
        } else {
            lemma_skip_dquote(b, j + 1);
        }
    }
}

/// Offset of the parenthesis that closes the `depth` open ones, reading from `j`.
/// Quoted stretches and escaped bytes do not count.
pub open spec fn sub_close(b: Seq<u8>, j: int, depth: nat) -> Option<int>
    decreases b.len() - j,
{
    if j < 0 || j >= b.len() {
        None
    } else if b[j] == LPAREN {
        sub_close(b, j + 1, depth + 1)
    } else if b[j] == RPAREN {
        if depth <= 1 {
            Some(j)
        } else {
            sub_close(b, j + 1, (depth - 1) as nat)
        }
    } else if b[j] == QUOTE {
        proof {
            lemma_seek(b, j + 1, QUOTE);
        }
        sub_close(b, skip_squote(b, j + 1), depth)
    } else if b[j] == DQUOTE {
        proof {
            lemma_skip_dquote(b, j + 1);
        }
        sub_close(b, skip_dquote(b, j + 1), depth)
    } else if b[j] == BACKSLASH && j + 1 < b.len() {
        sub_close(b, j + 2, depth)
    } else {
        sub_close(b, j + 1, depth)
    }
}

pub proof fn lemma_sub_close(b: Seq<u8>, j: int, depth: nat)
    requires
        0 <= j <= b.len(),
    ensures
        sub_close(b, j, depth) matches Some(z) ==> j <= z < b.len() && b[z] == RPAREN,
    decreases b.len() - j,
{
    if j < b.len() {
        if b[j] == LPAREN {
            lemma_sub_close(b, j + 1, depth + 1);
        } else if b[j] == RPAREN {
            if depth > 1 {
                lemma_sub_close(b, j + 1, (depth - 1) as nat);
            }
        } else if b[j] == QUOTE {
            lemma_seek(b, j + 1, QUOTE);
            lemma_sub_close(b, skip_squote(b, j + 1), depth);
        } else if b[j] == DQUOTE {
            lemma_skip_dquote(b, j + 1);
            lemma_sub_close(b, skip_dquote(b, j + 1), depth);
        } else if b[j] == BACKSLASH && j + 1 < b.len() {
            lemma_sub_close(b, j + 2, depth);
        } else {
            lemma_sub_close(b, j + 1, depth);
        }
    }
}

pub open spec fn is_special(c: u8) -> bool {
    c == DOLLAR || c == QUESTION || c == BANG || c == HASH || c == AT || c == STAR
}

/// The expansion that starts with the `$` at `i`: the parts so far with it added, and
/// the offset behind it.
pub open spec fn dollar(b: Seq<u8>, i: int, parts: Seq<Part>) -> Result<(int, Seq<Part>), Fault> {
    if i + 1 >= b.len() {
        Ok((i + 1, parts.push(Part::Literal("$"@))))
    } else if b[i + 1] == LPAREN {
        match sub_close(b, i + 2, 1) {
            Some(z) => Ok((z + 1, parts.push(Part::CmdSub(decode_utf8(b.subrange(i + 2, z)))))),
            None => Err(Fault::Parse { msg: "unterminated command substitution"@, pos: i }),
        }
    } else if b[i + 1] == LBRACE {
        let z = name_end(b, i + 2);
        if z >= b.len() {
            Err(Fault::Parse { msg: "unterminated `${`"@, pos: i })
        } else if b[z] != RBRACE {
            Err(
                Fault::Unsupported(
                    "only `${NAME}` is supported (no parameter expansion modifiers)"@,
                ),
            )
        } else if z == i + 2 {
            Err(Fault::Parse { msg: "empty `${}`"@, pos: i })
        } else {
            Ok((z + 1, parts.push(Part::Var(latin(b.subrange(i + 2, z))))))
        }
    } else if b[i + 1] == UNDERSCORE || is_alpha(b[i + 1]) {
        let z = name_end(b, i + 1);
        Ok((z, parts.push(Part::Var(latin(b.subrange(i + 1, z))))))
    } else if is_special(b[i + 1]) {
        Err(
            Fault::Unsupported(
                "special parameter `$"@ + seq![b[i + 1] as char] + "` not supported"@,
            ),
        )
    } else {
        Ok((i + 1, parts.push(Part::Literal("$"@))))
    }
}

pub proof fn lemma_dollar(b: Seq<u8>, i: int, parts: Seq<Part>)
    requires
        0 <= i < b.len(),
    ensures
        dollar(b, i, parts) matches Ok((z, _)) ==> i < z <= b.len(),
{
    if i + 1 < b.len() {
        lemma_sub_close(b, i + 2, 1);
        lemma_name_end(b, i + 2);
        lemma_name_end(b, i + 1);
    }
}

/// The parts with the pending literal text added.
pub open spec fn flushed(cur: Seq<char>, parts: Seq<Part>) -> Seq<Part> {
    if cur.len() == 0 {
        parts
    } else {
        parts.push(Part::Literal(cur))
    }
}

/// Reads the inside of a double-quoted stretch from `i`: the offset behind the closing
/// quote, the pending literal text and the parts.
pub open spec fn dquote(b: Seq<u8>, i: int, cur: Seq<char>, parts: Seq<Part>) -> Result<
    (int, Seq<char>, Seq<Part>),
    Fault,
>
    decreases b.len() - i,
{
    if i < 0 || i >= b.len() {
        Err(Fault::Parse { msg: "unterminated double quote"@, pos: i })
    } else if b[i] == DQUOTE {
        Ok((i + 1, cur, parts))
    } else if b[i] == BACKSLASH && i + 1 < b.len() {
        let n = b[i + 1];
        if n == DOLLAR || n == BACKTICK || n == DQUOTE || n == BACKSLASH {
            dquote(b, i + 2, cur.push(n as char), parts)
        } else if n == NEWLINE {
            dquote(b, i + 2, cur, parts)
        } else {
            dquote(b, i + 1, cur.push('\\'), parts)
        }
    } else if b[i] == DOLLAR {
        match dollar(b, i, flushed(cur, parts)) {
            Ok((z, more)) => {
                proof {
                    lemma_dollar(b, i, flushed(cur, parts));
                }
                dquote(b, z, Seq::empty(), more)
            },
            Err(e) => Err(e),
        }
    } else if b[i] == BACKTICK {
        Err(Fault::Unsupported("backtick command substitution not supported"@))
    } else {
        dquote(b, i + 1, cur.push(b[i] as char), parts)
    }
}

pub proof fn lemma_dquote(b: Seq<u8>, i: int, cur: Seq<char>, parts: Seq<Part>)
    requires
        0 <= i <= b.len(),
    ensures
        dquote(b, i, cur, parts) matches Ok((z, _, _)) ==> i < z <= b.len(),
    decreases b.len() - i,
{
    if i < b.len() && b[i] != DQUOTE {
        if b[i] == BACKSLASH && i + 1 < b.len() {
            let n = b[i + 1];
            if n == DOLLAR || n == BACKTICK || n == DQUOTE || n == BACKSLASH {
                lemma_dquote(b, i + 2, cur.push(n as char), parts);
            } else if n == NEWLINE {
                lemma_dquote(b, i + 2, cur, parts);
            } else {
                lemma_dquote(b, i + 1, cur.push('\\'), parts);
            }
        } else if b[i] == DOLLAR {
            lemma_dollar(b, i, flushed(cur, parts));
            match dollar(b, i, flushed(cur, parts)) {
                Ok((z, more)) => {
                    lemma_dquote(b, z, Seq::empty(), more);
                },
                Err(_) => {},
            }
        } else if b[i] != BACKTICK {
            lemma_dquote(b, i + 1, cur.push(b[i] as char), parts);
        }
    }
}

/// Bytes that end an unquoted word.
pub open spec fn ends_word(c: u8) -> bool {
    c == SPACE || c == TAB || c == NEWLINE || c == SEMICOLON || c == BAR || c == AMPERSAND || c == LESS || c
        == GREATER || c == BACKTICK || c == LPAREN || c == RPAREN
}

pub open spec fn is_glob(c: u8) -> bool {
    c == STAR || c == QUESTION || c == LBRACKET
}

/// Reads a word from `i`, given the pending literal text and the parts read so far: the
/// parts of the whole word and the offset behind it.
pub open spec fn word(b: Seq<u8>, i: int, cur: Seq<char>, parts: Seq<Part>) -> Result<
    (Seq<Part>, int),
    Fault,
>
    decreases b.len() - i,
{
    if i < 0 || i >= b.len() || ends_word(b[i]) {
        Ok((flushed(cur, parts), i))
    } else if b[i] == QUOTE {
        let z = seek(b, i + 1, QUOTE);
        proof {
            lemma_seek(b, i + 1, QUOTE);
        }
        if z >= b.len() {
            Err(Fault::Parse { msg: "unterminated single quote"@, pos: i })
        } else {
            word(b, z + 1, cur + decode_utf8(b.subrange(i + 1, z)), parts)
        }
    } else if b[i] == DQUOTE {
        match dquote(b, i + 1, cur, parts) {
            Ok((z, cur2, parts2)) => {
                proof {
                    lemma_dquote(b, i + 1, cur, parts);
                }
                word(b, z, cur2, parts2)
            },
            Err(e) => Err(e),
        }
    } else if b[i] == BACKSLASH {
        if i + 1 >= b.len() {
            Err(Fault::Parse { msg: "trailing backslash"@, pos: i })
        } else if b[i + 1] == NEWLINE {
            word(b, i + 2, cur, parts)
        } else {
            word(b, i + 2, cur.push(b[i + 1] as char), parts)
        }
    } else if b[i] == DOLLAR {
        match dollar(b, i, flushed(cur, parts)) {
            Ok((z, more)) => {
                proof {
                    lemma_dollar(b, i, flushed(cur, parts));
                }
                word(b, z, Seq::empty(), more)
            },
            Err(e) => Err(e),
        }
    } else if is_glob(b[i]) {
        Err(
            Fault::Unsupported(
                "glob character `"@ + seq![b[i] as char] + "` not supported"@,
            ),
        )
    } else {
        word(b, i + 1, cur.push(b[i] as char), parts)
    }
}

/// A letter or underscore, then letters, digits and underscores.
pub open spec fn is_ident(s: Seq<char>) -> bool {
    &&& s.len() > 0
    &&& !('0' <= s[0] <= '9')
    &&& forall|i: int|
        0 <= i < s.len() ==> {
            let c = #[trigger] s[i];
            c == '_' || ('a' <= c <= 'z') || ('A' <= c <= 'Z') || ('0' <= c <= '9')
        }
}

/// Reads a word as an assignment: its first part is a literal `NAME=...`.
pub open spec fn assignment(w: Seq<Part>) -> Option<(Seq<char>, Seq<Part>)> {
    if w.len() == 0 {
        None
    } else {
        match w[0] {
            Part::Literal(lit) => {
                let eq = seek_char(lit, 0, '=');
                if eq < lit.len() && is_ident(lit.take(eq)) {
                    let head = if eq + 1 < lit.len() {
                        seq![Part::Literal(lit.skip(eq + 1))]
                    } else {
                        Seq::empty()
                    };
                    Some((lit.take(eq), head + w.skip(1)))
                } else {
                    None
                }
            },
            _ => None,
        }
    }
}

/// Bytes behind which a `#` starts a comment.
pub open spec fn blank(c: u8) -> bool {
    c == SPACE || c == TAB || c == NEWLINE || c == SEMICOLON || c == BAR || c == AMPERSAND
}

/// Whether the byte at `i` is there and is `c`.
pub open spec fn byte_is(b: Seq<u8>, i: int, c: u8) -> bool {
    0 <= i < b.len() && b[i] == c
}

/// The token that starts at `i` and the offset behind it.
pub open spec fn token_at(b: Seq<u8>, i: int) -> Result<(Token, int), Fault> {
    let c = b[i];
    if c == NEWLINE || c == SEMICOLON {
        Ok((Token::Semi, i + 1))
    } else if c == BAR {
        if byte_is(b, i + 1, BAR) {
            Ok((Token::OrIf, i + 2))
        } else {
            Ok((Token::Pipe, i + 1))
        }
    } else if c == AMPERSAND {
        if byte_is(b, i + 1, AMPERSAND) {
            Ok((Token::AndIf, i + 2))
        } else {
            Err(Fault::Unsupported("background jobs (`&`) not supported"@))
        }
    } else if c == GREATER {
        if byte_is(b, i + 1, GREATER) {
            Ok((Token::DGreat, i + 2))
        } else {
            Ok((Token::Great, i + 1))
        }
    } else if c == LESS {
        if byte_is(b, i + 1, LESS) {
            Err(Fault::Unsupported("heredocs not supported"@))
        } else if byte_is(b, i + 1, LPAREN) {
            Err(Fault::Unsupported("process substitution not supported"@))
        } else {
            Ok((Token::Less, i + 1))
        }
    } else if c == BACKTICK {
        Err(Fault::Unsupported("backtick command substitution not supported; use $(...)"@))
    } else if c == LPAREN {
        Err(Fault::Unsupported("subshells `(...)` not supported"@))
    } else if c == RPAREN {
        Err(Fault::Parse { msg: "unexpected `)`"@, pos: i })
    } else if c == DIGIT_2 && byte_is(b, i + 1, GREATER) {
        if byte_is(b, i + 2, AMPERSAND) {
            if byte_is(b, i + 3, DIGIT_1) {
                Ok((Token::Err2Out, i + 4))
            } else {
                Err(Fault::Unsupported("only `2>&1` is supported among `n>&m` forms"@))
            }
        } else if byte_is(b, i + 2, GREATER) {
            Ok((Token::DGreat2, i + 3))
        } else {
            Ok((Token::Great2, i + 2))
        }
    } else {
        match word(b, i, Seq::empty(), Seq::empty()) {
            Ok((w, z)) => match assignment(w) {
                Some((k, v)) => Ok((Token::Assign(k, v), z)),
                None => Ok((Token::Word(w), z)),
            },
            Err(e) => Err(e),
        }
    }
}

/// A word's end lies at or behind the place it is read from, and strictly behind it when
/// the first byte does not end a word.
pub proof fn lemma_word(b: Seq<u8>, i: int, cur: Seq<char>, parts: Seq<Part>)
    requires
        0 <= i <= b.len(),
    ensures
        word(b, i, cur, parts) matches Ok((_, z)) ==> i <= z <= b.len() && (i < b.len()
            && !ends_word(b[i]) ==> i < z),
    decreases b.len() - i,
{
    if i >= b.len() || ends_word(b[i]) {
    } else if b[i] == QUOTE {
        let z = seek(b, i + 1, QUOTE);
        lemma_seek(b, i + 1, QUOTE);
        if z < b.len() {
            lemma_word(b, z + 1, cur + decode_utf8(b.subrange(i + 1, z)), parts);
        }
    } else if b[i] == DQUOTE {
        lemma_dquote(b, i + 1, cur, parts);
        match dquote(b, i + 1, cur, parts) {
            Ok((z, cur2, parts2)) => {
                lemma_word(b, z, cur2, parts2);
            },
            Err(_) => {},
        }
    } else if b[i] == BACKSLASH {
        if i + 1 < b.len() {
            if b[i + 1] == NEWLINE {
                lemma_word(b, i + 2, cur, parts);
            } else {
                lemma_word(b, i + 2, cur.push(b[i + 1] as char), parts);
            }
        }
    } else if b[i] == DOLLAR {
        lemma_dollar(b, i, flushed(cur, parts));
        match dollar(b, i, flushed(cur, parts)) {
            Ok((z, more)) => {
                lemma_word(b, z, Seq::empty(), more);
            },
            Err(_) => {},
        }
    } else if !is_glob(b[i]) {
        lemma_word(b, i + 1, cur.push(b[i] as char), parts);
    }
}

/// The tokens from `i` on, behind those already read.
pub open spec fn tokens(b: Seq<u8>, i: int, out: Seq<(Token, int)>) -> Result<
    Seq<(Token, int)>,
    Fault,
>
    decreases b.len() - i,
{
    if i < 0 || i >= b.len() {
        Ok(out)
    } else if b[i] == SPACE || b[i] == TAB {
        tokens(b, i + 1, out)
    } else if b[i] == HASH && (i == 0 || blank(b[i - 1])) {
        proof {
            lemma_seek(b, i + 1, NEWLINE);
        }
        tokens(b, seek(b, i, NEWLINE), out)
    } else if b[i] == BACKSLASH && byte_is(b, i + 1, NEWLINE) {
        tokens(b, i + 2, out)
    } else {
        match token_at(b, i) {
            Ok((t, z)) => {
                proof {
                    lemma_word(b, i, Seq::empty(), Seq::empty());
                }
                tokens(b, z, out.push((t, i)))
            },
            Err(e) => Err(e),
        }
    }
}

/// Every `$(...)` body of the word is shorter than `n` bytes.
pub open spec fn bodies_below(w: Seq<Part>, n: int) -> bool {
    forall|i: int| 0 <= i < w.len() ==> part_below(#[trigger] w[i], n)
}

pub open spec fn part_below(p: Part, n: int) -> bool {
    p matches Part::CmdSub(body) ==> encode_utf8(body).len() < n
}

pub open spec fn token_below(t: Token, n: int) -> bool {
    match t {
        Token::Word(w) => bodies_below(w, n),
        Token::Assign(_, w) => bodies_below(w, n),
        _ => true,
    }
}

pub open spec fn tokens_below(t: Seq<(Token, int)>, n: int) -> bool {
    forall|i: int| 0 <= i < t.len() ==> token_below(#[trigger] t[i].0, n)
}

// ---------------------------------------------------------------------------------
// Reader
// ---------------------------------------------------------------------------------
/// A parse error.
pub fn parse_error(msg: &str, pos: usize) -> (e: ShellError)
    ensures
        e@ == (Fault::Parse { msg: msg@, pos: pos as int }),
{
    ShellError::ParseError { msg: msg.to_owned(), pos }
}

/// An error for syntax that the shell does not have.
pub fn unsupported(msg: &str) -> (e: ShellError)
    ensures
        e@ == Fault::Unsupported(msg@),
{
    ShellError::UnsupportedSyntax(msg.to_owned())
}

/// An error that names one offending character.
fn unsupported_char(before: &str, c: u8, after: &str) -> (e: ShellError)
    ensures
        e@ == Fault::Unsupported(before@ + seq![c as char] + after@),
{
    let mut msg = before.to_owned();
    msg.push(c as char);
    msg.push_str(after);
    proof {
        assert(before@.push(c as char) =~= before@ + seq![c as char]);
    }
    ShellError::UnsupportedSyntax(msg)
}

fn name_byte(c: u8) -> (res: bool)
    ensures
        res == is_name_byte(c),
{
    c == UNDERSCORE || (LOWER_A <= c && c <= LOWER_Z) || (UPPER_A <= c && c <= UPPER_Z) || (DIGIT_0
        <= c && c <= DIGIT_9)
}

fn seek_name_end(bytes: &[u8], from: usize) -> (z: usize)
    requires
        from <= bytes@.len(),
    ensures
        z == name_end(bytes@, from as int),
        from <= z <= bytes@.len(),
{
    let mut i: usize = from;
    while i < bytes.len() && name_byte(bytes[i])
        invariant
            from <= i <= bytes@.len(),
            name_end(bytes@, from as int) == name_end(bytes@, i as int),
        decreases bytes.len() - i,
    {
        i += 1;
    }
    i
}

fn skip_double_quoted(bytes: &[u8], from: usize) -> (z: usize)
    requires
        from <= bytes@.len(),
    ensures
        z == skip_dquote(bytes@, from as int),
        from <= z <= bytes@.len(),
{
    let mut j: usize = from;
    while j < bytes.len() && bytes[j] != DQUOTE
        invariant
            from <= j <= bytes@.len(),
            skip_dquote(bytes@, from as int) == skip_dquote(bytes@, j as int),
        decreases bytes.len() - j,
    {
        if bytes[j] == BACKSLASH && j + 1 < bytes.len() {
            j += 2;
        } else {
            j += 1;
        }
    }
    if j < bytes.len() {
        j += 1;
    }
    j
}

fn skip_single_quoted(bytes: &[u8], from: usize) -> (z: usize)
    requires
        from <= bytes@.len(),
    ensures
        z == skip_squote(bytes@, from as int),
        from <= z <= bytes@.len(),
{
    let z = seek_byte(bytes, from, QUOTE);
    if z < bytes.len() {
        z + 1
    } else {
        z
    }
}

/// Finds the parenthesis that closes the one in front of `from`.
fn find_sub_close(bytes: &[u8], from: usize) -> (res: Option<usize>)
    requires
        1 <= from <= bytes@.len(),
    ensures
        match res {
            Some(z) => sub_close(bytes@, from as int, 1) == Some(z as int) && from <= z
                < bytes@.len() && bytes@[z as int] == RPAREN,
            None => sub_close(bytes@, from as int, 1) is None,
        },
{
    let mut depth: usize = 1;
    let mut j: usize = from;
    while j < bytes.len()
        invariant
            1 <= from <= j <= bytes@.len(),
            1 <= depth <= 1 + j - from,
            sub_close(bytes@, from as int, 1) == sub_close(bytes@, j as int, depth as nat),
        decreases bytes.len() - j,
    {
        let b = bytes[j];
        if b == LPAREN {
            depth += 1;
            j += 1;
        } else if b == RPAREN {
            depth -= 1;
            if depth == 0 {
                return Some(j);
            }
            j += 1;
        } else if b == QUOTE {
            j = skip_single_quoted(bytes, j + 1);
        } else if b == DQUOTE {
            j = skip_double_quoted(bytes, j + 1);
        } else if b == BACKSLASH && j + 1 < bytes.len() {
            j += 2;
        } else {
            j += 1;
        }
    }
    None
}

/// The bytes `bytes[from..to]` read one by one as characters.
fn latin_between(bytes: &[u8], from: usize, to: usize) -> (res: String)
    requires
        from <= to <= bytes@.len(),
    ensures
        res@ == latin(bytes@.subrange(from as int, to as int)),
{
    let mut res = String::new();
    let mut i: usize = from;
    while i < to
        invariant
            from <= i <= to <= bytes@.len(),
            res@ =~= latin(bytes@.subrange(from as int, i as int)),
        decreases to - i,
    {
        res.push(bytes[i] as char);
        i += 1;
    }
    res
}

/// Appends a part to a word.
fn add_part(parts: &mut Word, p: WordPart, n: usize)
    requires
        bodies_below(word_view(old(parts)@), n as int),
        part_below(p@, n as int),
    ensures
        word_view(final(parts)@) == word_view(old(parts)@).push(p@),
        bodies_below(word_view(final(parts)@), n as int),
{
    let ghost before = parts@;
    parts.push(p);
    proof {
        assert(word_view(parts@) =~= word_view(before).push(p@));
        let w = word_view(parts@);
        assert forall|i: int| 0 <= i < w.len() implies part_below(#[trigger] w[i], n as int) by {
            if i < before.len() {
                assert(w[i] == word_view(before)[i]);
            }
        }
    }
}

/// Moves the pending literal text, if any, into the word.
fn flush(cur: String, parts: &mut Word, n: usize)
    requires
        bodies_below(word_view(old(parts)@), n as int),
    ensures
        word_view(final(parts)@) == flushed(cur@, word_view(old(parts)@)),
        bodies_below(word_view(final(parts)@), n as int),
{
    if !cur.as_str().is_empty() {
        add_part(parts, WordPart::Literal(cur), n);
    }
}

/// Reads the expansion that starts with the `$` at `i` and returns the offset behind it.
fn read_dollar(bytes: &[u8], i: usize, parts: &mut Word) -> (res: Result<usize, ShellError>)
    requires
        i < bytes@.len(),
        bytes@[i as int] == DOLLAR,
        valid_utf8(bytes@),
        bodies_below(word_view(old(parts)@), bytes@.len() as int),
    ensures
        match res {
            Ok(z) => {
                &&& dollar(bytes@, i as int, word_view(old(parts)@)) == Ok::<_, Fault>(
                    (z as int, word_view(final(parts)@)),
                )
                &&& i < z <= bytes@.len()
                &&& bodies_below(word_view(final(parts)@), bytes@.len() as int)
            },
            Err(e) => dollar(bytes@, i as int, word_view(old(parts)@)) == Err::<
                (int, Seq<Part>),
                _,
            >(e@),
        },
{
    let len = bytes.len();
    if i + 1 >= len {
        add_part(parts, WordPart::Literal("$".to_owned()), len);
        return Ok(i + 1);
    }
    let n = bytes[i + 1];
    if n == LPAREN {
        match find_sub_close(bytes, i + 2) {
            Some(z) => {
                proof {
                    lemma_ascii_cut(bytes@, i + 2, z as int);
                }
                let body = utf8_between(bytes, i + 2, z);
                add_part(parts, WordPart::CmdSub(body), len);
                Ok(z + 1)
            },
            None => Err(parse_error("unterminated command substitution", i)),
        }
    } else if n == LBRACE {
        let z = seek_name_end(bytes, i + 2);
        if z >= len {
            return Err(parse_error("unterminated `${`", i));
        }
        if bytes[z] != RBRACE {
            return Err(
                unsupported("only `${NAME}` is supported (no parameter expansion modifiers)"),
            );
        }
        if z == i + 2 {
            return Err(parse_error("empty `${}`", i));
        }
        add_part(parts, WordPart::Var(latin_between(bytes, i + 2, z)), len);
        Ok(z + 1)
    } else if n == UNDERSCORE || (LOWER_A <= n && n <= LOWER_Z) || (UPPER_A <= n && n <= UPPER_Z) {
        let z = seek_name_end(bytes, i + 1);
        proof {
            assert(name_end(bytes@, i + 1) == name_end(bytes@, i + 2));
            lemma_name_end(bytes@, i + 2);
        }
        add_part(parts, WordPart::Var(latin_between(bytes, i + 1, z)), len);
        Ok(z)
    } else if n == DOLLAR || n == QUESTION || n == BANG || n == HASH || n == AT || n == STAR {
        Err(unsupported_char("special parameter `$", n, "` not supported"))
    } else {
        add_part(parts, WordPart::Literal("$".to_owned()), len);
        Ok(i + 1)
    }
}

/// Reads the inside of a double-quoted stretch and returns the offset behind its closing
/// quote.
fn read_dquote(bytes: &[u8], from: usize, cur: &mut String, parts: &mut Word) -> (res: Result<
    usize,
    ShellError,
>)
    requires
        from <= bytes@.len(),
        valid_utf8(bytes@),
        bodies_below(word_view(old(parts)@), bytes@.len() as int),
    ensures
        match res {
            Ok(z) => {
                &&& dquote(bytes@, from as int, old(cur)@, word_view(old(parts)@)) == Ok::<
                    _,
                    Fault,
                >((z as int, final(cur)@, word_view(final(parts)@)))
                &&& from < z <= bytes@.len()
                &&& bodies_below(word_view(final(parts)@), bytes@.len() as int)
            },
            Err(e) => dquote(bytes@, from as int, old(cur)@, word_view(old(parts)@)) == Err::<
                (int, Seq<char>, Seq<Part>),
                _,
            >(e@),
        },
{
    let ghost goal = dquote(bytes@, from as int, cur@, word_view(parts@));
    let mut i: usize = from;
    while i < bytes.len() && bytes[i] != DQUOTE
        invariant
            from <= i <= bytes@.len(),
            valid_utf8(bytes@),
            bodies_below(word_view(parts@), bytes@.len() as int),
            goal == dquote(bytes@, i as int, cur@, word_view(parts@)),
            goal == dquote(bytes@, from as int, old(cur)@, word_view(old(parts)@)),
        decreases bytes.len() - i,
    {
        let b = bytes[i];
        if b == BACKSLASH && i + 1 < bytes.len() {
            let n = bytes[i + 1];
            if n == DOLLAR || n == BACKTICK || n == DQUOTE || n == BACKSLASH {
                cur.push(n as char);
                i += 2;
            } else if n == NEWLINE {
                i += 2;
            } else {
                cur.push('\\');
                i += 1;
            }
        } else if b == DOLLAR {
            let mut pending = String::new();
            core::mem::swap(&mut pending, cur);
            flush(pending, parts, bytes.len());
            match read_dollar(bytes, i, parts) {
                Ok(z) => {
                    i = z;
                },
                Err(e) => {
                    return Err(e);
                },
            }
        } else if b == BACKTICK {
            return Err(unsupported("backtick command substitution not supported"));
        } else {
            cur.push(b as char);
            i += 1;
        }
    }
    if i >= bytes.len() {
        return Err(parse_error("unterminated double quote", i));
    }
    Ok(i + 1)
}

fn is_word_end(c: u8) -> (res: bool)
    ensures
        res == ends_word(c),
{
    c == SPACE || c == TAB || c == NEWLINE || c == SEMICOLON || c == BAR || c == AMPERSAND || c
        == LESS || c == GREATER || c == BACKTICK || c == LPAREN || c == RPAREN
}

/// Reads a word and returns it with the offset behind it.
fn read_word(bytes: &[u8], from: usize) -> (res: Result<(Word, usize), ShellError>)
    requires
        from < bytes@.len(),
        valid_utf8(bytes@),
    ensures
        match res {
            Ok((w, z)) => {
                &&& word(bytes@, from as int, Seq::empty(), Seq::empty()) == Ok::<_, Fault>(
                    (word_view(w@), z as int),
                )
                &&& from <= z <= bytes@.len()
                &&& bodies_below(word_view(w@), bytes@.len() as int)
            },
            Err(e) => word(bytes@, from as int, Seq::empty(), Seq::empty()) == Err::<
                (Seq<Part>, int),
                _,
            >(e@),
        },
{
    let mut parts: Word = Vec::new();
    let mut cur = String::new();
    let ghost goal = word(bytes@, from as int, Seq::empty(), Seq::empty());
    let mut i: usize = from;
    proof {
        assert(word_view(parts@) =~= Seq::<Part>::empty());
    }
    while i < bytes.len() && !is_word_end(bytes[i])
        invariant
            from <= i <= bytes@.len(),
            valid_utf8(bytes@),
            bodies_below(word_view(parts@), bytes@.len() as int),
            goal == word(bytes@, i as int, cur@, word_view(parts@)),
            goal == word(bytes@, from as int, Seq::empty(), Seq::empty()),
        decreases bytes.len() - i,
    {
        let c = bytes[i];
        if c == QUOTE {
            let z = seek_byte(bytes, i + 1, QUOTE);
            if z >= bytes.len() {
                return Err(parse_error("unterminated single quote", i));
            }
            proof {
                lemma_ascii_cut(bytes@, i + 1, z as int);
            }
            cur.push_str(utf8_between(bytes, i + 1, z).as_str());
            i = z + 1;
        } else if c == DQUOTE {
            match read_dquote(bytes, i + 1, &mut cur, &mut parts) {
                Ok(z) => {
                    i = z;
                },
                Err(e) => {
                    return Err(e);
                },
            }
        } else if c == BACKSLASH {
            if i + 1 >= bytes.len() {
                return Err(parse_error("trailing backslash", i));
            }
            let n = bytes[i + 1];
            if n != NEWLINE {
                cur.push(n as char);
            }
            i += 2;
        } else if c == DOLLAR {
            let mut pending = String::new();
            core::mem::swap(&mut pending, &mut cur);
            flush(pending, &mut parts, bytes.len());
            match read_dollar(bytes, i, &mut parts) {
                Ok(z) => {
                    i = z;
                },
                Err(e) => {
                    return Err(e);
                },
            }
        } else if c == STAR || c == QUESTION || c == LBRACKET {
            return Err(unsupported_char("glob character `", c, "` not supported"));
        } else {
            cur.push(c as char);
            i += 1;
        }
    }
    flush(cur, &mut parts, bytes.len());
    Ok((parts, i))
}

fn ident(s: &[char]) -> (res: bool)
    ensures
        res == is_ident(s@),
{
    if s.len() == 0 || ('0' <= s[0] && s[0] <= '9') {
        return false;
    }
    let mut i: usize = 0;
    while i < s.len()
        invariant
            i <= s@.len(),
            forall|k: int|
                0 <= k < i ==> {
                    let c = #[trigger] s@[k];
                    c == '_' || ('a' <= c <= 'z') || ('A' <= c <= 'Z') || ('0' <= c <= '9')
                },
        decreases s.len() - i,
    {
        let c = s[i];
        if !(c == '_' || ('a' <= c && c <= 'z') || ('A' <= c && c <= 'Z') || ('0' <= c && c
            <= '9')) {
            proof {
                assert(s@[i as int] == c);
            }
            return false;
        }
        i += 1;
    }
    true
}

/// Turns a word into the token it stands for: an assignment where it reads as one.
fn word_token(word: Word, n: usize) -> (t: Tok)
    requires
        bodies_below(word_view(word@), n as int),
    ensures
        t@ == (match assignment(word_view(word@)) {
            Some((k, v)) => Token::Assign(k, v),
            None => Token::Word(word_view(word@)),
        }),
        token_below(t@, n as int),
{
    let ghost w = word_view(word@);
    if word.len() == 0 {
        return Tok::Word(word);
    }
    let (name, tail) = match &word[0] {
        WordPart::Literal(lit) => {
            let chars = chars_of(lit.as_str());
            let eq = find_char(chars.as_slice(), 0, '=');
            proof {
                assert(w[0] == Part::Literal(lit@));
            }
            if eq >= chars.len() {
                return Tok::Word(word);
            }
            let head = text_of(chars.as_slice(), 0, eq);
            let head_chars = chars_of(head.as_str());
            proof {
                assert(lit@.subrange(0, eq as int) =~= lit@.take(eq as int));
                assert(lit@.subrange(eq + 1, lit@.len() as int) =~= lit@.skip(eq + 1));
            }
            if !ident(head_chars.as_slice()) {
                return Tok::Word(word);
            }
            (head, text_of(chars.as_slice(), eq + 1, chars.len()))
        },
        _ => {
            proof {
                assert(w[0] == word@[0]@);
            }
            return Tok::Word(word);
        },
    };
    let mut rest: Word = Vec::new();
    if !tail.as_str().is_empty() {
        rest.push(WordPart::Literal(tail));
    }
    let ghost head = word_view(rest@);
    let mut word = word;
    let mut more = word.split_off(1);
    rest.append(&mut more);
    proof {
        let lit = w[0]->Literal_0;
        let eq = seek_char(lit, 0, '=');
        if eq + 1 < lit.len() {
            assert(head =~= seq![Part::Literal(lit.skip(eq + 1))]);
        } else {
            assert(head =~= Seq::<Part>::empty());
        }
        assert(word_view(rest@) =~= head + w.skip(1));
        assert forall|i: int| 0 <= i < word_view(rest@).len() implies part_below(
            #[trigger] word_view(rest@)[i],
            n as int,
        ) by {
            if i >= head.len() {
                assert(word_view(rest@)[i] == w[i - head.len() + 1]);
            }
        }
    }
    Tok::Assign(name, rest)
}

/// Whether the byte `off` places behind `i` is there and is `c`.
fn at(bytes: &[u8], i: usize, off: usize, c: u8) -> (res: bool)
    requires
        i <= bytes@.len(),
    ensures
        res == byte_is(bytes@, i + off, c),
{
    off < bytes.len() - i && bytes[i + off] == c
}

/// Reads the token that starts at `i` and returns it with the offset behind it.
fn read_token(bytes: &[u8], i: usize) -> (res: Result<(Tok, usize), ShellError>)
    requires
        i < bytes@.len(),
        valid_utf8(bytes@),
    ensures
        match res {
            Ok((t, z)) => {
                &&& token_at(bytes@, i as int) == Ok::<_, Fault>((t@, z as int))
                &&& i <= z <= bytes@.len()
                &&& token_below(t@, bytes@.len() as int)
            },
            Err(e) => token_at(bytes@, i as int) == Err::<(Token, int), _>(e@),
        },
{
    let c = bytes[i];
    if c == NEWLINE || c == SEMICOLON {
        Ok((Tok::Semi, i + 1))
    } else if c == BAR {
        if at(bytes, i, 1, BAR) {
            Ok((Tok::OrIf, i + 2))
        } else {
            Ok((Tok::Pipe, i + 1))
        }
    } else if c == AMPERSAND {
        if at(bytes, i, 1, AMPERSAND) {
            Ok((Tok::AndIf, i + 2))
        } else {
            Err(unsupported("background jobs (`&`) not supported"))
        }
    } else if c == GREATER {
        if at(bytes, i, 1, GREATER) {
            Ok((Tok::DGreat, i + 2))
        } else {
            Ok((Tok::Great, i + 1))
        }
    } else if c == LESS {
        if at(bytes, i, 1, LESS) {
            Err(unsupported("heredocs not supported"))
        } else if at(bytes, i, 1, LPAREN) {
            Err(unsupported("process substitution not supported"))
        } else {
            Ok((Tok::Less, i + 1))
        }
    } else if c == BACKTICK {
        Err(unsupported("backtick command substitution not supported; use $(...)"))
    } else if c == LPAREN {
        Err(unsupported("subshells `(...)` not supported"))
    } else if c == RPAREN {
        Err(parse_error("unexpected `)`", i))
    } else if c == DIGIT_2 && at(bytes, i, 1, GREATER) {
        if at(bytes, i, 2, AMPERSAND) {
            if at(bytes, i, 3, DIGIT_1) {
                Ok((Tok::Err2Out, i + 4))
            } else {
                Err(unsupported("only `2>&1` is supported among `n>&m` forms"))
            }
        } else if at(bytes, i, 2, GREATER) {
            Ok((Tok::DGreat2, i + 3))
        } else {
            Ok((Tok::Great2, i + 2))
        }
    } else {
        match read_word(bytes, i) {
            Ok((w, z)) => Ok((word_token(w, bytes.len()), z)),
            Err(e) => Err(e),
        }
    }
}

fn is_blank(c: u8) -> (res: bool)
    ensures
        res == blank(c),
{
    c == SPACE || c == TAB || c == NEWLINE || c == SEMICOLON || c == BAR || c == AMPERSAND
}

/// Splits a script into tokens, each with the offset it starts at.
pub fn tokenize(src: &str) -> (res: Result<Vec<(Tok, usize)>, ShellError>)
    ensures
        match res {
            Ok(toks) => {
                &&& tokens(encode_utf8(src@), 0, Seq::empty()) == Ok::<_, Fault>(toks_view(toks@))
                &&& tokens_below(toks_view(toks@), encode_utf8(src@).len() as int)
            },
            Err(e) => tokens(encode_utf8(src@), 0, Seq::empty()) == Err::<Seq<(Token, int)>, _>(
                e@,
            ),
        },
{
    let bytes = src.as_bytes();
    let ghost goal = tokens(bytes@, 0, Seq::empty());
    let mut out: Vec<(Tok, usize)> = Vec::new();
    let mut i: usize = 0;
    proof {
        encode_utf8_valid_utf8(src@);
        assert(toks_view(out@) =~= Seq::<(Token, int)>::empty());
    }
    while i < bytes.len()
        invariant
            i <= bytes@.len(),
            valid_utf8(bytes@),
            goal == tokens(bytes@, 0, Seq::empty()),
            goal == tokens(bytes@, i as int, toks_view(out@)),
            tokens_below(toks_view(out@), bytes@.len() as int),
            bytes@ == encode_utf8(src@),
        decreases bytes.len() - i,
    {
        let c = bytes[i];
        if c == SPACE || c == TAB {
            i += 1;
        } else if c == HASH && (i == 0 || is_blank(bytes[i - 1])) {
            proof {
                lemma_seek(bytes@, i + 1, NEWLINE);
            }
            i = seek_byte(bytes, i, NEWLINE);
        } else if c == BACKSLASH && at(bytes, i, 1, NEWLINE) {
            i += 2;
        } else {
            proof {
                lemma_word(bytes@, i as int, Seq::empty(), Seq::empty());
            }
            match read_token(bytes, i) {
                Ok((t, z)) => {
                    let ghost before = out@;
                    out.push((t, i));
                    proof {
                        assert(toks_view(out@) =~= toks_view(before).push((t@, i as int)));
                        let after = toks_view(out@);
                        assert forall|k: int| 0 <= k < after.len() implies token_below(
                            #[trigger] after[k].0,
                            bytes@.len() as int,
                        ) by {
                            if k < before.len() {
                                assert(after[k] == toks_view(before)[k]);
                            }
                        }
                    }
                    i = z;
                },
                Err(e) => {
                    return Err(e);
                },
            }
        }
    }
    Ok(out)
}

} // verus!

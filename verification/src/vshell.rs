//! A small in-process shell: simple commands, quoting, variables, `$(...)`, redirects,
//! pipelines and `;` / `&&` / `||` sequencing, with the common built-ins.
//!
//! The shell itself never touches the operating system. Where a script needs a file or
//! a child process, the interpreter says what it needs and takes the answer back.

use vstd::prelude::*;

use crate::text;
use crate::text::dec;

pub mod exec;
pub mod grammar;
pub mod laws;
pub mod lex;
pub mod parse;
pub mod replay;
pub mod supervise;

verus! {

/// Why a script could not be run.
#[derive(Debug)]
pub enum ShellError {
    ParseError { msg: String, pos: usize },
    UnsupportedSyntax(String),
    /// The text of an operating-system error.
    Io(String),
}

/// The mathematical form of a `ShellError`.
pub enum Fault {
    Parse { msg: Seq<char>, pos: int },
    Unsupported(Seq<char>),
    Io(Seq<char>),
}

impl View for ShellError {
    type V = Fault;

    open spec fn view(&self) -> Fault {
        match *self {
            ShellError::ParseError { msg, pos } => Fault::Parse { msg: msg@, pos: pos as int },
            ShellError::UnsupportedSyntax(s) => Fault::Unsupported(s@),
            ShellError::Io(s) => Fault::Io(s@),
        }
    }
}

/// The line that describes a fault.
pub open spec fn fault_text(f: Fault) -> Seq<char> {
    match f {
        Fault::Parse { msg, pos } => "parse error at "@ + dec(pos as nat) + ": "@ + msg,
        Fault::Unsupported(s) => "unsupported syntax: "@ + s,
        Fault::Io(s) => "io: "@ + s,
    }
}

impl ShellError {
    /// The text that describes the error.
    pub fn message(&self) -> (res: String)
        ensures
            res@ == fault_text(self@),
    {
        match self {
            ShellError::ParseError { msg, pos } => {
                let mut res = "parse error at ".to_owned();
                text::push_dec(&mut res, *pos as u128);
                res.push_str(": ");
                res.push_str(msg.as_str());
                res
            },
            ShellError::UnsupportedSyntax(s) => {
                let mut res = "unsupported syntax: ".to_owned();
                res.push_str(s.as_str());
                res
            },
            ShellError::Io(s) => {
                let mut res = "io: ".to_owned();
                res.push_str(s.as_str());
                res
            },
        }
    }
}

} // verus!

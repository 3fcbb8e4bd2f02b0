//! The tool that runs a shell command, and the audit that every command passes first.

use vstd::prelude::*;

use crate::audit::{blocking_only, default_table, findings, from_table, Scanner};
use crate::fstools::{input_value, parse_input, require_str, str_field};
use crate::text::{push_signed, readable, signed_dec, utf8_lossy};
use crate::vshell::exec::ExecResult;

verus! {

/// The tool `bash`.
#[derive(Debug, Clone, Copy)]
pub struct BashTool;

/// The command in an input, or why there is none.
pub open spec fn command_in(input: Seq<char>) -> Result<Seq<char>, Seq<char>> {
    match input_value(input) {
        Ok(v) => str_field(v, "command"@),
        Err(m) => Err(m),
    }
}

/// What a command printed, first to stdout, then to stderr; and the code that it exited with,
/// unless that is 0.
pub open spec fn printed(stdout: Seq<u8>, stderr: Seq<u8>, code: int) -> Seq<char> {
    let text = readable(stdout) + readable(stderr);
    if code == 0 {
        text
    } else {
        text + "[exit "@ + signed_dec(code) + "]"@
    }
}

impl BashTool {
    pub fn name(&self) -> (res: &str)
        ensures
            res@ == "bash"@,
    {
        "bash"
    }

    pub fn description(&self) -> (res: &str)
        ensures
            res@ == "Run a shell command and return what it prints."@,
    {
        "Run a shell command and return what it prints."
    }

    /// The schema of the input: a JSON text.
    pub fn input_schema(&self) -> (res: &str)
        ensures
            res@
                == "{\"type\":\"object\",\"properties\":{\"command\":{\"type\":\"string\"}},\"required\":[\"command\"]}"@,
    {
        "{\"type\":\"object\",\"properties\":{\"command\":{\"type\":\"string\"}},\"required\":[\"command\"]}"
    }

    /// The command in an input, or why there is none.
    pub fn command(&self, input: &str) -> (res: Result<String, String>)
        ensures
            match command_in(input@) {
                Ok(c) => res matches Ok(s) && s@ == c,
                Err(m) => res matches Err(e) && e@ == m,
            },
    {
        let v = match parse_input(input) {
            Ok(v) => v,
            Err(e) => {
                return Err(e.0);
            },
        };
        match require_str(&v, "command") {
            Ok(c) => Ok(c),
            Err(e) => Err(e.0),
        }
    }

    /// What a command printed, as the tool gives it.
    pub fn report(&self, r: &ExecResult) -> (res: String)
        ensures
            res@ == printed(r.stdout@, r.stderr@, r.exit_code as int),
    {
        let mut res = utf8_lossy(r.stdout.as_slice());
        res.push_str(utf8_lossy(r.stderr.as_slice()).as_str());
        if r.exit_code != 0 {
            res.push_str("[exit ");
            push_signed(&mut res, r.exit_code as i64);
            res.push_str("]");
        }
        res
    }
}

/// Lets no command pass that has the shape of an attack.
pub struct AuditedShell {
    scanner: Scanner,
}

impl AuditedShell {
    /// The scanner that looks at the commands.
    pub closed spec fn scanner(&self) -> Scanner {
        self.scanner
    }

    /// Looks for the known shapes.
    pub fn new() -> (res: Self)
        ensures
            from_table(res.scanner()@, default_table()),
    {
        AuditedShell { scanner: Scanner::default_patterns() }
    }

    /// Whether a command may run: the first shape that forbids it, otherwise.
    pub fn check(&self, cmd: &str) -> (res: Result<(), String>)
        ensures
            ({
                let b = vstd::utf8::encode_utf8(cmd@);
                let f = blocking_only(findings(self.scanner()@, b, b.len() as int));
                if f.len() == 0 {
                    res is Ok
                } else {
                    res matches Err(m) && m@ == "blocked by audit: "@ + f[0].label@
                }
            }),
    {
        let f = self.scanner.blocking(cmd.as_bytes());
        if f.len() == 0 {
            return Ok(());
        }
        let mut m = "blocked by audit: ".to_owned();
        m.push_str(f[0].label);
        Err(m)
    }
}

} // verus!

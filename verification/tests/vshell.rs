//! The shell, run against a small model of the operating system.

use std::collections::HashMap;
use std::sync::atomic::AtomicBool;
use std::sync::Arc;

use sandcastle::vshell::exec::{
    Action, ChildInput, ChildOutcome, ChildSpec, ExecResult, OpenMode, Progress, Reply, Span, VShell,
    OUTPUT_CAP_BYTES,
};
use sandcastle::vshell::supervise::{exit_status, Capture, Order, Overflow, Sighting, Supervisor};
use sandcastle::vshell::ShellError;

/// Files, directories and a few programs.
struct Os {
    dirs: Vec<String>,
    files: HashMap<String, Vec<u8>>,
    /// Seconds that a program may run, and whether it is to be cancelled.
    timeout: u64,
    cancel: bool,
}

impl Os {
    fn new() -> Os {
        Os {
            dirs: vec!["/".to_string(), "/tmp".to_string(), "/home/u".to_string()],
            files: HashMap::new(),
            timeout: 300,
            cancel: false,
        }
    }

    fn text(&self, path: &str) -> String {
        String::from_utf8(self.files[path].clone()).unwrap()
    }

    /// Runs a script to its end.
    fn run(&mut self, sh: &mut VShell, script: &str) -> ExecResult {
        let mut replies: Vec<Reply> = Vec::new();
        let mut open: HashMap<usize, String> = HashMap::new();
        loop {
            match sh.execute(script, &replies) {
                Progress::Done(r) => return r,
                Progress::Need(a) => {
                    let i = replies.len();
                    let r = self.answer(a, i, &mut open);
                    replies.push(r);
                }
            }
        }
    }

    fn answer(&mut self, a: Action, i: usize, open: &mut HashMap<usize, String>) -> Reply {
        match a {
            Action::Canonicalize(p) => {
                if self.dirs.contains(&p) {
                    Reply::Path(p)
                } else {
                    Reply::Failed("No such file or directory (os error 2)".to_string())
                }
            }
            Action::Open { path, mode } => {
                match mode {
                    OpenMode::Create => {
                        self.files.insert(path.clone(), Vec::new());
                    }
                    OpenMode::Append => {
                        self.files.entry(path.clone()).or_default();
                    }
                    OpenMode::Read | OpenMode::AppendExisting => {
                        if !self.files.contains_key(&path) {
                            return Reply::Failed(
                                "No such file or directory (os error 2)".to_string(),
                            );
                        }
                    }
                }
                open.insert(i, path);
                Reply::Done
            }
            Action::Write { file, data } => {
                self.files.get_mut(&open[&file]).unwrap().extend_from_slice(&data);
                Reply::Done
            }
            Action::Spawn(c) => self.spawn(c, open),
        }
    }

    fn spawn(&mut self, c: ChildSpec, open: &HashMap<usize, String>) -> Reply {
        let input = match &c.stdin {
            ChildInput::Null => Vec::new(),
            ChildInput::Bytes(b) => b.clone(),
            ChildInput::File(n) => self.files[&open[n]].clone(),
        };
        let var = |name: &str| c.env.get(name).cloned().unwrap_or_default();
        let mut out: Vec<u8> = Vec::new();
        let mut err: Vec<u8> = Vec::new();
        let mut watch = Supervisor::new();
        let mut code = Some(0);
        let mut signal = None;
        match c.program.as_str() {
            "cat" => out = input,
            "printf" => out = c.args[0].replace("\\n", "\n").into_bytes(),
            "sleep" => {
                let secs: u64 = c.args[0].parse().unwrap();
                let order = watch.look(Sighting {
                    past_deadline: secs > self.timeout,
                    cancelled: self.cancel,
                    overflow: Overflow::Nothing,
                    past_grace: false,
                });
                if order == Order::Terminate {
                    code = None;
                    signal = Some(15);
                }
            }
            "yes" => {
                let chunk = b"y\n".repeat(4096);
                let mut kept = Capture::new();
                while !kept.absorb(&chunk, OUTPUT_CAP_BYTES) {}
                let order = watch.look(Sighting {
                    past_deadline: false,
                    cancelled: false,
                    overflow: Overflow::Stdout,
                    past_grace: false,
                });
                assert_eq!(order, Order::Terminate);
                code = None;
                signal = Some(15);
                out = kept.buf;
            }
            "sh" => match c.args[1].as_str() {
                "echo $X" => out = format!("{}\n", var("X")).into_bytes(),
                "echo @${X}@" => out = format!("@{}@\n", var("X")).into_bytes(),
                "echo err >&2" => err = b"err\n".to_vec(),
                "echo a >&2" => err = b"a\n".to_vec(),
                "echo b >&2" => err = b"b\n".to_vec(),
                "echo out; echo err >&2" => {
                    out = b"out\n".to_vec();
                    err = b"err\n".to_vec();
                }
                "exit 42" => code = Some(42),
                other => panic!("no such script: {other}"),
            },
            _ => return Reply::Failed("No such file or directory (os error 2)".to_string()),
        }
        let outcome = watch.outcome_for(exit_status(code, signal));
        if let Some(f) = c.stdout {
            self.files.get_mut(&open[&f]).unwrap().extend_from_slice(&out);
            out = Vec::new();
        }
        if let Some(f) = c.stderr {
            self.files.get_mut(&open[&f]).unwrap().extend_from_slice(&err);
            err = Vec::new();
        }
        Reply::Child { outcome, stdout: out, stderr: err }
    }
}

fn shell() -> VShell {
    VShell::new("/home/u")
}

fn s(b: &[u8]) -> String {
    String::from_utf8_lossy(b).into_owned()
}

#[test]
fn simple_echo() {
    let mut os = Os::new();
    let mut sh = shell();
    let r = os.run(&mut sh, "echo hello");
    assert_eq!(r.exit_code, 0);
    assert_eq!(s(&r.stdout), "hello\n");
}

#[test]
fn echo_n_flag() {
    let mut os = Os::new();
    let mut sh = shell();
    let r = os.run(&mut sh, "echo -n hi");
    assert_eq!(s(&r.stdout), "hi");
}

#[test]
fn empty_script() {
    let mut os = Os::new();
    let mut sh = shell();
    let r = os.run(&mut sh, "");
    assert_eq!(r.exit_code, 0);
}

#[test]
fn comments_ignored() {
    let mut os = Os::new();
    let mut sh = shell();
    let r = os.run(&mut sh, "# this is a comment\necho ok");
    assert_eq!(s(&r.stdout), "ok\n");
}

#[test]
fn exit_propagates() {
    let mut os = Os::new();
    let mut sh = shell();
    let r = os.run(&mut sh, "exit 7");
    assert_eq!(r.exit_code, 7);
}

#[test]
fn false_returns_one() {
    let mut os = Os::new();
    let mut sh = shell();
    let r = os.run(&mut sh, "false");
    assert_eq!(r.exit_code, 1);
}

#[test]
fn true_returns_zero() {
    let mut os = Os::new();
    let mut sh = shell();
    let r = os.run(&mut sh, "true");
    assert_eq!(r.exit_code, 0);
}

#[test]
fn colon_returns_zero() {
    let mut os = Os::new();
    let mut sh = shell();
    let r = os.run(&mut sh, ":");
    assert_eq!(r.exit_code, 0);
}

#[test]
fn pwd_prints_cwd() {
    let mut os = Os::new();
    let mut sh = shell();
    let cwd = sh.cwd().to_string();
    let r = os.run(&mut sh, "pwd");
    assert_eq!(s(&r.stdout).trim_end(), cwd);
}

#[test]
fn cd_changes_dir() {
    let mut os = Os::new();
    let mut sh = shell();
    let r = os.run(&mut sh, "cd /tmp && pwd");
    assert_eq!(r.exit_code, 0);
    assert!(s(&r.stdout).contains("/tmp"));
}

#[test]
fn cd_bad_dir_fails() {
    let mut os = Os::new();
    let mut sh = shell();
    let r = os.run(&mut sh, "cd /this/does/not/exist/zzz");
    assert_eq!(r.exit_code, 1);
    assert!(!r.stderr.is_empty());
}

#[test]
fn export_marks_var_for_export() {
    let mut os = Os::new();
    let mut sh = shell();
    os.run(&mut sh, "export FOO=bar");
    assert_eq!(sh.env("FOO"), Some("bar"));
}

#[test]
fn export_no_args_errors() {
    let mut os = Os::new();
    let mut sh = shell();
    let r = os.run(&mut sh, "export");
    assert_eq!(r.exit_code, 1);
}

#[test]
fn unset_removes_var() {
    let mut os = Os::new();
    let mut sh = shell();
    sh.set_env("X", "y");
    os.run(&mut sh, "unset X");
    assert_eq!(sh.env("X"), None);
}

#[test]
fn single_quote_literal() {
    let mut os = Os::new();
    let mut sh = shell();
    sh.set_env("V", "EXPANDED");
    let r = os.run(&mut sh, "echo '$V'");
    assert_eq!(s(&r.stdout), "$V\n");
}

#[test]
fn double_quote_expands() {
    let mut os = Os::new();
    let mut sh = shell();
    sh.set_env("V", "X");
    let r = os.run(&mut sh, "echo \"$V-$V\"");
    assert_eq!(s(&r.stdout), "X-X\n");
}

#[test]
fn backslash_escape() {
    let mut os = Os::new();
    let mut sh = shell();
    let r = os.run(&mut sh, "echo \\$VAR");
    assert_eq!(s(&r.stdout), "$VAR\n");
}

#[test]
fn backslash_newline_continuation() {
    let mut os = Os::new();
    let mut sh = shell();
    let r = os.run(&mut sh, "echo a\\\nb");
    assert_eq!(s(&r.stdout), "ab\n");
}

#[test]
fn unterminated_single_quote() {
    let mut os = Os::new();
    let mut sh = shell();
    let r = os.run(&mut sh, "echo 'oops");
    assert_eq!(r.exit_code, 2);
    assert!(s(&r.stderr).contains("unterminated single quote"));
}

#[test]
fn unterminated_double_quote() {
    let mut os = Os::new();
    let mut sh = shell();
    let r = os.run(&mut sh, "echo \"oops");
    assert_eq!(r.exit_code, 2);
    assert!(s(&r.stderr).contains("unterminated double quote"));
}

#[test]
fn unquoted_var_expansion() {
    let mut os = Os::new();
    let mut sh = shell();
    sh.set_env("X", "world");
    let r = os.run(&mut sh, "echo hello $X");
    assert_eq!(s(&r.stdout), "hello world\n");
}

#[test]
fn braced_var_expansion() {
    let mut os = Os::new();
    let mut sh = shell();
    sh.set_env("X", "v");
    let r = os.run(&mut sh, "echo ${X}x");
    assert_eq!(s(&r.stdout), "vx\n");
}

#[test]
fn braced_var_modifier_rejected() {
    let mut os = Os::new();
    let mut sh = shell();
    let r = os.run(&mut sh, "echo ${X:-default}");
    assert_eq!(r.exit_code, 2);
    assert!(s(&r.stderr).contains("parameter expansion"));
}

#[test]
fn unset_var_expands_to_empty() {
    let mut os = Os::new();
    let mut sh = shell();
    let r = os.run(&mut sh, "echo a${MISSING}b");
    assert_eq!(s(&r.stdout), "ab\n");
}

#[test]
fn env_prefix_per_command() {
    // POSIX: `$X` is expanded BEFORE the command runs, before the prefix
    // takes effect. The subprocess sees X=1 in its env; the shell does not.
    let mut os = Os::new();
    let mut sh = shell();
    let r = os.run(&mut sh, "X=1 sh -c 'echo $X'");
    assert_eq!(s(&r.stdout), "1\n");
    assert_eq!(sh.env("X"), None);
}

#[test]
fn bare_assignment_persists() {
    let mut os = Os::new();
    let mut sh = shell();
    os.run(&mut sh, "X=hello");
    assert_eq!(sh.env("X"), Some("hello"));
}

#[test]
fn sequence_semicolon() {
    let mut os = Os::new();
    let mut sh = shell();
    let r = os.run(&mut sh, "echo a; echo b");
    assert_eq!(s(&r.stdout), "a\nb\n");
}

#[test]
fn and_if_short_circuits() {
    let mut os = Os::new();
    let mut sh = shell();
    let r = os.run(&mut sh, "false && echo nope");
    assert_eq!(r.exit_code, 1);
    assert!(s(&r.stdout).is_empty());
}

#[test]
fn and_if_runs_on_success() {
    let mut os = Os::new();
    let mut sh = shell();
    let r = os.run(&mut sh, "true && echo yes");
    assert_eq!(s(&r.stdout), "yes\n");
}

#[test]
fn or_if_runs_on_failure() {
    let mut os = Os::new();
    let mut sh = shell();
    let r = os.run(&mut sh, "false || echo recovered");
    assert_eq!(s(&r.stdout), "recovered\n");
}

#[test]
fn or_if_skips_on_success() {
    let mut os = Os::new();
    let mut sh = shell();
    let r = os.run(&mut sh, "true || echo nope");
    assert!(s(&r.stdout).is_empty());
}

#[test]
fn redirect_stdout_truncate() {
    let p = "/tmp/trunc";
    let mut os = Os::new();
    let mut sh = shell();
    let r = os.run(&mut sh, &format!("echo hello > {}", p));
    assert_eq!(r.exit_code, 0);
    assert_eq!(os.text(p), "hello\n");
}

#[test]
fn redirect_stdout_append() {
    let p = "/tmp/append";
    let mut os = Os::new();
    let mut sh = shell();
    os.run(&mut sh, &format!("echo a > {}", p));
    os.run(&mut sh, &format!("echo b >> {}", p));
    assert_eq!(os.text(p), "a\nb\n");
}

#[test]
fn redirect_stdin() {
    let p = "/tmp/stdin";
        let mut os = Os::new();
    os.files.insert(p.to_string(), b"from-file\n".to_vec());
    let mut sh = shell();
    let r = os.run(&mut sh, &format!("cat < {}", p));
    assert_eq!(s(&r.stdout), "from-file\n");
}

#[test]
fn redirect_stderr_truncate() {
    let p = "/tmp/err";
    let mut os = Os::new();
    let mut sh = shell();
    let r = os.run(&mut sh, &format!("sh -c 'echo err >&2' 2> {}", p));
    assert_eq!(r.exit_code, 0);
    assert!(s(&r.stderr).is_empty());
    assert_eq!(os.text(p), "err\n");
}

#[test]
fn redirect_stderr_append() {
    let p = "/tmp/erra";
    let mut os = Os::new();
    let mut sh = shell();
    os.run(&mut sh, &format!("sh -c 'echo a >&2' 2> {}", p));
    os.run(&mut sh, &format!("sh -c 'echo b >&2' 2>> {}", p));
    assert_eq!(os.text(p), "a\nb\n");
}

#[test]
fn redirect_stderr_to_stdout() {
    let mut os = Os::new();
    let mut sh = shell();
    let r = os.run(&mut sh, "sh -c 'echo out; echo err >&2' 2>&1");
    assert!(s(&r.stdout).contains("out"));
    assert!(s(&r.stdout).contains("err"));
    assert!(s(&r.stderr).is_empty());
}

#[test]
fn redirect_missing_target_errors() {
    let mut os = Os::new();
    let mut sh = shell();
    let r = os.run(&mut sh, "echo x > ");
    assert_eq!(r.exit_code, 2);
}

#[test]
fn pipeline_two_stage() {
    let mut os = Os::new();
    let mut sh = shell();
    let r = os.run(&mut sh, "echo hello | cat");
    assert_eq!(s(&r.stdout), "hello\n");
}

#[test]
fn pipeline_three_stage() {
    let mut os = Os::new();
    let mut sh = shell();
    let r = os.run(&mut sh, "echo abc | cat | cat");
    assert_eq!(s(&r.stdout), "abc\n");
}

#[test]
fn pipeline_exit_is_last() {
    let mut os = Os::new();
    let mut sh = shell();
    let r = os.run(&mut sh, "true | false");
    assert_eq!(r.exit_code, 1);
}

#[test]
fn command_substitution() {
    let mut os = Os::new();
    let mut sh = shell();
    let r = os.run(&mut sh, "echo $(echo hello)");
    assert_eq!(s(&r.stdout), "hello\n");
}

#[test]
fn command_substitution_nested() {
    let mut os = Os::new();
    let mut sh = shell();
    let r = os.run(&mut sh, "echo $(echo $(echo deep))");
    assert_eq!(s(&r.stdout), "deep\n");
}

#[test]
fn command_substitution_in_double_quotes() {
    let mut os = Os::new();
    let mut sh = shell();
    let r = os.run(&mut sh, "echo \"x-$(echo y)-z\"");
    assert_eq!(s(&r.stdout), "x-y-z\n");
}

#[test]
fn command_substitution_trims_trailing_newlines() {
    let mut os = Os::new();
    let mut sh = shell();
    let r = os.run(&mut sh, "echo -$(printf 'hi\\n\\n\\n')-");
    assert_eq!(s(&r.stdout), "-hi-\n");
}

#[test]
fn unsupported_for_loop() {
    let mut os = Os::new();
    let mut sh = shell();
    let r = os.run(&mut sh, "for i in a b; do echo $i; done");
    assert_eq!(r.exit_code, 2);
    assert!(s(&r.stderr).contains("unsupported") || s(&r.stderr).contains("parse"));
}

#[test]
fn unsupported_glob() {
    let mut os = Os::new();
    let mut sh = shell();
    let r = os.run(&mut sh, "echo *.txt");
    assert_eq!(r.exit_code, 2);
    assert!(s(&r.stderr).contains("glob"));
}

#[test]
fn unsupported_heredoc() {
    let mut os = Os::new();
    let mut sh = shell();
    let r = os.run(&mut sh, "cat <<EOF\nhi\nEOF");
    assert_eq!(r.exit_code, 2);
    assert!(s(&r.stderr).contains("heredoc"));
}

#[test]
fn unsupported_subshell() {
    let mut os = Os::new();
    let mut sh = shell();
    let r = os.run(&mut sh, "(echo a)");
    assert_eq!(r.exit_code, 2);
}

#[test]
fn unsupported_backtick() {
    let mut os = Os::new();
    let mut sh = shell();
    let r = os.run(&mut sh, "echo `date`");
    assert_eq!(r.exit_code, 2);
    assert!(s(&r.stderr).contains("backtick"));
}

#[test]
fn unsupported_background_job() {
    let mut os = Os::new();
    let mut sh = shell();
    let r = os.run(&mut sh, "sleep 1 &");
    assert_eq!(r.exit_code, 2);
    assert!(s(&r.stderr).contains("background"));
}

#[test]
fn external_command_not_found() {
    let mut os = Os::new();
    let mut sh = shell();
    let r = os.run(&mut sh, "nope_xxx_definitely_no_binary_xyz");
    assert_eq!(r.exit_code, 127);
}

#[test]
fn external_command_propagates_exit() {
    let mut os = Os::new();
    let mut sh = shell();
    let r = os.run(&mut sh, "sh -c 'exit 42'");
    assert_eq!(r.exit_code, 42);
}

#[test]
fn export_then_subprocess_sees_var() {
    let mut os = Os::new();
    let mut sh = shell();
    os.run(&mut sh, "export X=visible");
    let r = os.run(&mut sh, "sh -c 'echo $X'");
    assert_eq!(s(&r.stdout), "visible\n");
}

#[test]
fn unexported_var_invisible_to_subprocess() {
    let mut os = Os::new();
    let mut sh = shell();
    os.run(&mut sh, "X=hidden");
    // `[]` is part of the inner sh -c body, not parsed by vshell.
    let r = os.run(&mut sh, "sh -c 'echo @${X}@'");
    assert_eq!(s(&r.stdout), "@@\n");
}

#[test]
fn env_prefix_inherited_by_subprocess() {
    let mut os = Os::new();
    let mut sh = shell();
    let r = os.run(&mut sh, "X=passed sh -c 'echo $X'");
    assert_eq!(s(&r.stdout), "passed\n");
}

#[test]
fn echo_with_escapes_in_double_quotes() {
    let mut os = Os::new();
    let mut sh = shell();
    let r = os.run(&mut sh, "echo \"a\\\"b\"");
    assert_eq!(s(&r.stdout), "a\"b\n");
}

#[test]
fn command_killed_after_timeout() {
    let mut os = Os::new();
    os.timeout = 1;
    let mut sh = shell().with_timeout(Span { secs: 1, nanos: 0 });
    let r = os.run(&mut sh, "sleep 60");
    assert_eq!(r.exit_code, 124, "stderr: {}", s(&r.stderr));
    assert!(
        s(&r.stderr).contains("timeout"),
        "stderr did not mention timeout: {}",
        s(&r.stderr)
    );
}

#[test]
fn stdout_overflow_kills_child_and_errors() {
    let mut os = Os::new();
    let mut sh = shell().with_timeout(Span { secs: 30, nanos: 0 });
    let r = os.run(&mut sh, "yes");
    assert_ne!(r.exit_code, 0);
    let err = s(&r.stderr);
    assert!(
        err.contains("cap") || err.contains("exceeded"),
        "stderr did not mention cap: {err}"
    );
    assert!(
        r.stdout.len() <= 8 * 1024 * 1024 + 8192,
        "stdout exceeded cap+chunk: {}",
        r.stdout.len()
    );
}

#[test]
fn cancel_token_set_terminates_in_flight_child() {
    let mut os = Os::new();
    os.cancel = true;
    let cancel = Arc::new(AtomicBool::new(true));
    let mut sh = shell().with_timeout(Span { secs: 60, nanos: 0 }).with_cancel(cancel);
    assert!(sh.cancel().is_some());
    assert_eq!(sh.timeout(), Span { secs: 60, nanos: 0 });
    let r = os.run(&mut sh, "sleep 60");
    assert_eq!(r.exit_code, 130, "stderr: {}", s(&r.stderr));
    assert!(s(&r.stderr).contains("cancelled"));
}

#[test]
fn a_pipeline_leaves_the_shell_alone() {
    let mut os = Os::new();
    let mut sh = shell();
    os.run(&mut sh, "X=1; cd /tmp | cat");
    assert_eq!(sh.cwd(), "/home/u");
    assert_eq!(sh.env("X"), Some("1"));
}

#[test]
fn the_need_is_named_and_the_shell_waits() {
    let mut sh = shell();
    match sh.execute("X=2; cat", &Vec::new()) {
        Progress::Need(Action::Spawn(c)) => {
            assert_eq!(c.program, "cat");
            assert_eq!(c.cwd, "/home/u");
        }
        other => panic!("{other:?}"),
    }
    assert_eq!(sh.env("X"), None);
}

#[test]
fn a_stray_parenthesis_is_an_error() {
    let mut os = Os::new();
    let mut sh = shell();
    let r = os.run(&mut sh, ")");
    assert_eq!(r.exit_code, 2);
    assert!(s(&r.stderr).contains("unexpected"), "{}", s(&r.stderr));
}

#[test]
fn the_shell_finds_out_what_became_of_a_child() {
    let mut watch = Supervisor::new();
    let quiet = Sighting {
        past_deadline: false,
        cancelled: false,
        overflow: Overflow::Nothing,
        past_grace: false,
    };
    assert_eq!(watch.look(quiet), Order::Wait);
    assert_eq!(watch.look(Sighting { overflow: Overflow::Stderr, ..quiet }), Order::Terminate);
    assert_eq!(watch.look(Sighting { past_deadline: true, ..quiet }), Order::Wait);
    assert_eq!(watch.look(Sighting { past_grace: true, ..quiet }), Order::Kill);
    assert_eq!(watch.look(Sighting { past_grace: true, ..quiet }), Order::Wait);
    assert_eq!(watch.outcome_for(9), ChildOutcome::StderrOverflow);
    assert_eq!(exit_status(Some(3), None), 3);
    assert_eq!(exit_status(None, Some(15)), 143);
    assert_eq!(exit_status(None, None), 128);
}

#[test]
fn error_texts() {
    let e = ShellError::ParseError { msg: "m".to_string(), pos: 3 };
    assert_eq!(e.message(), "parse error at 3: m");
    assert_eq!(ShellError::UnsupportedSyntax("x".to_string()).message(), "unsupported syntax: x");
    assert_eq!(ShellError::Io("gone".to_string()).message(), "io: gone");
}

#[test]
fn spare_replies_change_nothing() {
    let mut sh = shell();
    let replies = vec![Reply::Failed("never asked".to_string())];
    match sh.execute("echo hi; exit 3", &replies) {
        Progress::Done(r) => {
            assert_eq!(r.exit_code, 3);
            assert_eq!(s(&r.stdout), "hi\n");
        }
        Progress::Need(a) => panic!("asked for {a:?}"),
    }
}

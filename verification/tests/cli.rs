//! Options and commands of the program.

use sandcastle::cli::commands::{
    begin_chat, end_chat, run_cmd, serve_cmd, CliAction, CliEnv, CliExit, CliReply, CliStep,
    Prompted, RunStatus,
};
use sandcastle::cli::{
    build_model, mcp_command, parse_common, parse_prompt, parse_run, parse_serve, parse_strategy,
    printed, prompt_source, remark, ModelEnv, PromptSource, Strategy,
};
use sandcastle::server::EventSink;

fn args(a: &[&str]) -> Vec<String> {
    a.iter().map(|s| s.to_string()).collect()
}

fn models() -> ModelEnv {
    ModelEnv {
        openai_key: Some("ok".into()),
        anthropic_key: Some("ak".into()),
        model: None,
        openai_base_url: Some("http://localhost".into()),
        anthropic_default: "small".into(),
    }
}

fn env() -> CliEnv {
    CliEnv { sessions_dir: None, models: models() }
}

fn exit_of(step: CliStep) -> CliExit {
    match step {
        CliStep::Exit(e) => e,
        CliStep::Need(action) => panic!("asked for {action:?}"),
    }
}

fn need_of(step: CliStep) -> CliAction {
    match step {
        CliStep::Need(action) => action,
        CliStep::Exit(e) => panic!("exited with {e:?}"),
    }
}

fn answer(text: &str, completed: bool, turns: usize) -> CliReply {
    CliReply::Prompted(Prompted::Answer { text: text.into(), completed, turns })
}

#[test]
fn common_options_are_taken_out() {
    let a = args(&["fix", "--openai", "--model", "m", "--mcp", "a b", "it", "--mcp", "c", "--model"]);
    let (o, rest) = parse_common(&a, Some("/s".into()));
    assert!(o.openai);
    assert_eq!(o.model.as_deref(), Some("m"));
    assert_eq!(o.sessions_dir.as_deref(), Some("/s"));
    assert_eq!(o.mcp_specs, args(&["a b", "c"]));
    assert_eq!(rest, args(&["fix", "it"]));
}

#[test]
fn plain_arguments_stay() {
    let (o, rest) = parse_common(&args(&["a", "b"]), None);
    assert!(!o.openai);
    assert_eq!(rest, args(&["a", "b"]));
}

#[test]
fn models_are_chosen() {
    let (o, _) = parse_common(&args(&[]), None);
    let c = build_model(&o, &models()).unwrap();
    assert_eq!((c.openai, c.key.as_str(), c.name.as_str()), (false, "ak", "small"));
    assert_eq!(c.base_url, None);
    let (o, _) = parse_common(&args(&["--openai"]), None);
    let c = build_model(&o, &models()).unwrap();
    assert_eq!((c.openai, c.key.as_str(), c.name.as_str()), (true, "ok", "gpt-4o-mini"));
    assert_eq!(c.base_url.as_deref(), Some("http://localhost"));
    let mut none = models();
    none.openai_key = None;
    assert_eq!(build_model(&o, &none).unwrap_err(), "OPENAI_API_KEY required");
}

#[test]
fn tool_server_commands() {
    assert_eq!(mcp_command(" sh  -c x ").unwrap(), args(&["sh", "-c", "x"]));
    assert_eq!(mcp_command("  ").unwrap_err(), "empty --mcp value");
}

#[test]
fn run_options() {
    let o = parse_run(&args(&["--skill", "s", "--arg", "K=v=w", "--branch-strategy", "head"]));
    let o = o.unwrap();
    assert_eq!(o.skill.as_deref(), Some("s"));
    assert_eq!(o.skill_args.get("K").map(|s| s.as_str()), Some("v=w"));
    assert_eq!(o.strategy.as_deref(), Some("head"));
    assert!(matches!(prompt_source(&o), PromptSource::Skill(s) if s == "s"));
    let err = parse_run(&args(&["--arg", "K"])).unwrap_err();
    assert_eq!(err, "--arg expects KEY=VALUE, got: K");
    let o = parse_run(&args(&["say", "hi"])).unwrap();
    assert!(matches!(prompt_source(&o), PromptSource::Text(t) if t == "say hi"));
    let o = parse_run(&args(&[])).unwrap();
    assert!(matches!(prompt_source(&o), PromptSource::Missing));
}

#[test]
fn strategies() {
    assert_eq!(parse_strategy(&None).unwrap(), None);
    assert_eq!(parse_strategy(&Some("head".into())).unwrap(), Some(Strategy::Head));
    assert_eq!(
        parse_strategy(&Some("merge-to-head".into())).unwrap(),
        Some(Strategy::MergeToHead)
    );
    assert_eq!(
        parse_strategy(&Some("branch: x ".into())).unwrap(),
        Some(Strategy::Branch { name: "x".into() })
    );
    assert_eq!(
        parse_strategy(&Some("branch: ".into())).unwrap_err(),
        "--branch-strategy branch:<name> requires a name"
    );
    assert_eq!(
        parse_strategy(&Some("x".into())).unwrap_err(),
        "unknown --branch-strategy 'x' (try: head | merge-to-head | branch:NAME)"
    );
}

#[test]
fn texts_of_a_run() {
    assert_eq!(printed("a"), "a\n");
    assert_eq!(printed("a\n"), "a\n");
    assert_eq!(printed(""), "\n");
    assert_eq!(remark(true, 1).unwrap(), "[completion signal fired after 1 turn(s)]");
    assert_eq!(remark(false, 2).unwrap(), "[2 turn(s)]");
    assert_eq!(remark(false, 1), None);
}

#[test]
fn a_run_asks_and_reports() {
    let a = args(&["say", "hi"]);
    match need_of(run_cmd(&a, &env(), &vec![])) {
        CliAction::Prompt { text, root, model } => {
            assert_eq!(text, "say hi");
            assert_eq!(root, None);
            assert_eq!(model.name, "small");
        }
        other => panic!("unexpected: {other:?}"),
    }
    match need_of(run_cmd(&a, &env(), &vec![answer("ok", true, 3)])) {
        CliAction::Report { out, err } => {
            assert_eq!(out.as_deref(), Some("ok\n"));
            assert_eq!(err.as_deref(), Some("[completion signal fired after 3 turn(s)]"));
        }
        other => panic!("unexpected: {other:?}"),
    }
    let e = exit_of(run_cmd(&a, &env(), &vec![answer("ok", true, 3), CliReply::Done(Ok(()))]));
    assert_eq!((e.code, e.err, e.usage), (0, None, false));
}

#[test]
fn a_run_in_a_workspace() {
    let a = args(&["--branch-strategy", "branch:x", "go"]);
    let mut r = vec![];
    assert!(matches!(need_of(run_cmd(&a, &env(), &r)), CliAction::CurrentDir));
    r.push(CliReply::Dir(Ok("/repo".into())));
    match need_of(run_cmd(&a, &env(), &r)) {
        CliAction::Prepare { strategy, root } => {
            assert_eq!(strategy, Strategy::Branch { name: "x".into() });
            assert_eq!(root, "/repo");
        }
        other => panic!("unexpected: {other:?}"),
    }
    r.push(CliReply::Dir(Ok("/repo/ws".into())));
    assert!(matches!(need_of(run_cmd(&a, &env(), &r)), CliAction::ChangeDir(d) if d == "/repo/ws"));
    r.push(CliReply::Done(Ok(())));
    assert!(
        matches!(need_of(run_cmd(&a, &env(), &r)), CliAction::Prompt { root: Some(d), .. } if d == "/repo/ws")
    );
    r.push(CliReply::Prompted(Prompted::Failed("lost".into())));
    match need_of(run_cmd(&a, &env(), &r)) {
        CliAction::Report { out, err } => {
            assert_eq!(out, None);
            assert_eq!(err.as_deref(), Some("session error: lost"));
        }
        other => panic!("unexpected: {other:?}"),
    }
    r.push(CliReply::Done(Ok(())));
    match need_of(run_cmd(&a, &env(), &r)) {
        CliAction::Finish(RunStatus::Failure(m)) => assert_eq!(m, "lost"),
        other => panic!("unexpected: {other:?}"),
    }
    r.push(CliReply::Done(Err("busy".into())));
    let e = exit_of(run_cmd(&a, &env(), &r));
    assert_eq!(e.code, 1);
    assert_eq!(e.err.as_deref(), Some("branch strategy finish: busy"));
}

#[test]
fn failures_before_the_prompt() {
    let e = exit_of(run_cmd(&args(&[]), &env(), &vec![]));
    assert_eq!((e.code, e.usage), (2, true));

    let a = args(&["--skill", "s"]);
    assert!(matches!(need_of(run_cmd(&a, &env(), &vec![])), CliAction::LoadSkill { .. }));
    let e = exit_of(run_cmd(&a, &env(), &vec![CliReply::Skill(Err("gone".into()))]));
    assert_eq!((e.code, e.err.as_deref()), (2, Some("skill s: gone")));

    let a = args(&["--mcp", "srv -x", "go"]);
    assert!(matches!(need_of(run_cmd(&a, &env(), &vec![])), CliAction::StartMcp(w) if w.len() == 2));
    let e = exit_of(run_cmd(&a, &env(), &vec![CliReply::Done(Err("no".into()))]));
    assert_eq!((e.code, e.err.as_deref()), (1, Some("mcp srv: no")));

    let a = args(&["--sessions", "/a\"b", "go"]);
    let e = exit_of(run_cmd(&a, &env(), &vec![CliReply::Done(Err("no".into()))]));
    assert_eq!((e.code, e.err.as_deref()), (1, Some("sessions dir \"/a\\\"b\": no")));
}

#[test]
fn serving() {
    assert_eq!(parse_serve(&args(&[])), ("0.0.0.0:3583".to_string(), vec![]));
    let a = args(&["--addr", "h:1"]);
    match need_of(serve_cmd(&a, &env(), &vec![])) {
        CliAction::Serve { addr, model } => {
            assert_eq!(addr, "h:1");
            assert_eq!(model.name, "small");
        }
        other => panic!("unexpected: {other:?}"),
    }
    let e = exit_of(serve_cmd(&a, &env(), &vec![CliReply::Done(Err("in use".into()))]));
    assert_eq!((e.code, e.err.as_deref()), (1, Some("serve failed: in use")));
    let e = exit_of(serve_cmd(&args(&["x", "y\"z"]), &env(), &vec![]));
    assert_eq!((e.code, e.usage), (2, true));
    assert_eq!(e.err.as_deref(), Some("unexpected args: [\"x\", \"y\\\"z\"]"));
}

#[test]
fn chats() {
    assert_eq!(parse_prompt(br#"{"prompt":"hi"}"#).unwrap(), "hi");
    assert_eq!(parse_prompt(b" say hi\n").unwrap(), "say hi");
    assert_eq!(parse_prompt(b"{}").unwrap_err(), "body missing 'prompt' string field");
    let mut sink = EventSink::new();
    assert_eq!(begin_chat("id", br#"{"prompt":"hi"}"#, &mut sink).unwrap(), "hi");
    let done = Prompted::Answer { text: "a\nb".into(), completed: false, turns: 2 };
    end_chat(&done, &mut sink).unwrap();
    assert_eq!(
        String::from_utf8(sink.out).unwrap(),
        "event: start\ndata: id\n\nevent: text\ndata: a\ndata: b\n\nevent: done\ndata: turns=2\n\n"
    );
    let mut sink = EventSink::new();
    assert!(begin_chat("id", b"{}", &mut sink).is_err());
    assert_eq!(end_chat(&Prompted::Dropped, &mut sink).unwrap_err().message(), "session dropped");
    assert!(sink.out.is_empty());
}

#[test]
fn spare_answers_change_nothing_for_commands() {
    let a = args(&["say", "hi"]);
    let mut r = vec![answer("ok", false, 1), CliReply::Done(Ok(()))];
    let short = exit_of(run_cmd(&a, &env(), &r));
    r.push(CliReply::Done(Err("late".into())));
    let long = exit_of(run_cmd(&a, &env(), &r));
    assert_eq!((short.code, short.err), (long.code, long.err));
}

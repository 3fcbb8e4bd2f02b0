//! Subagents, with scripted models.

use sandcastle::harness::model::{
    ContentBlock, MockModel, ModelError, ModelEvent, Role, ToolDef,
};
use sandcastle::harness::bash::BashTool;
use sandcastle::harness::session::{
    HarnessState, PromptResult, PromptStep, Session, SessionError, SessionMsg,
};
use sandcastle::harness::stream::{last_event, narrate, relay_result, StreamEvent};
use sandcastle::harness::turn::ToolUse;
use sandcastle::subagent::{child_state, spawn_task, spawn_task_streaming, TaskHandle};
use sandcastle::vshell::exec::ExecResult;

fn parent() -> HarnessState {
    HarnessState::new("parent").with_tools(vec![ToolDef {
        name: BashTool.name().into(),
        description: BashTool.description().into(),
        input_schema: BashTool.input_schema().into(),
    }])
}

fn reply(text: &str) -> Vec<ModelEvent> {
    vec![
        ModelEvent::TextDelta(text.into()),
        ModelEvent::Stop { reason: Some("end_turn".into()) },
    ]
}

/// A shell that notes its commands and gives canned output.
struct Sandbox {
    responses: Vec<&'static str>,
    recorded: Vec<String>,
}

impl Sandbox {
    fn new(responses: Vec<&'static str>) -> Sandbox {
        Sandbox { responses, recorded: vec![] }
    }

    fn call(&mut self, u: &ToolUse) -> Result<String, String> {
        self.recorded.push(BashTool.command(&u.input)?);
        let stdout = if self.responses.is_empty() { "" } else { self.responses.remove(0) };
        Ok(BashTool.report(&ExecResult {
            exit_code: 0,
            stdout: stdout.as_bytes().to_vec(),
            stderr: vec![],
        }))
    }
}

/// Prompts a session to the end of the prompt; notes what is told of it.
fn ask_with(
    session: &mut Session,
    model: &mut MockModel,
    sandbox: &mut Sandbox,
    told: &mut Vec<StreamEvent>,
    text: &str,
) -> Result<PromptResult, SessionError> {
    let mut req = session.begin_prompt(text);
    let mut turns = 1;
    loop {
        let events = model.stream(req).into_iter().map(Ok).collect();
        told.extend(narrate(turns, &events));
        match session.run_prompt(turns, &events, &None) {
            PromptStep::Done(res) => return Ok(res),
            PromptStep::Failed(e) => return Err(e),
            PromptStep::Tools(uses) => {
                let outcomes = uses.iter().map(|u| sandbox.call(u)).collect();
                let next = session.answer_tools(turns, &uses, &outcomes);
                let answers = &session.history.last().unwrap().content;
                told.extend(answers.iter().filter_map(relay_result));
                req = next?;
                turns += 1;
            }
        }
    }
}

fn ask(
    session: &mut Session,
    model: &mut MockModel,
    text: &str,
) -> Result<PromptResult, SessionError> {
    ask_with(session, model, &mut Sandbox::new(vec![]), &mut vec![], text)
}

/// Runs a task to its end.
fn run_with(
    state: &HarnessState,
    model: &mut MockModel,
    sandbox: &mut Sandbox,
    prompt: &str,
    role: Option<&str>,
) -> Result<PromptResult, SessionError> {
    let (mut session, msg) = spawn_task(state, prompt.into(), role.map(str::to_string));
    let text = match msg {
        SessionMsg::Prompt { text, structured_output_tag: None } => text,
        other => panic!("unexpected: {other:?}"),
    };
    let outcome = ask_with(&mut session, model, sandbox, &mut vec![], &text);
    TaskHandle { outcome: Some(outcome) }.join()
}

fn run(
    state: &HarnessState,
    model: &mut MockModel,
    prompt: &str,
    role: Option<&str>,
) -> Result<PromptResult, SessionError> {
    run_with(state, model, &mut Sandbox::new(vec![]), prompt, role)
}

/// Runs a task to its end; gives what is told of it.
fn run_streaming(
    state: &HarnessState,
    model: &mut MockModel,
    sandbox: &mut Sandbox,
    prompt: &str,
) -> Vec<StreamEvent> {
    let (mut session, msg) = spawn_task_streaming(state, prompt.into(), None);
    let text = match msg {
        SessionMsg::PromptStream { text, structured_output_tag: None } => text,
        other => panic!("unexpected: {other:?}"),
    };
    let mut told = vec![];
    let outcome = ask_with(&mut session, model, sandbox, &mut told, &text);
    told.push(last_event(outcome));
    told
}

fn bash_turn(id: &str, command: &str) -> Vec<ModelEvent> {
    vec![
        ModelEvent::ToolUseStart { id: id.into(), name: "bash".into() },
        ModelEvent::ToolUseInputDelta(format!(r#"{{"command":"{command}"}}"#)),
        ModelEvent::BlockStop,
        ModelEvent::Stop { reason: Some("tool_use".into()) },
    ]
}

#[test]
fn spawn_task_returns_prompt_result() {
    let mut model = MockModel::single(reply("done"));
    let res = run(&parent(), &mut model, "do thing", None).unwrap();
    assert_eq!(res.text, "done");
    assert_eq!(res.turns, 1);
    assert!(!res.completed);
}

#[test]
fn subagent_history_does_not_pollute_parent_session() {
    let state = parent();
    let mut model =
        MockModel::new(vec![reply("parent reply"), reply("child reply"), reply("parent again")]);
    let mut session = Session::new("parent-sess", parent());
    ask(&mut session, &mut model, "first").unwrap();
    run(&state, &mut model, "child prompt", None).unwrap();
    ask(&mut session, &mut model, "second").unwrap();

    let seen = &model.seen;
    assert_eq!(seen.len(), 3);

    assert_eq!(seen[1].messages.len(), 1);
    assert_eq!(seen[1].messages[0].content, vec![ContentBlock::Text("child prompt".into())]);

    let p2 = &seen[2];
    assert_eq!(p2.messages.len(), 3);
    assert_eq!(p2.messages[0].role, Role::User);
    assert_eq!(p2.messages[0].content, vec![ContentBlock::Text("first".into())]);
    assert_eq!(p2.messages[1].role, Role::Assistant);
    assert_eq!(p2.messages[1].content, vec![ContentBlock::Text("parent reply".into())]);
    assert_eq!(p2.messages[2].role, Role::User);
    assert_eq!(p2.messages[2].content, vec![ContentBlock::Text("second".into())]);
    for m in &p2.messages {
        for c in &m.content {
            if let ContentBlock::Text(t) = c {
                assert!(!t.contains("child"), "parent history leaked subagent content: {t:?}");
            }
        }
    }
}

#[test]
fn role_system_override_is_passed_to_model() {
    let mut model = MockModel::single(reply("ok"));
    run(&parent(), &mut model, "task", Some("you are a triage bot")).unwrap();
    assert_eq!(model.seen.len(), 1);
    assert_eq!(model.seen[0].system.as_deref(), Some("you are a triage bot"));
}

#[test]
fn no_role_system_inherits_parent_default_system() {
    let mut model = MockModel::single(reply("ok"));
    run(&parent().with_system("parent system"), &mut model, "task", None).unwrap();
    assert_eq!(model.seen[0].system.as_deref(), Some("parent system"));
}

#[test]
fn role_system_does_not_leak_back_to_parent_state() {
    let state = parent().with_system("parent system");
    let mut model = MockModel::single(reply("ok"));
    run(&state, &mut model, "x", Some("ROLE")).unwrap();
    assert_eq!(state.default_system.as_deref(), Some("parent system"));
}

#[test]
fn three_subagents_in_parallel_each_get_their_own_result() {
    for text in ["alpha", "beta", "gamma"] {
        let mut model = MockModel::single(reply(text));
        let res = run(&HarnessState::new("p"), &mut model, "p", None).unwrap();
        assert_eq!(res.text, text);
    }
}

#[test]
fn subagent_shares_tools_with_parent() {
    let state = parent();
    let child = child_state(&state, None);
    assert_eq!(state.tools, child.tools);
}

#[test]
fn subagent_inherits_max_tokens() {
    let mut state = parent();
    state.default_max_tokens = 12345;
    let mut model = MockModel::single(reply("ok"));
    run(&state, &mut model, "go", None).unwrap();
    assert_eq!(model.seen[0].max_tokens, 12345);
}

#[test]
fn subagent_empty_history_at_start() {
    let mut model = MockModel::single(reply("ok"));
    run(&parent(), &mut model, "the only prompt", None).unwrap();
    assert_eq!(model.seen.len(), 1);
    assert_eq!(model.seen[0].messages.len(), 1);
    assert_eq!(model.seen[0].messages[0].role, Role::User);
    assert_eq!(
        model.seen[0].messages[0].content,
        vec![ContentBlock::Text("the only prompt".into())]
    );
}

#[test]
fn a_failing_model_fails_the_task() {
    let (mut session, _) = spawn_task(&parent(), "go".into(), None);
    session.begin_prompt("go");
    let outcome = match session.run_prompt(1, &vec![Err(ModelError("lost".into()))], &None) {
        PromptStep::Failed(e) => Err(e),
        other => panic!("unexpected: {other:?}"),
    };
    match (TaskHandle { outcome: Some(outcome) }).join() {
        Err(SessionError::Model(m)) => assert_eq!(m, "lost"),
        other => panic!("unexpected: {other:?}"),
    }
}

#[test]
fn a_worker_without_outcome_closed_its_mailbox() {
    assert!(matches!(TaskHandle { outcome: None }.join(), Err(SessionError::Mailbox)));
}

#[test]
fn tool_calls_in_subagent_route_through_parent_instance() {
    let mut model = MockModel::new(vec![bash_turn("toolu_1", "echo sub"), reply("did it")]);
    let mut sandbox = Sandbox::new(vec!["sub\n"]);
    let res = run_with(&parent(), &mut model, &mut sandbox, "run echo sub", None).unwrap();
    assert_eq!(res.text, "did it");
    assert_eq!(sandbox.recorded, vec!["echo sub".to_string()]);
}

#[test]
fn spawn_task_streaming_emits_text_then_done() {
    let mut model = MockModel::single(vec![
        ModelEvent::TextDelta("strea".into()),
        ModelEvent::TextDelta("med".into()),
        ModelEvent::Stop { reason: Some("end_turn".into()) },
    ]);
    let told = run_streaming(&parent(), &mut model, &mut Sandbox::new(vec![]), "go");
    let mut text = String::new();
    let mut done = None;
    for ev in told {
        match ev {
            StreamEvent::TextDelta(s) => text.push_str(&s),
            StreamEvent::Done(pr) => {
                done = Some(pr);
                break;
            }
            _ => {}
        }
    }
    assert_eq!(text, "streamed");
    let pr = done.expect("Done event");
    assert_eq!(pr.text, "streamed");
}

#[test]
fn spawn_task_streaming_emits_tool_events() {
    let mut model = MockModel::new(vec![bash_turn("t1", "echo sub"), reply("ok")]);
    let mut sandbox = Sandbox::new(vec!["sub\n"]);
    let told = run_streaming(&parent(), &mut model, &mut sandbox, "go");
    let mut saw_start = false;
    let mut saw_input = false;
    let mut saw_result = false;
    let mut saw_done = false;
    for ev in told {
        match ev {
            StreamEvent::ToolUseStart { name, .. } if name == "bash" => saw_start = true,
            StreamEvent::ToolUseInputDelta(_) => saw_input = true,
            StreamEvent::ToolResult { is_error, .. } => {
                assert!(!is_error);
                saw_result = true;
            }
            StreamEvent::Done(_) => {
                saw_done = true;
                break;
            }
            _ => {}
        }
    }
    assert!(saw_start && saw_input && saw_result && saw_done);
}

#[test]
fn failure_in_subagent_returns_err() {
    let mut model = MockModel::new((0..20).map(|_| bash_turn("t", "true")).collect());
    let err = run(&parent(), &mut model, "loop forever", None).unwrap_err();
    assert!(matches!(err, SessionError::TurnLimitExceeded));
}

#[test]
fn streaming_subagent_emits_error_on_failure() {
    let mut model = MockModel::new((0..20).map(|_| bash_turn("t", "true")).collect());
    let told = run_streaming(&parent(), &mut model, &mut Sandbox::new(vec![]), "loop forever");
    let got_err = told
        .iter()
        .any(|ev| matches!(ev, StreamEvent::Error(SessionError::TurnLimitExceeded)));
    assert!(got_err, "expected a terminal Error event");
}

#[test]
fn subagent_shares_instance_addr() {
    let mut model = MockModel::new(vec![bash_turn("t1", "a"), reply("a done")]);
    let mut sandbox = Sandbox::new(vec!["a\n"]);
    run_with(&parent(), &mut model, &mut sandbox, "run", None).unwrap();
    assert_eq!(sandbox.recorded, vec!["a".to_string()]);
}

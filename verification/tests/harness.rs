//! Prompts to a session, answered by a scripted model.

use sandcastle::harness::model::{
    ContentBlock, MockModel, ModelError, ModelEvent, ModelRequest, Role, ToolDef,
};
use sandcastle::harness::session::{
    HarnessState, PromptResult, PromptStep, Session, SessionError, MAX_TURNS,
};
use sandcastle::harness::stream::{last_event, narrate, relay_result, StreamEvent};
use sandcastle::harness::turn::{ToolUse, Turn};

/// Hands a prompt to the session and the next script of the model to the session.
fn prompt(
    session: &mut Session,
    model: &mut MockModel,
    text: &str,
    tag: Option<&str>,
) -> Result<PromptResult, SessionError> {
    let req = session.begin_prompt(text);
    let events = model.stream(req).into_iter().map(Ok).collect();
    match session.run_prompt(1, &events, &tag.map(str::to_string)) {
        PromptStep::Done(res) => Ok(res),
        PromptStep::Failed(e) => Err(e),
        PromptStep::Tools(uses) => panic!("unexpected: {uses:?}"),
    }
}

fn rig(scripts: Vec<Vec<ModelEvent>>) -> (Session, MockModel) {
    (Session::new("sess-1", HarnessState::new("harness-1")), MockModel::new(scripts))
}

fn text_of(blocks: &[ContentBlock]) -> &str {
    match blocks {
        [ContentBlock::Text(t)] => t,
        other => panic!("expected one text, got {other:?}"),
    }
}

#[test]
fn prompt_roundtrip() {
    let (mut session, mut model) = rig(vec![vec![
        ModelEvent::TextDelta("hello ".into()),
        ModelEvent::TextDelta("world".into()),
        ModelEvent::Stop { reason: Some("end_turn".into()) },
    ]]);
    let res = prompt(&mut session, &mut model, "hi", None).unwrap();
    assert_eq!(res.text, "hello world");
    assert!(!res.completed);
    assert!(res.structured.is_none());
}

#[test]
fn multi_turn_history_accumulates() {
    let (mut session, mut model) = rig(vec![
        vec![ModelEvent::TextDelta("first reply".into())],
        vec![ModelEvent::TextDelta("second reply".into())],
    ]);
    let _ = prompt(&mut session, &mut model, "one", None).unwrap();
    let _ = prompt(&mut session, &mut model, "two", None).unwrap();

    let seen = &model.seen;
    assert_eq!(seen.len(), 2);
    let second = &seen[1];
    assert_eq!(second.messages.len(), 3);
    assert_eq!(second.messages[0].role, Role::User);
    assert_eq!(text_of(&second.messages[0].content), "one");
    assert_eq!(second.messages[1].role, Role::Assistant);
    assert_eq!(text_of(&second.messages[1].content), "first reply");
    assert_eq!(second.messages[2].role, Role::User);
    assert_eq!(text_of(&second.messages[2].content), "two");
}

#[test]
fn completion_signal_marks_completed() {
    let (mut session, mut model) = rig(vec![vec![
        ModelEvent::TextDelta("thinking... ".into()),
        ModelEvent::TextDelta("<promise>COMPLETE</promise>".into()),
        // Not heard: the session has stopped listening.
        ModelEvent::TextDelta(" extra".into()),
    ]]);
    let res = prompt(&mut session, &mut model, "go", None).unwrap();
    assert!(res.completed);
    assert!(!res.text.contains("extra"));
}

#[test]
fn structured_output_extracted() {
    let (mut session, mut model) = rig(vec![vec![
        ModelEvent::TextDelta("preamble ".into()),
        ModelEvent::TextDelta("<output>{\"x\":1}</output>".into()),
        ModelEvent::TextDelta(" trailing".into()),
    ]]);
    let res = prompt(&mut session, &mut model, "extract", Some("output")).unwrap();
    assert_eq!(res.structured.as_deref(), Some(&b"{\"x\":1}"[..]));
}

#[test]
fn a_failing_model_is_reported() {
    let mut session = Session::new("s", HarnessState::new("h").with_system("be brief"));
    let req = session.begin_prompt("hi");
    assert_eq!(req.system.as_deref(), Some("be brief"));
    let events = vec![
        Ok(ModelEvent::TextDelta("half".into())),
        Err(ModelError("connection lost".into())),
    ];
    match session.run_prompt(1, &events, &None) {
        PromptStep::Failed(SessionError::Model(m)) => assert_eq!(m, "connection lost"),
        other => panic!("unexpected: {other:?}"),
    }
    assert_eq!(session.history.len(), 1);
}

#[test]
fn a_model_without_scripts_says_nothing() {
    let (mut session, mut model) = rig(vec![]);
    let res = prompt(&mut session, &mut model, "hi", None).unwrap();
    assert_eq!(res.text, "");
    assert!(!res.completed);
}

#[test]
fn completion_signal_short_circuits_tool_loop() {
    let (mut session, mut model) = rig(vec![vec![
        ModelEvent::TextDelta("almost done... ".into()),
        ModelEvent::TextDelta("<promise>COMPLETE</promise>".into()),
    ]]);
    let res = prompt(&mut session, &mut model, "finish up", None).unwrap();
    assert!(res.completed);
    assert_eq!(res.turns, 1);
}

#[test]
fn structured_output_tag_extracted_from_stream() {
    let (mut session, mut model) = rig(vec![vec![
        ModelEvent::TextDelta("here it is: ".into()),
        ModelEvent::TextDelta(r#"<answer>{"x":42}</answer>"#.into()),
        ModelEvent::TextDelta(" trailing".into()),
        ModelEvent::Stop { reason: Some("end_turn".into()) },
    ]]);
    let res = prompt(&mut session, &mut model, "give me an answer", Some("answer")).unwrap();
    assert_eq!(res.structured.as_deref(), Some(&b"{\"x\":42}"[..]));
}

fn tool(name: &str) -> ToolDef {
    ToolDef { name: name.into(), description: "d".into(), input_schema: "{}".into() }
}

fn tool_turn() -> Vec<Result<ModelEvent, ModelError>> {
    vec![
        Ok(ModelEvent::ToolUseInputDelta("dropped".into())),
        Ok(ModelEvent::TextDelta("look".into())),
        Ok(ModelEvent::ToolUseStart { id: "1".into(), name: "bash".into() }),
        Ok(ModelEvent::ToolUseInputDelta("{\"a\":".into())),
        Ok(ModelEvent::ToolUseInputDelta("1}".into())),
        Ok(ModelEvent::BlockStop),
        Ok(ModelEvent::ToolUseInputDelta("dropped".into())),
        Ok(ModelEvent::ToolUseStart { id: "2".into(), name: "ghost".into() }),
        Ok(ModelEvent::BlockStop),
        Ok(ModelEvent::Stop { reason: Some("tool_use".into()) }),
    ]
}

#[test]
fn events_add_up_to_a_turn() {
    let t = Turn::heard(&tool_turn()).unwrap();
    assert_eq!(t.text, "look");
    assert_eq!(t.stop_reason.as_deref(), Some("tool_use"));
    assert!(!t.completed);
    assert_eq!(
        t.uses,
        vec![
            ToolUse { id: "1".into(), name: "bash".into(), input: "{\"a\":1}".into() },
            ToolUse { id: "2".into(), name: "ghost".into(), input: "".into() },
        ]
    );
    assert_eq!(t.to_blocks().len(), 3);
}

#[test]
fn every_use_is_answered() {
    let state = HarnessState::new("h").with_tools(vec![tool("read"), tool("bash")]);
    assert_eq!(state.find_tool("bash"), Some(1));
    assert_eq!(state.find_tool("ghost"), None);
    let mut session = Session::new("s", state);
    session.begin_prompt("go");
    let uses = match session.run_prompt(1, &tool_turn(), &None) {
        PromptStep::Tools(uses) => uses,
        other => panic!("unexpected: {other:?}"),
    };
    let outcomes = vec![Err("boom".to_string()), Ok("never".to_string())];
    let req: ModelRequest = session.answer_tools(1, &uses, &outcomes).unwrap();
    assert_eq!(req.messages.len(), 3);
    assert_eq!(
        req.messages[2].content,
        vec![
            ContentBlock::ToolResult {
                tool_use_id: "1".into(),
                content: "boom".into(),
                is_error: true,
            },
            ContentBlock::ToolResult {
                tool_use_id: "2".into(),
                content: "unknown tool: ghost".into(),
                is_error: true,
            },
        ]
    );
    assert!(matches!(
        relay_result(&req.messages[2].content[0]),
        Some(StreamEvent::ToolResult { is_error: true, .. })
    ));
    assert!(relay_result(&req.messages[0].content[0]).is_none());
    assert!(matches!(
        session.answer_tools(MAX_TURNS, &uses, &outcomes),
        Err(SessionError::TurnLimitExceeded)
    ));
    assert_eq!(session.history.len(), 4);
}

#[test]
fn completion_counts_before_tools() {
    let mut events = tool_turn();
    events.push(Ok(ModelEvent::TextDelta("<promise>COMPLETE</promise>".into())));
    events.push(Err(ModelError("late".into())));
    let mut session = Session::new("s", HarnessState::new("h"));
    session.begin_prompt("go");
    match session.run_prompt(3, &events, &None) {
        PromptStep::Done(res) => {
            assert!(res.completed);
            assert_eq!(res.turns, 3);
        }
        other => panic!("unexpected: {other:?}"),
    }
}

#[test]
fn a_turn_is_told_in_its_order() {
    let told = narrate(2, &tool_turn());
    assert_eq!(told.len(), 10);
    assert!(matches!(&told[1], StreamEvent::TextDelta(s) if s == "look"));
    assert!(matches!(&told[2], StreamEvent::ToolUseStart { name, .. } if name == "bash"));
    match &told[9] {
        StreamEvent::TurnComplete { turn, stop_reason } => {
            assert_eq!(*turn, 2);
            assert_eq!(stop_reason.as_deref(), Some("tool_use"));
        }
        other => panic!("unexpected: {other:?}"),
    }
    assert!(narrate(1, &vec![Err(ModelError("x".into()))]).is_empty());
    assert!(matches!(
        last_event(Err(SessionError::Mailbox)),
        StreamEvent::Error(SessionError::Mailbox)
    ));
}

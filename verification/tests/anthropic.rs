//! Requests to Anthropic and the replies to them.

use sandcastle::anthropic::{
    parse_frame, serialize_request, Chunk, Client, Error, Event, EventStream, Message, Pull,
    Request, Role, Tool,
};
use sandcastle::harness::adapters::{anthropic_event, anthropic_request};
use sandcastle::harness::model::ModelEvent;
use sandcastle::harness::session::{HarnessState, Session};

#[test]
fn serialize_minimal() {
    let req = Request {
        model: "opus-4-7".into(),
        max_tokens: 64,
        messages: vec![Message { role: Role::User, content: "hi".into() }],
        system: None,
        tools: vec![],
    };
    let body = serialize_request(&req);
    assert_eq!(
        body,
        r#"{"model":"opus-4-7","max_tokens":64,"stream":true,"messages":[{"role":"user","content":"hi"}]}"#
    );
}

#[test]
fn serialize_with_system_and_tools() {
    let req = Request {
        model: "opus-4-7".into(),
        max_tokens: 1,
        messages: vec![Message {
            role: Role::Assistant,
            content: "ok\nthen".into(),
        }],
        system: Some("be terse".into()),
        tools: vec![Tool {
            name: "get_weather".into(),
            description: "weather lookup".into(),
            input_schema: r#"{"type":"object","properties":{}}"#.into(),
        }],
    };
    let body = serialize_request(&req);
    assert!(body.contains(r#""system":"be terse""#));
    assert!(body.contains(r#""role":"assistant""#));
    assert!(body.contains(r#""content":"ok\nthen""#));
    assert!(body.contains(r#""tools":[{"name":"get_weather""#));
    assert!(body.contains(r#""input_schema":{"type":"object""#));
}

#[test]
fn serialize_escapes_dangerous_chars() {
    let req = Request {
        model: "m".into(),
        max_tokens: 1,
        messages: vec![Message {
            role: Role::User,
            content: "a\"b\\c".into(),
        }],
        system: None,
        tools: vec![],
    };
    let body = serialize_request(&req);
    assert!(body.contains(r#""content":"a\"b\\c""#));
}

#[test]
fn request_goes_to_messages() {
    let req = Request {
        model: "m".into(),
        max_tokens: 1,
        messages: vec![],
        system: None,
        tools: vec![],
    };
    let call = Client::new("key".into()).stream(&req).unwrap();
    assert_eq!(call.url, "https://api.anthropic.com/v1/messages");
    assert_eq!(call.headers[0], "x-api-key: key");
    assert_eq!(
        call.body.as_deref(),
        Some(r#"{"model":"m","max_tokens":1,"stream":true,"messages":[]}"#)
    );
    match Client::new("k\0".into()).stream(&req) {
        Err(Error::Http(m)) => assert_eq!(m, "api key contains NUL"),
        other => panic!("unexpected: {other:?}"),
    }
}

#[test]
fn events_come_before_the_failure() {
    let mut s = EventStream::new();
    assert!(matches!(s.try_next(), Pull::Wait));
    s.chunk(Chunk::Data(b"event: ping\ndata: {\"type\":\"ping\"}\n\nrest".to_vec()));
    s.chunk(Chunk::Failed(Error::Io("lost".into())));
    match s.try_next() {
        Pull::Event(Ok(ev)) => assert_eq!(ev, Event::Ping),
        other => panic!("unexpected: {other:?}"),
    }
    match s.try_next() {
        Pull::Ended(Some(e)) => assert_eq!(e.message(), "io: lost"),
        other => panic!("unexpected: {other:?}"),
    }
    assert!(matches!(s.try_next(), Pull::Ended(None)));
}

fn event(data: &str) -> Event {
    parse_frame(format!("event: x\ndata: {data}").as_bytes()).unwrap()
}

#[test]
fn frames_are_read() {
    assert_eq!(
        event(r#"{"type":"message_start","message":{"id":"m1","model":"x"}}"#),
        Event::MessageStart { id: "m1".into(), model: "x".into() }
    );
    assert_eq!(
        event(r#"{"type":"content_block_start","content_block":{"type":"tool_use","id":"t","name":"n"}}"#),
        Event::ToolUseStart { id: "t".into(), name: "n".into() }
    );
    assert_eq!(
        event(r#"{"type":"content_block_start","content_block":{"type":"text","text":""}}"#),
        Event::Other("content_block_start".into())
    );
    assert_eq!(
        event(r#"{"type":"content_block_delta","delta":{"type":"text_delta","text":"hi"}}"#),
        Event::TextDelta("hi".into())
    );
    assert_eq!(
        event(r#"{"type":"content_block_delta","delta":{"type":"input_json_delta","partial_json":"{"}}"#),
        Event::ToolUseInputDelta("{".into())
    );
    assert_eq!(event(r#"{"type":"content_block_stop"}"#), Event::ContentBlockStop);
    assert_eq!(
        event(r#"{"type":"message_delta","delta":{"stop_reason":"end_turn"}}"#),
        Event::MessageDelta { stop_reason: Some("end_turn".into()) }
    );
    assert_eq!(event(r#"{"type":"message_stop"}"#), Event::MessageStop);
    assert_eq!(event(r#"{"type":"error"}"#), Event::Other("error".into()));
    assert!(matches!(parse_frame(b"event: x"), Err(Error::InvalidResponse(_))));
    assert!(matches!(parse_frame(b"data: {"), Err(Error::InvalidResponse(_))));
}

#[test]
fn requests_and_events_of_a_session() {
    let mut session = Session::new("s", HarnessState::new("h").with_system("brief"));
    let req = anthropic_request(&session.begin_prompt("hi"), "m");
    assert_eq!(
        serialize_request(&req),
        r#"{"model":"m","max_tokens":4096,"stream":true,"messages":[{"role":"user","content":"hi"}],"system":"brief"}"#
    );
    assert!(matches!(anthropic_event(Event::ContentBlockStop), Some(ModelEvent::BlockStop)));
    assert!(matches!(
        anthropic_event(Event::MessageDelta { stop_reason: None }),
        Some(ModelEvent::Stop { reason: None })
    ));
    assert!(anthropic_event(Event::Ping).is_none());
}

#[test]
fn a_finished_reply_ends() {
    let mut s = EventStream::new();
    s.chunk(Chunk::End);
    assert!(matches!(s.try_next(), Pull::Ended(None)));
}

//! The client side of the Model Context Protocol, against scripted servers.

use std::collections::VecDeque;

use sandcastle::json::{json_to_string, parse};
use sandcastle::mcp::{
    extract_text, hear, is_blank, parse_tools_list, tool_outcome, Event, Handshake, McpClient,
    McpError, Move,
};

/// A server of canned lines, which keeps the lines it was sent.
struct Mock {
    sent: VecDeque<String>,
    incoming: VecDeque<Result<Vec<u8>, String>>,
}

impl Mock {
    fn new() -> Mock {
        Mock { sent: VecDeque::new(), incoming: VecDeque::new() }
    }

    fn push_response(&mut self, line: &str) {
        self.incoming.push_back(Ok(line.as_bytes().to_vec()));
    }

    fn push_error(&mut self, msg: &str) {
        self.incoming.push_back(Err(msg.to_string()));
    }

    fn pop_sent(&mut self) -> String {
        self.sent.pop_front().unwrap()
    }

    fn send(&mut self, line: String) -> Event {
        self.sent.push_back(line);
        Event::Sent
    }

    fn receive(&mut self) -> Event {
        match self.incoming.pop_front() {
            Some(Ok(line)) => Event::Line(line),
            Some(Err(m)) => Event::Failed(m),
            None => Event::Failed("channel closed".to_string()),
        }
    }
}

fn init_response(id: u64) -> String {
    format!(
        r#"{{"jsonrpc":"2.0","id":{id},"result":{{"protocolVersion":"2024-11-05","capabilities":{{}},"serverInfo":{{"name":"mock","version":"0"}}}}}}"#
    )
}

fn tools_list_response(id: u64) -> String {
    format!(
        r#"{{"jsonrpc":"2.0","id":{id},"result":{{"tools":[{{"name":"echo","description":"Echo input.","inputSchema":{{"type":"object","properties":{{"text":{{"type":"string"}}}},"required":["text"]}}}},{{"name":"add","description":"Adds two numbers.","inputSchema":{{"type":"object","properties":{{"a":{{"type":"number"}},"b":{{"type":"number"}}}}}}}}]}}}}"#
    )
}

fn build_handshake(mock: &mut Mock) {
    mock.push_response(&init_response(1));
    mock.push_response(&tools_list_response(2));
}

fn build_client(mock: &mut Mock) -> Result<McpClient, McpError> {
    let mut events = vec![];
    loop {
        let event = match McpClient::with_transport(&events) {
            Move::Send(line) => mock.send(line),
            Move::Receive => mock.receive(),
            Move::Ready(client) => return Ok(client),
            Move::Failed(e) => return Err(e),
        };
        events.push(event);
    }
}

fn call(mock: &mut Mock, client: &mut McpClient, name: &str, args: &str) -> Result<String, McpError> {
    let (pending, line) = client.call_tool(name, args);
    let mut event = mock.send(line);
    loop {
        if let Some(res) = pending.on(&event) {
            return res;
        }
        event = mock.receive();
    }
}

fn call_first(mock: &mut Mock, client: &mut McpClient, args: &str) -> Result<String, String> {
    let name = client.tools()[0].name().to_string();
    tool_outcome(call(mock, client, &name, args))
}

#[test]
fn handshake_sends_initialize_and_initialized_notification() {
    let mut mock = Mock::new();
    build_handshake(&mut mock);
    let _client = build_client(&mut mock).unwrap();

    let init = mock.pop_sent();
    let init_str = init.as_str();
    assert!(init_str.contains(r#""method":"initialize""#));
    assert!(init_str.contains(r#""protocolVersion":"2024-11-05""#));
    assert!(init_str.contains(r#""id":1"#));

    let notified = mock.pop_sent();
    let notif = notified.as_str();
    assert!(notif.contains(r#""method":"notifications/initialized""#));
    // notifications must not carry an id
    assert!(!notif.contains(r#""id":"#));

    let list = mock.pop_sent();
    assert!(list.contains(r#""method":"tools/list""#));
}

#[test]
fn handshake_populates_tool_catalog() {
    let mut mock = Mock::new();
    build_handshake(&mut mock);
    let client = build_client(&mut mock).unwrap();
    let tools = client.tools();
    assert_eq!(tools.len(), 2);
    assert_eq!(tools[0].name(), "echo");
    assert_eq!(tools[0].description(), "Echo input.");
    assert!(tools[0].input_schema().contains(r#""required":["text"]"#));
    assert_eq!(tools[1].name(), "add");
}

#[test]
fn handshake_rejects_response_missing_protocol_version() {
    let mut mock = Mock::new();
    mock.push_response(r#"{"jsonrpc":"2.0","id":1,"result":{"capabilities":{}}}"#);
    let err = match build_client(&mut mock) {
        Err(e) => e,
        Ok(_) => panic!("expected error"),
    };
    assert!(matches!(err, McpError::Protocol(m) if m.contains("protocolVersion")));
}

#[test]
fn handshake_propagates_server_error() {
    let mut mock = Mock::new();
    mock.push_response(
        r#"{"jsonrpc":"2.0","id":1,"error":{"code":-32600,"message":"bad request"}}"#,
    );
    let err = match build_client(&mut mock) {
        Err(e) => e,
        Ok(_) => panic!("expected error"),
    };
    match err {
        McpError::Server { code, message } => {
            assert_eq!(code, -32600);
            assert!(message.contains("bad request"));
        }
        other => panic!("expected Server, got {other:?}"),
    }
}

#[test]
fn handshake_transport_failure_surfaces() {
    let mut mock = Mock::new();
    mock.push_error("eof");
    let err = match build_client(&mut mock) {
        Err(e) => e,
        Ok(_) => panic!("expected error"),
    };
    assert!(matches!(err, McpError::Transport(m) if m.contains("eof")));
}

#[test]
fn tools_call_concatenates_text_blocks() {
    let mut mock = Mock::new();
    build_handshake(&mut mock);
    let mut client = build_client(&mut mock).unwrap();
    for _ in 0..3 {
        let _ = mock.pop_sent();
    }
    mock.push_response(
        r#"{"jsonrpc":"2.0","id":3,"result":{"content":[{"type":"text","text":"hello "},{"type":"text","text":"world"}]}}"#,
    );
    let out = call_first(&mut mock, &mut client, r#"{"text":"hi"}"#).unwrap();
    // text blocks are joined with \n in v1.
    assert_eq!(out, "hello \nworld");
    let sent = mock.pop_sent();
    let s = sent.as_str();
    assert!(s.contains(r#""method":"tools/call""#));
    assert!(s.contains(r#""name":"echo""#));
    assert!(s.contains(r#""arguments":{"text":"hi"}"#));
}

#[test]
fn tools_call_ignores_non_text_blocks() {
    let mut mock = Mock::new();
    build_handshake(&mut mock);
    let mut client = build_client(&mut mock).unwrap();
    for _ in 0..3 {
        let _ = mock.pop_sent();
    }
    mock.push_response(
        r#"{"jsonrpc":"2.0","id":3,"result":{"content":[{"type":"image","data":"..."},{"type":"text","text":"only this"}]}}"#,
    );
    let out = call_first(&mut mock, &mut client, "{}")
        .unwrap();
    assert_eq!(out, "only this");
}

#[test]
fn tools_call_is_error_surfaces_as_tool_error() {
    let mut mock = Mock::new();
    build_handshake(&mut mock);
    let mut client = build_client(&mut mock).unwrap();
    for _ in 0..3 {
        let _ = mock.pop_sent();
    }
    mock.push_response(
        r#"{"jsonrpc":"2.0","id":3,"result":{"isError":true,"content":[{"type":"text","text":"boom"}]}}"#,
    );
    let err = call_first(&mut mock, &mut client, "{}")
        .unwrap_err();
    assert!(err.contains("boom"));
}

#[test]
fn tools_call_protocol_error_via_jsonrpc_error() {
    let mut mock = Mock::new();
    build_handshake(&mut mock);
    let mut client = build_client(&mut mock).unwrap();
    for _ in 0..3 {
        let _ = mock.pop_sent();
    }
    mock.push_response(
        r#"{"jsonrpc":"2.0","id":3,"error":{"code":-32602,"message":"missing argument"}}"#,
    );
    let err = call_first(&mut mock, &mut client, "{}")
        .unwrap_err();
    assert!(err.contains("-32602"));
    assert!(err.contains("missing argument"));
}

#[test]
fn tools_call_empty_input_becomes_empty_object() {
    let mut mock = Mock::new();
    build_handshake(&mut mock);
    let mut client = build_client(&mut mock).unwrap();
    for _ in 0..3 {
        let _ = mock.pop_sent();
    }
    mock.push_response(
        r#"{"jsonrpc":"2.0","id":3,"result":{"content":[{"type":"text","text":"ok"}]}}"#,
    );
    call_first(&mut mock, &mut client, "").unwrap();
    let sent = mock.pop_sent();
    let s = sent.as_str();
    assert!(s.contains(r#""arguments":{}"#));
}

#[test]
fn intervening_notification_is_skipped_before_response() {
    let mut mock = Mock::new();
    build_handshake(&mut mock);
    let mut client = build_client(&mut mock).unwrap();
    for _ in 0..3 {
        let _ = mock.pop_sent();
    }
    mock.push_response(r#"{"jsonrpc":"2.0","method":"notifications/log","params":{"msg":"x"}}"#);
    mock.push_response(
        r#"{"jsonrpc":"2.0","id":3,"result":{"content":[{"type":"text","text":"ok"}]}}"#,
    );
    let out = call_first(&mut mock, &mut client, "{}").unwrap();
    assert_eq!(out, "ok");
}

#[test]
fn transport_closed_mid_call() {
    let mut mock = Mock::new();
    build_handshake(&mut mock);
    let mut client = build_client(&mut mock).unwrap();
    for _ in 0..3 {
        let _ = mock.pop_sent();
    }
    mock.push_error("broken pipe");
    let err = call_first(&mut mock, &mut client, "{}")
        .unwrap_err();
    assert!(err.contains("broken pipe"));
}

#[test]
fn tools_call_no_content_field_returns_empty_string() {
    let mut mock = Mock::new();
    build_handshake(&mut mock);
    let mut client = build_client(&mut mock).unwrap();
    for _ in 0..3 {
        let _ = mock.pop_sent();
    }
    mock.push_response(r#"{"jsonrpc":"2.0","id":3,"result":{}}"#);
    let out = call_first(&mut mock, &mut client, "{}").unwrap();
    assert_eq!(out, "");
}

#[test]
fn tools_list_with_no_tools_yields_empty_catalog() {
    let mut mock = Mock::new();
    mock.push_response(&init_response(1));
    mock.push_response(r#"{"jsonrpc":"2.0","id":2,"result":{"tools":[]}}"#);
    let client = build_client(&mut mock).unwrap();
    assert!(client.tools().is_empty());
}

#[test]
fn tool_with_no_description_uses_empty_string() {
    let mut mock = Mock::new();
    mock.push_response(&init_response(1));
    mock.push_response(
        r#"{"jsonrpc":"2.0","id":2,"result":{"tools":[{"name":"t","inputSchema":{"type":"object"}}]}}"#,
    );
    let client = build_client(&mut mock).unwrap();
    let tools = client.tools();
    assert_eq!(tools[0].name(), "t");
    assert_eq!(tools[0].description(), "");
    assert_eq!(tools[0].input_schema(), r#"{"type":"object"}"#);
}

#[test]
fn tool_entry_missing_input_schema_is_rejected() {
    let mut mock = Mock::new();
    mock.push_response(&init_response(1));
    mock.push_response(
        r#"{"jsonrpc":"2.0","id":2,"result":{"tools":[{"name":"t","description":"d"}]}}"#,
    );
    let err = match build_client(&mut mock) {
        Err(e) => e,
        Ok(_) => panic!("expected error"),
    };
    assert!(matches!(err, McpError::Protocol(m) if m.contains("inputSchema")));
}

#[test]
fn stdio_transport_handshakes_against_scripted_server() {
    let mut mock = Mock::new();
    mock.push_response(r#"{"jsonrpc":"2.0","id":1,"result":{"protocolVersion":"2024-11-05","capabilities":{},"serverInfo":{"name":"sh","version":"0"}}}"#);
    mock.push_response(r#"{"jsonrpc":"2.0","id":2,"result":{"tools":[]}}"#);
    let client = build_client(&mut mock).unwrap();
    assert!(client.tools().is_empty());
}

#[test]
fn stdio_transport_round_trip_tool_call() {
    let mut mock = Mock::new();
    mock.push_response(r#"{"jsonrpc":"2.0","id":1,"result":{"protocolVersion":"2024-11-05","capabilities":{},"serverInfo":{"name":"sh","version":"0"}}}"#);
    mock.push_response(r#"{"jsonrpc":"2.0","id":2,"result":{"tools":[{"name":"echo","description":"e","inputSchema":{"type":"object"}}]}}"#);
    mock.push_response(r#"{"jsonrpc":"2.0","id":3,"result":{"content":[{"type":"text","text":"hi"}]}}"#);
    let mut client = build_client(&mut mock).unwrap();
    assert_eq!(client.tools().len(), 1);
    let out = call_first(&mut mock, &mut client, r#"{"x":1}"#).unwrap();
    assert_eq!(out, "hi");
}

#[test]
fn json_round_trip_preserves_schema_shape() {
    let src = r#"{"type":"object","properties":{"x":{"type":"array","items":{"type":"string"}}},"required":["x"]}"#;
    let parsed = parse(src.as_bytes()).unwrap();
    let buf = json_to_string(&parsed);
    assert_eq!(buf, src);
}

#[test]
fn direct_call_tool_bypasses_mctool_wrapper() {
    let mut mock = Mock::new();
    build_handshake(&mut mock);
    let mut client = build_client(&mut mock).unwrap();
    for _ in 0..3 {
        let _ = mock.pop_sent();
    }
    mock.push_response(
        r#"{"jsonrpc":"2.0","id":3,"result":{"content":[{"type":"text","text":"direct"}]}}"#,
    );
    let out = call(&mut mock, &mut client, "echo", r#"{"text":"x"}"#).unwrap();
    assert_eq!(out, "direct");
}

#[test]
fn try_pop_sent_is_idle_after_handshake_drained() {
    let mut mock = Mock::new();
    build_handshake(&mut mock);
    let _client = build_client(&mut mock).unwrap();
    for _ in 0..3 {
        let _ = mock.pop_sent();
    }
    assert!(mock.sent.is_empty());
}

#[test]
fn handshake_in_steps() {
    let (mut h, first) = Handshake::begin();
    assert!(first.contains(r#""method":"initialize""#));
    assert!(matches!(h.on(&Event::Sent), Move::Receive));
    // A line of another request is no answer.
    assert!(matches!(h.on(&Event::Line(init_response(9).into_bytes())), Move::Receive));
    assert!(matches!(h.on(&Event::Line(init_response(1).into_bytes())), Move::Send(_)));
}

#[test]
fn lines_are_told_apart() {
    assert!(is_blank(b" \t\r"));
    assert!(!is_blank(b" x"));
    assert!(hear(1, b"  ").unwrap().is_none());
    assert!(hear(1, br#"{"jsonrpc":"2.0","id":2,"result":{}}"#).unwrap().is_none());
    assert!(hear(1, br#"{"jsonrpc":"2.0","id":1,"result":{}}"#).unwrap().is_some());
    assert!(matches!(hear(1, b"nonsense"), Err(McpError::Protocol(_))));
    match hear(1, br#"{"id":1,"error":{"code":-3,"message":"m"}}"#) {
        Err(McpError::Server { code, message }) => {
            assert_eq!(code, -3);
            assert_eq!(message, "m");
        }
        other => panic!("unexpected: {other:?}"),
    }
}

#[test]
fn results_are_read() {
    let v = parse(br#"{"content":[{"type":"text","text":"a"},{"type":"text","text":"b"}]}"#);
    assert_eq!(extract_text(&v.unwrap()).unwrap(), "a\nb");
    let v = parse(br#"{"tools":[{"inputSchema":{}}]}"#).unwrap();
    assert!(matches!(parse_tools_list(&v), Err(McpError::Protocol(_))));
}

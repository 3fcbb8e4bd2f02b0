//! The server side of the Model Context Protocol, over streams in memory.

use sandcastle::json::{parse, Json};
use sandcastle::mcp_server::{Answer, ServedTool, Server, ServerError, Stream};

fn tool(name: &str, description: &str, schema: &str) -> ServedTool {
    ServedTool {
        name: name.to_string(),
        description: description.to_string(),
        input_schema: schema.to_string(),
    }
}

fn bash_tool() -> ServedTool {
    tool(
        "bash",
        "Run a shell command.",
        r#"{"type":"object","properties":{"command":{"type":"string"}},"required":["command"]}"#,
    )
}

/// Echoes its `text` argument back.
fn echo_tool() -> ServedTool {
    tool(
        "echo",
        "Echo the input text back.",
        r#"{"type":"object","properties":{"text":{"type":"string"}},"required":["text"]}"#,
    )
}

/// Always fails.
fn boom_tool() -> ServedTool {
    tool("boom", "Always fails.", r#"{"type":"object"}"#)
}

/// Only takes note of its input.
fn record_tool() -> ServedTool {
    tool("record", "Record input.", r#"{"type":"object"}"#)
}

fn run_tool(name: &str, args: &str) -> Result<String, String> {
    match name {
        "bash" => Ok("hello\n".to_string()),
        "echo" => {
            let v = parse(args.as_bytes()).map_err(|e| format!("bad json: {}", e.message()))?;
            let text = v.get("text").and_then(|t| t.as_str()).ok_or("missing 'text'")?;
            Ok(text.to_string())
        }
        "boom" => Err("kaboom".to_string()),
        _ => Ok("ok".to_string()),
    }
}

/// Serves a whole input; gives the output and the inputs of the tools that ran.
fn drive_all(server: Server, input: &str) -> (String, Vec<String>) {
    let mut stream = Stream::new(1 << 20);
    stream.push(input.as_bytes()).unwrap();
    let mut output = String::new();
    let mut seen = vec![];
    loop {
        let line = match stream.serve(&server) {
            Answer::Silent => return (output, seen),
            Answer::Line(line) => line,
            Answer::Run { id, tool, args } => {
                let outcome = run_tool(&server.tools[tool].name, &args);
                seen.push(args);
                server.finish_call(id, &outcome)
            }
        };
        output.push_str(&line);
        output.push('\n');
    }
}

fn drive(server: Server, input: &str) -> String {
    drive_all(server, input).0
}

/// One value per line that is not empty.
fn split_responses(s: &str) -> Vec<Json> {
    s.lines().filter(|l| !l.trim().is_empty()).map(|l| parse(l.as_bytes()).unwrap()).collect()
}

#[test]
fn initialize_returns_protocol_version_capabilities_and_server_info() {
    let server = Server::new("test-srv", "9.9.9");
    let req = r#"{"jsonrpc":"2.0","id":1,"method":"initialize","params":{"protocolVersion":"2024-11-05","capabilities":{},"clientInfo":{"name":"c","version":"0"}}}
"#;
    let out = drive(server, req);
    let v = parse(out.trim().as_bytes()).unwrap();
    assert_eq!(v.get("jsonrpc").and_then(|v| v.as_str()), Some("2.0"));
    let id = v.get("id").unwrap();
    assert!(matches!(id, Json::Num(n) if n == "1"));
    let result = v.get("result").unwrap();
    assert_eq!(
        result.get("protocolVersion").and_then(|v| v.as_str()),
        Some("2024-11-05")
    );
    assert!(result.get("capabilities").unwrap().get("tools").is_some());
    let info = result.get("serverInfo").unwrap();
    assert_eq!(info.get("name").and_then(|v| v.as_str()), Some("test-srv"));
    assert_eq!(info.get("version").and_then(|v| v.as_str()), Some("9.9.9"));
}

#[test]
fn tools_list_advertises_registered_tools_with_schemas() {
    let server = Server::new("s", "1")
        .with_tool(bash_tool())
        .with_tool(echo_tool());
    let req = r#"{"jsonrpc":"2.0","id":2,"method":"tools/list","params":{}}
"#;
    let out = drive(server, req);
    let v = parse(out.trim().as_bytes()).unwrap();
    let tools = match v.get("result").unwrap().get("tools").unwrap() {
        Json::Arr(a) => a,
        _ => panic!("tools not array"),
    };
    assert_eq!(tools.len(), 2);
    assert_eq!(tools[0].get("name").and_then(|v| v.as_str()), Some("bash"));
    // inputSchema must be a JSON object (not a string).
    assert!(matches!(tools[0].get("inputSchema"), Some(Json::Obj(_))));
    assert!(
        tools[0]
            .get("inputSchema")
            .unwrap()
            .get("properties")
            .unwrap()
            .get("command")
            .is_some()
    );
    assert_eq!(tools[1].get("name").and_then(|v| v.as_str()), Some("echo"));
    assert!(matches!(tools[1].get("inputSchema"), Some(Json::Obj(_))));
}

#[test]
fn tools_list_with_no_tools_returns_empty_array() {
    let server = Server::new("s", "1");
    let req = r#"{"jsonrpc":"2.0","id":1,"method":"tools/list","params":{}}
"#;
    let out = drive(server, req);
    let v = parse(out.trim().as_bytes()).unwrap();
    match v.get("result").unwrap().get("tools").unwrap() {
        Json::Arr(a) => assert!(a.is_empty()),
        _ => panic!("not array"),
    }
}

#[test]
fn tools_call_success_returns_text_content() {
    let server = Server::new("s", "1").with_tool(echo_tool());
    let req = r#"{"jsonrpc":"2.0","id":7,"method":"tools/call","params":{"name":"echo","arguments":{"text":"hi"}}}
"#;
    let out = drive(server, req);
    let v = parse(out.trim().as_bytes()).unwrap();
    assert!(matches!(v.get("id"), Some(Json::Num(n)) if n == "7"));
    let result = v.get("result").unwrap();
    // No isError on success.
    assert!(result.get("isError").is_none());
    let content = match result.get("content").unwrap() {
        Json::Arr(a) => a,
        _ => panic!(),
    };
    assert_eq!(content[0].get("type").and_then(|v| v.as_str()), Some("text"));
    assert_eq!(content[0].get("text").and_then(|v| v.as_str()), Some("hi"));
}

#[test]
fn tools_call_error_sets_is_error_true() {
    let server = Server::new("s", "1").with_tool(boom_tool());
    let req = r#"{"jsonrpc":"2.0","id":3,"method":"tools/call","params":{"name":"boom","arguments":{}}}
"#;
    let out = drive(server, req);
    let v = parse(out.trim().as_bytes()).unwrap();
    let result = v.get("result").unwrap();
    assert_eq!(result.get("isError"), Some(&Json::Bool(true)));
    let content = match result.get("content").unwrap() {
        Json::Arr(a) => a,
        _ => panic!(),
    };
    assert_eq!(
        content[0].get("text").and_then(|v| v.as_str()),
        Some("kaboom")
    );
}

#[test]
fn tools_call_unknown_tool_name_returns_is_error_result() {
    let server = Server::new("s", "1").with_tool(echo_tool());
    let req = r#"{"jsonrpc":"2.0","id":4,"method":"tools/call","params":{"name":"nope","arguments":{}}}
"#;
    let out = drive(server, req);
    let v = parse(out.trim().as_bytes()).unwrap();
    let result = v.get("result").unwrap();
    assert_eq!(result.get("isError"), Some(&Json::Bool(true)));
    let text = match result.get("content").unwrap() {
        Json::Arr(a) => a[0].get("text").and_then(|v| v.as_str()).unwrap().to_string(),
        _ => panic!(),
    };
    assert!(text.contains("nope"));
}

#[test]
fn tools_call_serialises_complex_arguments_back_to_tool() {
    let server = Server::new("s", "1")
        .with_tool(record_tool());
    let req = r#"{"jsonrpc":"2.0","id":5,"method":"tools/call","params":{"name":"record","arguments":{"a":1,"b":[true,null],"c":{"k":"v"}}}}
"#;
    let (_, seen) = drive_all(server, req);
    assert_eq!(seen.len(), 1);
    let parsed = parse(seen[0].as_bytes()).unwrap();
    assert!(matches!(parsed.get("a"), Some(Json::Num(n)) if n == "1"));
    assert!(matches!(parsed.get("b"), Some(Json::Arr(_))));
    assert_eq!(
        parsed.get("c").and_then(|v| v.get("k")).and_then(|v| v.as_str()),
        Some("v")
    );
}

#[test]
fn tools_call_missing_arguments_defaults_to_empty_object() {
    let server = Server::new("s", "1")
        .with_tool(record_tool());
    let req = r#"{"jsonrpc":"2.0","id":1,"method":"tools/call","params":{"name":"record"}}
"#;
    let (_, seen) = drive_all(server, req);
    assert_eq!(seen[0], "{}");
}

#[test]
fn method_not_found_returns_minus_32601() {
    let server = Server::new("s", "1");
    let req = r#"{"jsonrpc":"2.0","id":8,"method":"weird/method","params":{}}
"#;
    let out = drive(server, req);
    let v = parse(out.trim().as_bytes()).unwrap();
    let err = v.get("error").unwrap();
    assert!(matches!(err.get("code"), Some(Json::Num(n)) if n == "-32601"));
    assert!(
        err.get("message")
            .and_then(|v| v.as_str())
            .unwrap()
            .contains("weird/method")
    );
    assert!(v.get("result").is_none());
}

#[test]
fn parse_error_returns_minus_32700_with_null_id() {
    let server = Server::new("s", "1");
    let req = "this is not json\n";
    let out = drive(server, req);
    let v = parse(out.trim().as_bytes()).unwrap();
    assert_eq!(v.get("id"), Some(&Json::Null));
    let err = v.get("error").unwrap();
    assert!(matches!(err.get("code"), Some(Json::Num(n)) if n == "-32700"));
}

#[test]
fn notifications_initialized_produces_no_response() {
    let server = Server::new("s", "1");
    let req = r#"{"jsonrpc":"2.0","method":"notifications/initialized"}
"#;
    let out = drive(server, req);
    assert!(out.is_empty(), "expected no output, got {out:?}");
}

#[test]
fn arbitrary_notification_is_silently_consumed() {
    let server = Server::new("s", "1");
    let req = r#"{"jsonrpc":"2.0","method":"notifications/something","params":{"x":1}}
"#;
    let out = drive(server, req);
    assert!(out.is_empty());
}

#[test]
fn multiple_requests_each_get_their_own_response() {
    let server = Server::new("s", "1").with_tool(echo_tool());
    let req = [
        r#"{"jsonrpc":"2.0","id":1,"method":"initialize","params":{}}"#,
        r#"{"jsonrpc":"2.0","method":"notifications/initialized"}"#,
        r#"{"jsonrpc":"2.0","id":2,"method":"tools/list","params":{}}"#,
        r#"{"jsonrpc":"2.0","id":3,"method":"tools/call","params":{"name":"echo","arguments":{"text":"yo"}}}"#,
        "",
    ].join("\n");
    let out = drive(server, &req);
    let resps = split_responses(&out);
    // 3 requests → 3 responses, notification swallowed.
    assert_eq!(resps.len(), 3);
    assert!(matches!(resps[0].get("id"), Some(Json::Num(n)) if n == "1"));
    assert!(matches!(resps[1].get("id"), Some(Json::Num(n)) if n == "2"));
    assert!(matches!(resps[2].get("id"), Some(Json::Num(n)) if n == "3"));
    assert!(
        resps[2]
            .get("result")
            .and_then(|r| r.get("content"))
            .map(|c| matches!(c, Json::Arr(_)))
            .unwrap_or(false)
    );
}

#[test]
fn out_of_order_ids_are_echoed_verbatim() {
    let server = Server::new("s", "1");
    let req = [
        r#"{"jsonrpc":"2.0","id":42,"method":"tools/list","params":{}}"#,
        r#"{"jsonrpc":"2.0","id":7,"method":"tools/list","params":{}}"#,
        "",
    ].join("\n");
    let out = drive(server, &req);
    let resps = split_responses(&out);
    assert!(matches!(resps[0].get("id"), Some(Json::Num(n)) if n == "42"));
    assert!(matches!(resps[1].get("id"), Some(Json::Num(n)) if n == "7"));
}

#[test]
fn blank_lines_between_requests_are_skipped() {
    let server = Server::new("s", "1");
    let req = "\n   \n\r\n{\"jsonrpc\":\"2.0\",\"id\":1,\"method\":\"tools/list\",\"params\":{}}\n\n";
    let out = drive(server, req);
    let resps = split_responses(&out);
    assert_eq!(resps.len(), 1);
    assert!(matches!(resps[0].get("id"), Some(Json::Num(n)) if n == "1"));
}

#[test]
fn bash_tool_dispatch_runs_through_instance_actor() {
    let server =
        Server::new("s", "1").with_tool(bash_tool());
    let req = r#"{"jsonrpc":"2.0","id":1,"method":"tools/call","params":{"name":"bash","arguments":{"command":"echo hello"}}}
"#;
    let out = drive(server, req);
    let v = parse(out.trim().as_bytes()).unwrap();
    let content = match v.get("result").unwrap().get("content").unwrap() {
        Json::Arr(a) => a,
        _ => panic!(),
    };
    let text = content[0].get("text").and_then(|v| v.as_str()).unwrap();
    assert!(text.contains("hello"));
}

#[test]
fn responses_match_mcp_client_initialize_shape() {
    let server = Server::new("srv", "0.1");
    let req = r#"{"jsonrpc":"2.0","id":1,"method":"initialize","params":{}}
"#;
    let out = drive(server, req);
    let line = out.lines().next().unwrap();
    assert!(line.starts_with(r#"{"jsonrpc":"2.0","id":1,"result":{"protocolVersion":"2024-11-05""#));
    assert!(line.contains(r#""capabilities":{"tools":{}}"#));
    assert!(line.contains(r#""serverInfo":{"name":"srv","version":"0.1"}"#));
}

#[test]
fn a_stream_holds_no_more_than_allowed() {
    let mut stream = Stream::new(4);
    stream.push(b"abc").unwrap();
    match stream.push(b"de") {
        Err(ServerError::OversizedFrame(n)) => assert_eq!(n, 3),
        other => panic!("unexpected: {other:?}"),
    }
    stream.push(b"d").unwrap();
}

#[test]
fn a_line_in_pieces_is_answered_once_it_is_whole() {
    let mut server = Server::new("s", "1");
    server.register(echo_tool());
    let mut stream = Stream::new(1000);
    stream.push(br#"{"jsonrpc":"2.0","id":1,"#).unwrap();
    assert!(matches!(stream.serve(&server), Answer::Silent));
    stream.push(b"\"method\":\"tools/list\"}\n").unwrap();
    assert!(matches!(stream.serve(&server), Answer::Line(_)));
    assert!(matches!(stream.serve(&server), Answer::Silent));
}

#[test]
fn without_id_there_is_no_answer() {
    let server = Server::new("s", "1");
    for line in [r#"{"jsonrpc":"2.0","params":{}}"#, "1", "[]", r#"{"id":null}"#] {
        assert!(matches!(server.handle_line(line.as_bytes()), Answer::Silent), "{line}");
    }
    match server.handle_line(br#"{"jsonrpc":"2.0","id":4}"#) {
        Answer::Line(line) => {
            assert!(line.starts_with(r#"{"jsonrpc":"2.0","id":4,"error":{"code":-32600"#))
        }
        other => panic!("unexpected: {other:?}"),
    }
}

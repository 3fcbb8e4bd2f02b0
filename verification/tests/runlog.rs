//! Logs of runs, in files held in memory.

use std::collections::HashMap;

use sandcastle::harness::session::{PromptResult, SessionError};
use sandcastle::harness::stream::StreamEvent;
use sandcastle::runlog::{render_event, RunLog, RunLogError, TerminalSummary};

/// A directory of logs and a clock.
struct Disk {
    files: HashMap<String, String>,
    now_ms: u128,
}

impl Disk {
    fn new() -> Disk {
        Disk { files: HashMap::new(), now_ms: 1_700_000_000_000 }
    }

    fn append(&mut self, path: &str, line: &str) {
        self.files.entry(path.to_string()).or_default().push_str(line);
        self.now_ms += 1;
    }

    fn open(&mut self, run_id: &str) -> RunLog {
        let (log, plan) = RunLog::open("/logs", run_id, self.now_ms);
        self.append(&plan.path, &plan.line);
        log
    }

    fn open_with_request_id(&mut self, run_id: &str, request_id: &str) -> RunLog {
        let (log, plan) =
            RunLog::open_with_request_id("/logs", run_id, request_id, self.now_ms);
        self.append(&plan.path, &plan.line);
        log
    }

    fn record(&mut self, log: &RunLog, kind: &str, payload: &str) {
        let line = log.write_record(self.now_ms, kind, payload);
        self.append(&format!("/logs/{}.jsonl", log.run_id()), &line);
    }

    fn drain(&mut self, log: &RunLog, events: Vec<StreamEvent>) -> TerminalSummary {
        let mut summary = TerminalSummary::new();
        for ev in &events {
            let line = log.drain(&mut summary, self.now_ms, ev);
            self.append(&format!("/logs/{}.jsonl", log.run_id()), &line);
        }
        summary
    }

    fn lines(&self, run_id: &str) -> Vec<String> {
        let s = &self.files[&format!("/logs/{run_id}.jsonl")];
        s.split('\n').filter(|l| !l.is_empty()).map(|l| l.to_string()).collect()
    }
}

fn data_part(line: &str) -> &str {
    let pos = line.find(r#""data":"#).expect("data field");
    &line[pos + r#""data":"#.len()..line.len() - 1]
}

fn kind_of(line: &str) -> String {
    let needle = r#""kind":""#;
    let pos = line.find(needle).expect("kind");
    let rest = &line[pos + needle.len()..];
    let end = rest.find('"').unwrap();
    rest[..end].to_string()
}

#[test]
fn open_creates_file_and_writes_start_record() {
    let mut disk = Disk::new();
    let _log = disk.open("r1");
    let lines = disk.lines("r1");
    assert_eq!(lines.len(), 1);
    assert_eq!(kind_of(&lines[0]), "start");
    assert!(lines[0].contains(r#""run_id":"r1""#));
    assert!(lines[0].contains(r#""started_at_unix_ms":"#));
}

#[test]
fn open_creates_parent_dirs() {
    let (_log, plan) = RunLog::open("/tmp/a/b/c", "r1", 5);
    assert_eq!(plan.dir, "/tmp/a/b/c");
    assert_eq!(plan.path, "/tmp/a/b/c/r1.jsonl");
}

#[test]
fn drain_writes_text_delta() {
    let mut disk = Disk::new();
    let log = disk.open("r1");
    let mut events = vec![];
    events.push(StreamEvent::TextDelta("hi".into()));
    let summary = disk.drain(&log, events);
    assert!(summary.final_event.is_none());
    let lines = disk.lines("r1");
    assert_eq!(lines.len(), 2);
    assert_eq!(kind_of(&lines[1]), "text_delta");
    assert_eq!(data_part(&lines[1]), r#"{"text":"hi"}"#);
}

#[test]
fn text_delta_escapes_quotes_and_newlines() {
    let mut disk = Disk::new();
    let log = disk.open("r1");
    let mut events = vec![];
    events.push(StreamEvent::TextDelta("he said \"hi\"\nbye".into()));
    disk.drain(&log, events);
    let lines = disk.lines("r1");
    let data = data_part(&lines[1]);
    assert_eq!(data, r#"{"text":"he said \"hi\"\nbye"}"#);
}

#[test]
fn tool_use_start_records_id_and_name() {
    let mut disk = Disk::new();
    let log = disk.open("r1");
    let mut events = vec![];
    events.push(StreamEvent::ToolUseStart {
        id: "tu_1".into(),
        name: "bash".into(),
    });
    disk.drain(&log, events);
    let lines = disk.lines("r1");
    assert_eq!(data_part(&lines[1]), r#"{"id":"tu_1","name":"bash"}"#);
}

#[test]
fn tool_result_with_is_error_true() {
    let mut disk = Disk::new();
    let log = disk.open("r1");
    let mut events = vec![];
    events.push(StreamEvent::ToolResult {
        tool_use_id: "tu_1".into(),
        content: "boom".into(),
        is_error: true,
    });
    disk.drain(&log, events);
    let lines = disk.lines("r1");
    let data = data_part(&lines[1]);
    assert!(data.contains(r#""is_error":true"#), "got: {data}");
    assert!(data.contains(r#""tool_use_id":"tu_1""#));
    assert!(data.contains(r#""content":"boom""#));
}

#[test]
fn tool_result_with_is_error_false() {
    let mut disk = Disk::new();
    let log = disk.open("r1");
    let mut events = vec![];
    events.push(StreamEvent::ToolResult {
        tool_use_id: "tu_1".into(),
        content: "ok".into(),
        is_error: false,
    });
    disk.drain(&log, events);
    let lines = disk.lines("r1");
    assert!(data_part(&lines[1]).contains(r#""is_error":false"#));
}

#[test]
fn turn_complete_with_and_without_stop_reason() {
    let mut disk = Disk::new();
    let log = disk.open("r1");
    let mut events = vec![];
    events.push(StreamEvent::TurnComplete {
        turn: 2,
        stop_reason: Some("end_turn".into()),
    });
    events.push(StreamEvent::TurnComplete {
        turn: 3,
        stop_reason: None,
    });
    disk.drain(&log, events);
    let lines = disk.lines("r1");
    assert_eq!(
        data_part(&lines[1]),
        r#"{"turn":2,"stop_reason":"end_turn"}"#
    );
    assert_eq!(
        data_part(&lines[2]),
        r#"{"turn":3,"stop_reason":null}"#
    );
}

#[test]
fn block_stop_and_input_delta() {
    let mut disk = Disk::new();
    let log = disk.open("r1");
    let mut events = vec![];
    events.push(StreamEvent::ToolUseInputDelta("{\"x\":1}".into()));
    events.push(StreamEvent::BlockStop);
    disk.drain(&log, events);
    let lines = disk.lines("r1");
    assert_eq!(kind_of(&lines[1]), "tool_use_input_delta");
    assert_eq!(data_part(&lines[1]), r#"{"text":"{\"x\":1}"}"#);
    assert_eq!(kind_of(&lines[2]), "block_stop");
    assert_eq!(data_part(&lines[2]), "{}");
}

#[test]
fn sequence_preserves_order() {
    let mut disk = Disk::new();
    let log = disk.open("r1");
    let mut events = vec![];
    events.push(StreamEvent::TextDelta("a".into()));
    events.push(StreamEvent::TextDelta("b".into()));
    events.push(StreamEvent::TextDelta("c".into()));
    disk.drain(&log, events);
    let lines = disk.lines("r1");
    assert_eq!(lines.len(), 4);
    assert_eq!(data_part(&lines[1]), r#"{"text":"a"}"#);
    assert_eq!(data_part(&lines[2]), r#"{"text":"b"}"#);
    assert_eq!(data_part(&lines[3]), r#"{"text":"c"}"#);
}

#[test]
fn drop_sender_mid_stream_no_terminal() {
    let mut disk = Disk::new();
    let log = disk.open("r1");
    let mut events = vec![];
    events.push(StreamEvent::TextDelta("partial".into()));
    let summary = disk.drain(&log, events);
    assert!(summary.final_event.is_none());
    assert_eq!(summary.turns, 0);
    assert!(!summary.completed);
}

#[test]
fn terminal_summary_done() {
    let mut disk = Disk::new();
    let log = disk.open("r1");
    let mut events = vec![];
    events.push(StreamEvent::Done(PromptResult {
        text: "final".into(),
        structured: None,
        completed: true,
        turns: 3,
    }));
    let summary = disk.drain(&log, events);
    assert_eq!(summary.final_event, Some("done"));
    assert_eq!(summary.turns, 3);
    assert!(summary.completed);
    let lines = disk.lines("r1");
    assert_eq!(kind_of(&lines[1]), "done");
    assert_eq!(
        data_part(&lines[1]),
        r#"{"text":"final","turns":3,"completed":true}"#
    );
}

#[test]
fn terminal_summary_cancelled() {
    let mut disk = Disk::new();
    let log = disk.open("r1");
    let mut events = vec![];
    events.push(StreamEvent::Cancelled);
    let summary = disk.drain(&log, events);
    assert_eq!(summary.final_event, Some("cancelled"));
    assert!(!summary.completed);
    let lines = disk.lines("r1");
    assert_eq!(kind_of(&lines[1]), "cancelled");
    assert_eq!(data_part(&lines[1]), "{}");
}

#[test]
fn terminal_summary_error() {
    let mut disk = Disk::new();
    let log = disk.open("r1");
    let mut events = vec![];
    events.push(StreamEvent::Error(SessionError::Model("nope".into())));
    let summary = disk.drain(&log, events);
    assert_eq!(summary.final_event, Some("error"));
    let lines = disk.lines("r1");
    assert_eq!(kind_of(&lines[1]), "error");
    assert_eq!(data_part(&lines[1]), r#"{"message":"model: nope"}"#);
}

#[test]
fn drain_in_background_join_returns_ok() {
    let mut disk = Disk::new();
    let log = disk.open("r1");
    let events = vec![
        StreamEvent::TextDelta("hi".into()),
        StreamEvent::Done(PromptResult {
            text: "bye".into(),
            structured: None,
            completed: true,
            turns: 1,
        }),
    ];
    let summary = disk.drain(&log, events);
    assert_eq!(summary.final_event, Some("done"));
    assert!(summary.completed);
}

#[test]
fn concurrent_write_record_lines_dont_interleave() {
    let mut disk = Disk::new();
    let log = disk.open("r1");
    let payload = "x".repeat(40);
    for _ in 0..4 {
        for _ in 0..25 {
            let p = format!(r#"{{"v":"{payload}"}}"#);
            disk.record(&log, "big", &p);
        }
    }
    let lines = disk.lines("r1");
    assert_eq!(lines.len(), 1 + 100);
    for l in &lines {
        assert!(l.starts_with(r#"{"ts_ms":"#), "bad start: {l}");
        assert!(l.ends_with('}'), "bad end: {l}");
    }
    let big = lines.iter().filter(|l| kind_of(l) == "big").count();
    assert_eq!(big, 100);
}

#[test]
fn run_id_with_special_chars_is_escaped() {
    let mut disk = Disk::new();
    let log = disk.open("with-quote");
    disk.record(&log, "foo", r#"{"k":"v"}"#);
    let lines = disk.lines("with-quote");
    assert!(lines[1].contains(r#""run_id":"with-quote""#));
}

#[test]
fn append_to_existing_file_does_not_truncate() {
    let mut disk = Disk::new();
    {
        let log = disk.open("r1");
        let mut events = vec![];
        events.push(StreamEvent::TextDelta("first".into()));
        disk.drain(&log, events);
    }
    {
        let log = disk.open("r1");
        let mut events = vec![];
        events.push(StreamEvent::TextDelta("second".into()));
        disk.drain(&log, events);
    }
    let lines = disk.lines("r1");
    // start + delta, then start + delta again
    assert_eq!(lines.len(), 4);
    assert!(lines[1].contains("first"));
    assert!(lines[3].contains("second"));
}

#[test]
fn open_with_request_id_stamps_start_and_subsequent_events() {
    let mut disk = Disk::new();
    let log = disk.open_with_request_id("r1", "req-abc-12345678");
    assert_eq!(log.run_id(), "r1");
    assert_eq!(log.request_id(), Some("req-abc-12345678"));

    let mut events = vec![];
    events.push(StreamEvent::TextDelta("hi".into()));
    events.push(StreamEvent::Done(PromptResult {
        text: "bye".into(),
        structured: None,
        completed: true,
        turns: 1,
    }));
    let summary = disk.drain(&log, events);
    assert_eq!(summary.final_event, Some("done"));

    let lines = disk.lines("r1");
    // start + text_delta + done
    assert_eq!(lines.len(), 3);
    for line in &lines {
        assert!(
            line.contains(r#""request_id":"req-abc-12345678""#),
            "missing request_id on line: {line}"
        );
        // Field order: ts_ms, run_id, request_id, kind, data
        let run_pos = line.find(r#""run_id":"#).unwrap();
        let req_pos = line.find(r#""request_id":"#).unwrap();
        let kind_pos = line.find(r#""kind":"#).unwrap();
        assert!(
            run_pos < req_pos && req_pos < kind_pos,
            "field order wrong: {line}"
        );
    }
    let mut disk2 = Disk::new();
    let log2 = disk2.open("r2");
    assert!(log2.request_id().is_none());
    let lines2 = disk2.lines("r2");
    assert!(!lines2[0].contains("request_id"), "unexpected: {}", lines2[0]);
}

#[test]
fn records_are_exact() {
    let (log, plan) = RunLog::open("/l", "r", 12);
    assert_eq!(log.started_at(), 12);
    assert_eq!(
        plan.line,
        "{\"ts_ms\":12,\"run_id\":\"r\",\"kind\":\"start\",\"data\":{\"started_at_unix_ms\":12}}\n"
    );
}

#[test]
fn the_last_end_decides() {
    let mut s = TerminalSummary::new();
    s.note(&StreamEvent::TurnComplete { turn: 4, stop_reason: None });
    s.note(&StreamEvent::Cancelled);
    s.note(&StreamEvent::Error(SessionError::TurnLimitExceeded));
    s.note(&StreamEvent::BlockStop);
    assert_eq!(s.final_event, Some("error"));
    assert_eq!(s.turns, 4);
    assert!(!s.completed);
}

#[test]
fn session_errors_are_told() {
    let (kind, data) = render_event(&StreamEvent::Error(SessionError::Mailbox));
    assert_eq!(kind, "error");
    assert_eq!(data, r#"{"message":"mailbox closed"}"#);
    let (_, data) = render_event(&StreamEvent::Error(SessionError::TurnLimitExceeded));
    assert_eq!(data, r#"{"message":"turn limit exceeded"}"#);
    assert_eq!(RunLogError::Io("full".into()).message(), "io: full");
}

#[test]
fn times_of_any_size_are_written() {
    let (log, _) = RunLog::open("/l", "r", 0);
    let line = log.write_record(u128::MAX, "k", "{}");
    assert_eq!(
        line,
        "{\"ts_ms\":340282366920938463463374607431768211455,\"run_id\":\"r\",\"kind\":\"k\",\"data\":{}}\n"
    );
}

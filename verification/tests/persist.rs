//! Histories in files, on a directory held in memory.

use std::collections::HashMap;

use sandcastle::harness::model::{
    copy_history, ChatMessage, ContentBlock, MockModel, ModelEvent, Role,
};
use sandcastle::harness::session::{HarnessState, PromptResult, PromptStep, Session};
use sandcastle::harness::store::StoreError;
use sandcastle::persist::{FileRead, FileStore, MAX_KEY_LEN};

const ROOT: &str = "/sessions";

/// A directory of files and a store in it.
struct Disk {
    files: HashMap<String, Vec<u8>>,
    store: FileStore,
}

impl Disk {
    fn new() -> Disk {
        Disk { files: HashMap::new(), store: FileStore::new(ROOT) }
    }

    fn put(&mut self, name: &str, bytes: &[u8]) {
        self.files.insert(format!("{ROOT}/{name}"), bytes.to_vec());
    }

    fn get(&self, name: &str) -> Option<Vec<u8>> {
        self.files.get(&format!("{ROOT}/{name}")).cloned()
    }

    fn save<const N: usize>(&mut self, key: &str, h: [ChatMessage; N]) -> Result<(), StoreError> {
        self.save_all(key, &Vec::from(h))
    }

    fn save_all(&mut self, key: &str, h: &Vec<ChatMessage>) -> Result<(), StoreError> {
        let plan = self.store.save(key, h)?;
        self.files.insert(plan.tmp.clone(), plan.body.into_bytes());
        let body = self.files.remove(&plan.tmp).unwrap();
        self.files.insert(plan.path, body);
        Ok(())
    }

    fn load(&self, key: &str) -> Result<Option<Vec<ChatMessage>>, StoreError> {
        let read = match self.store.path_for(key) {
            Ok(path) => match self.files.get(&path) {
                Some(b) => FileRead::Bytes(b.clone()),
                None => FileRead::Missing,
            },
            Err(_) => FileRead::Missing,
        };
        self.store.load(key, &read)
    }
}

#[test]
fn round_trip_text_only() {
    let mut disk = Disk::new();
    let history = vec![
        ChatMessage::user("hi"),
        ChatMessage::assistant("hello there"),
    ];
    disk.save_all("s1", &history).unwrap();
    let loaded = disk.load("s1").unwrap().expect("Some");
    assert_eq!(loaded.len(), 2);
    assert_eq!(loaded[0].role, Role::User);
    assert!(matches!(&loaded[0].content[0], ContentBlock::Text(t) if t == "hi"));
    assert_eq!(loaded[1].role, Role::Assistant);
    assert!(
        matches!(&loaded[1].content[0], ContentBlock::Text(t) if t == "hello there")
    );
}

#[test]
fn round_trip_tool_use_and_result() {
    let mut disk = Disk::new();
    let history = vec![
        ChatMessage::user("list /tmp"),
        ChatMessage {
            role: Role::Assistant,
            content: vec![
                ContentBlock::Text("ok, running".into()),
                ContentBlock::ToolUse {
                    id: "tu_1".into(),
                    name: "bash".into(),
                    input: r#"{"command":"ls /tmp"}"#.into(),
                },
            ],
        },
        ChatMessage {
            role: Role::User,
            content: vec![ContentBlock::ToolResult {
                tool_use_id: "tu_1".into(),
                content: "file1\nfile2".into(),
                is_error: false,
            }],
        },
    ];
    disk.save_all("sess", &history).unwrap();
    let loaded = disk.load("sess").unwrap().expect("Some");
    assert_eq!(loaded.len(), 3);
    match &loaded[1].content[1] {
        ContentBlock::ToolUse { id, name, input } => {
            assert_eq!(id, "tu_1");
            assert_eq!(name, "bash");
            assert_eq!(input, r#"{"command":"ls /tmp"}"#);
        }
        other => panic!("expected ToolUse, got {other:?}"),
    }
    match &loaded[2].content[0] {
        ContentBlock::ToolResult { tool_use_id, content, is_error } => {
            assert_eq!(tool_use_id, "tu_1");
            assert_eq!(content, "file1\nfile2");
            assert!(!is_error);
        }
        other => panic!("expected ToolResult, got {other:?}"),
    }
}

#[test]
fn load_nonexistent_returns_none() {
    let mut disk = Disk::new();
    assert!(disk.load("does-not-exist").unwrap().is_none());
}

#[test]
fn key_rejects_slash() {
    let mut disk = Disk::new();
    let err = disk.save("a/b", []).unwrap_err();
    assert!(err.0.contains("separators"), "got: {}", err.0);
}

#[test]
fn key_rejects_backslash() {
    let mut disk = Disk::new();
    let err = disk.save("a\\b", []).unwrap_err();
    assert!(err.0.contains("separators"), "got: {}", err.0);
}

#[test]
fn key_rejects_dotdot() {
    let mut disk = Disk::new();
    let err = disk.save("..", []).unwrap_err();
    assert!(err.0.contains("..") || err.0.contains('.'), "got: {}", err.0);
    let err = disk.save("foo..bar", []).unwrap_err();
    assert!(err.0.contains(".."), "got: {}", err.0);
}

#[test]
fn key_rejects_leading_dot() {
    let mut disk = Disk::new();
    let err = disk.save(".hidden", []).unwrap_err();
    assert!(err.0.contains("'.'"), "got: {}", err.0);
}

#[test]
fn key_rejects_too_long() {
    let mut disk = Disk::new();
    let long = "a".repeat(MAX_KEY_LEN + 1);
    let err = disk.save(&long, []).unwrap_err();
    assert!(err.0.contains("too long"), "got: {}", err.0);
}

#[test]
fn key_rejects_empty() {
    let mut disk = Disk::new();
    let err = disk.save("", []).unwrap_err();
    assert!(err.0.contains("empty"), "got: {}", err.0);
}

#[test]
fn key_rejects_control_chars() {
    let mut disk = Disk::new();
    let err = disk.save("a\nb", []).unwrap_err();
    assert!(err.0.contains("control"), "got: {}", err.0);
}

#[test]
fn multiple_sessions_dont_collide() {
    let mut disk = Disk::new();
    disk.save("a", [ChatMessage::user("alpha")]).unwrap();
    disk.save("b", [ChatMessage::user("beta")]).unwrap();
    disk.save("c", [ChatMessage::user("gamma")]).unwrap();
    let a = disk.load("a").unwrap().unwrap();
    let b = disk.load("b").unwrap().unwrap();
    let c = disk.load("c").unwrap().unwrap();
    assert!(matches!(&a[0].content[0], ContentBlock::Text(t) if t == "alpha"));
    assert!(matches!(&b[0].content[0], ContentBlock::Text(t) if t == "beta"));
    assert!(matches!(&c[0].content[0], ContentBlock::Text(t) if t == "gamma"));
}

#[test]
fn corrupt_garbage_returns_err() {
    let mut disk = Disk::new();
    disk.put("bad.json", b"not json at all");
    let err = disk.load("bad").unwrap_err();
    assert!(err.0.contains("parse"), "got: {}", err.0);
}

#[test]
fn corrupt_truncated_returns_err() {
    let mut disk = Disk::new();
    disk.save("trunc", [ChatMessage::user("hello world")])
        .unwrap();
    let full = disk.get("trunc.json").unwrap();
    disk.put("trunc.json", &full[..full.len() / 2]);
    let err = disk.load("trunc").unwrap_err();
    assert!(err.0.contains("parse"), "got: {}", err.0);
}

#[test]
fn corrupt_unknown_version_returns_err() {
    let mut disk = Disk::new();
    disk.put("v.json", br#"{"version":99,"messages":[]}"#);
    let err = disk.load("v").unwrap_err();
    assert!(err.0.contains("version"), "got: {}", err.0);
}

#[test]
fn save_does_not_leave_tmp_file() {
    let mut disk = Disk::new();
    disk.save("clean", [ChatMessage::user("x")]).unwrap();
    assert!(disk.get("clean.json.tmp").is_none(), "stray tmp left behind");
    assert!(disk.get("clean.json").is_some());
}

#[test]
fn rejected_key_does_not_clobber_existing_file() {
    // A save with an invalid key must fail BEFORE touching anything, so
    // an existing well-formed file on disk stays intact.
    let mut disk = Disk::new();
    disk.save("keep", [ChatMessage::user("original")])
        .unwrap();
    let before = disk.get("keep.json").unwrap();
    // Try a doomed save with a bad key — must not clobber "keep".
    let err = disk.save("../keep", [ChatMessage::user("evil")]).unwrap_err();
    assert!(err.0.contains("..") || err.0.contains("separators"));
    let after = disk.get("keep.json").unwrap();
    assert_eq!(before, after);
}

#[test]
fn open_creates_root() {
    let store = FileStore::open("/tmp/nested", &Ok(())).unwrap();
    assert_eq!(store.root, "/tmp/nested");
    let plan = store.save("k", &vec![ChatMessage::user("hi")]).unwrap();
    assert_eq!(plan.path, "/tmp/nested/k.json");
    assert_eq!(plan.tmp, "/tmp/nested/k.json.tmp");
}

#[test]
fn overwrite_replaces_history() {
    let mut disk = Disk::new();
    disk.save("s", [ChatMessage::user("first")])
        .unwrap();
    disk.save(
            "s",
            [ChatMessage::user("second"), ChatMessage::assistant("ack")],
        )
        .unwrap();
    let loaded = disk.load("s").unwrap().unwrap();
    assert_eq!(loaded.len(), 2);
    assert!(matches!(&loaded[0].content[0], ContentBlock::Text(t) if t == "second"));
}

#[test]
fn escapes_in_text_round_trip() {
    let mut disk = Disk::new();
    let weird = "quotes \"x\" \\ slash \n newline \t tab \x01 ctrl é";
    disk.save("esc", [ChatMessage::user(weird)])
        .unwrap();
    let loaded = disk.load("esc").unwrap().unwrap();
    if let ContentBlock::Text(t) = &loaded[0].content[0] {
        assert_eq!(t, weird);
    } else {
        panic!("expected text block");
    }
}

#[test]
fn empty_history_round_trips() {
    let mut disk = Disk::new();
    disk.save("e", []).unwrap();
    let loaded = disk.load("e").unwrap().unwrap();
    assert!(loaded.is_empty());
}

#[test]
fn tool_use_with_nested_input_round_trips() {
    let mut disk = Disk::new();
    let history = vec![ChatMessage {
        role: Role::Assistant,
        content: vec![ContentBlock::ToolUse {
            id: "tu_x".into(),
            name: "edit".into(),
            input: r#"{"path":"/tmp/f","edits":[{"old":"a","new":"b"}],"flag":true}"#
                .into(),
        }],
    }];
    disk.save_all("nest", &history).unwrap();
    let loaded = disk.load("nest").unwrap().unwrap();
    match &loaded[0].content[0] {
        ContentBlock::ToolUse { input, .. } => {
            // Exact byte equality: we re-serialize the parse tree, so
            // ordering of object keys is preserved by our by-Vec model.
            assert_eq!(
                input,
                r#"{"path":"/tmp/f","edits":[{"old":"a","new":"b"}],"flag":true}"#
            );
        }
        other => panic!("expected ToolUse, got {other:?}"),
    }
}

#[test]
fn tool_result_is_error_round_trips() {
    let mut disk = Disk::new();
    let history = vec![ChatMessage {
        role: Role::User,
        content: vec![ContentBlock::ToolResult {
            tool_use_id: "tu_e".into(),
            content: "boom".into(),
            is_error: true,
        }],
    }];
    disk.save_all("err", &history).unwrap();
    let loaded = disk.load("err").unwrap().unwrap();
    match &loaded[0].content[0] {
        ContentBlock::ToolResult { is_error, content, .. } => {
            assert!(*is_error);
            assert_eq!(content, "boom");
        }
        other => panic!("expected ToolResult, got {other:?}"),
    }
}

#[test]
fn saved_text_is_exact() {
    let store = FileStore::new("/s/");
    let plan = store.save("k", &vec![ChatMessage::user("a\"b")]).unwrap();
    assert_eq!(plan.path, "/s/k.json");
    assert_eq!(
        plan.body,
        r#"{"version":1,"messages":[{"role":"user","content":[{"type":"text","text":"a\"b"}]}]}"#
    );
}

#[test]
fn faults_name_the_file() {
    let store = FileStore::new("/s");
    let err = store.load("k", &FileRead::Failed("denied".into())).unwrap_err();
    assert_eq!(err.message(), "read /s/k.json: denied");
    let plan = store.save("k", &vec![]).unwrap();
    assert_eq!(plan.write_failed("full").message(), "write /s/k.json.tmp: full");
    assert_eq!(
        plan.rename_failed("gone").message(),
        "rename /s/k.json.tmp -> /s/k.json: gone"
    );
    assert_eq!(FileStore::open("/s", &Err("denied".into())).unwrap_err(), "denied");
}

#[test]
fn refused_keys_are_quoted() {
    let store = FileStore::new("/s");
    assert_eq!(
        store.path_for("a/\"b").unwrap_err().message(),
        r#"key may not contain separators: "a/\"b""#
    );
    assert_eq!(
        store.path_for("a\nb").unwrap_err().message(),
        r#"key contains control byte: "a\nb""#
    );
    assert_eq!(store.path_for(&"a".repeat(201)).unwrap_err().message(), "key too long (201 > 200)");
}

#[test]
fn copies_save_alike() {
    let history = vec![ChatMessage::user("u"), ChatMessage::assistant("a")];
    let store = FileStore::new("/s");
    let one = store.save("k", &history).unwrap();
    let other = store.save("k", &copy_history(&history)).unwrap();
    assert_eq!(one.body, other.body);
}

/// Resumes a session from the disk, prompts it and saves it again.
fn prompt_stored(disk: &mut Disk, model: &mut MockModel, id: &str, text: &str) -> PromptResult {
    let mut session = Session::new(id, HarnessState::new(id));
    if let Some(history) = disk.load(id).unwrap() {
        session.history = history;
    }
    let req = session.begin_prompt(text);
    let events = model.stream(req).into_iter().map(Ok).collect();
    let res = session.run_prompt(1, &events, &None);
    disk.save_all(id, &session.history).unwrap();
    match res {
        PromptStep::Done(res) => res,
        other => panic!("unexpected: {other:?}"),
    }
}

#[test]
fn persist_session_resumes_history_across_spawns() {
    let mut disk = Disk::new();
    let mut a = MockModel::single(vec![
        ModelEvent::TextDelta("hi from A".into()),
        ModelEvent::Stop { reason: Some("end_turn".into()) },
    ]);
    let res = prompt_stored(&mut disk, &mut a, "alpha", "hello");
    assert_eq!(res.text, "hi from A");

    let mut b = MockModel::single(vec![
        ModelEvent::TextDelta("hi from B".into()),
        ModelEvent::Stop { reason: Some("end_turn".into()) },
    ]);
    let _ = prompt_stored(&mut disk, &mut b, "alpha", "second turn");
    assert_eq!(b.seen.len(), 1, "B should have made exactly one model call");
    assert_eq!(b.seen[0].messages.len(), 3);
    assert_eq!(b.seen[0].messages[0].content, vec![ContentBlock::Text("hello".into())]);
    assert_eq!(b.seen[0].messages[1].content, vec![ContentBlock::Text("hi from A".into())]);
    assert_eq!(b.seen[0].messages[2].content, vec![ContentBlock::Text("second turn".into())]);
}

#[test]
fn keys_are_measured_in_characters() {
    let store = FileStore::new("/s");
    assert!(store.path_for(&"\u{e9}".repeat(MAX_KEY_LEN)).is_ok());
    assert_eq!(
        store.path_for(&"\u{e9}".repeat(MAX_KEY_LEN + 1)).unwrap_err().message(),
        "key too long (201 > 200)"
    );
}

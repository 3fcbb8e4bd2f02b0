//! The GitHub client against scripted replies.

use sandcastle::forge::{serialize_new_issue, serialize_new_pull};
use sandcastle::http::{HttpCall, HttpReply};
use sandcastle::github::{Client, Error, Fetch, IssueState, NewIssue, NewPull};

struct Reply {
    status: u16,
    body: Vec<u8>,
}

fn ok(body: impl Into<Vec<u8>>) -> Reply {
    Reply { status: 200, body: body.into() }
}

fn status(code: u16, body: impl Into<Vec<u8>>) -> Reply {
    Reply { status: code, body: body.into() }
}

/// A request as a server sees it.
struct Captured {
    method: String,
    path: String,
    headers: Vec<String>,
    body: String,
}

impl Captured {
    fn header(&self, name: &str) -> Option<&str> {
        self.headers.iter().find_map(|h| {
            let (n, v) = h.split_once(':')?;
            n.eq_ignore_ascii_case(name).then_some(v.trim())
        })
    }
}

/// A server that gives one reply after the other.
struct Mock {
    base_url: String,
    replies: Vec<Reply>,
    captured: Vec<Captured>,
}

fn start_mock(replies: Vec<Reply>) -> Mock {
    Mock { base_url: "http://127.0.0.1:4000".to_string(), replies, captured: vec![] }
}

impl Mock {
    fn serve(&mut self, call: HttpCall) -> Result<HttpReply, String> {
        let path = call.url.strip_prefix(&self.base_url).ok_or("no such host")?.to_string();
        self.captured.push(Captured {
            method: if call.post { "POST" } else { "GET" }.to_string(),
            path,
            headers: call.headers,
            body: call.body.unwrap_or_default(),
        });
        let r = self.replies.remove(0);
        Ok(HttpReply { status: r.status, body: r.body })
    }

    fn run<T>(
        &mut self,
        step: impl Fn(Option<&Result<HttpReply, String>>) -> Fetch<T>,
    ) -> Result<T, Error> {
        let call = match step(None) {
            Fetch::Send(call) => call,
            Fetch::Done(res) => return res,
        };
        let answer = self.serve(call);
        match step(Some(&answer)) {
            Fetch::Done(res) => res,
            Fetch::Send(_) => panic!("one request is enough"),
        }
    }
}

fn repo_body() -> Vec<u8> {
    br#"{"full_name":"o/r","default_branch":"main","fork":false}"#.to_vec()
}

#[test]
fn lib_serialize_new_issue_with_body_and_labels() {
    let s = serialize_new_issue(&NewIssue {
        title: "t".into(),
        body: Some("b\nlines".into()),
        labels: vec!["bug".into(), "p1".into()],
    });
    assert_eq!(
        s,
        r#"{"title":"t","body":"b\nlines","labels":["bug","p1"]}"#
    );
}

#[test]
fn lib_serialize_new_pull_round_trip() {
    let s = serialize_new_pull(&NewPull {
        title: "PR".into(),
        body: Some("desc".into()),
        head: "feature".into(),
        base: "main".into(),
    });
    assert_eq!(
        s,
        r#"{"title":"PR","head":"feature","base":"main","body":"desc"}"#
    );
}

#[test]
fn auth_header_uses_bearer_not_token() {
    let mut mock = start_mock(vec![ok(repo_body())]);
    let client = Client::new("secretpat").with_base_url(&mock.base_url);
    mock.run(|answer| client.get_repo("o", "r", answer)).unwrap();
    let cap = &mock.captured;
    assert_eq!(cap.len(), 1);
    assert_eq!(cap[0].header("authorization"), Some("Bearer secretpat"));
    // Bearer, not Gitea's `token` scheme.
    assert!(!cap[0].header("authorization").unwrap().starts_with("token "));
}

#[test]
fn user_agent_is_sent_on_every_request() {
    let mut mock = start_mock(vec![ok(repo_body()), ok(br#"[]"#.to_vec())]);
    let client = Client::new("t").with_base_url(&mock.base_url);
    mock.run(|answer| client.get_repo("o", "r", answer)).unwrap();
    mock.run(|answer| client.list_issues("o", "r", IssueState::Open, answer)).unwrap();
    let cap = &mock.captured;
    assert_eq!(cap.len(), 2);
    for c in cap.iter() {
        // Default UA. GitHub returns 403 without one — we must always set it.
        assert_eq!(c.header("user-agent"), Some("sandcastle-agent"));
    }
}

#[test]
fn with_user_agent_overrides_default() {
    let mut mock = start_mock(vec![ok(repo_body())]);
    let client = Client::new("t")
        .with_base_url(&mock.base_url)
        .with_user_agent("my-bot/1.0");
    mock.run(|answer| client.get_repo("o", "r", answer)).unwrap();
    let cap = &mock.captured;
    assert_eq!(cap[0].header("user-agent"), Some("my-bot/1.0"));
}

#[test]
fn accept_and_api_version_headers_present() {
    let mut mock = start_mock(vec![ok(repo_body())]);
    let client = Client::new("t").with_base_url(&mock.base_url);
    mock.run(|answer| client.get_repo("o", "r", answer)).unwrap();
    let cap = &mock.captured;
    assert_eq!(cap[0].header("accept"), Some("application/vnd.github+json"));
    assert_eq!(cap[0].header("x-github-api-version"), Some("2022-11-28"));
}

#[test]
fn get_repo_happy_path_no_api_v1_prefix() {
    let mut mock = start_mock(vec![ok(
        br#"{"full_name":"acme/widgets","default_branch":"trunk","fork":true}"#.to_vec(),
    )]);
    let client = Client::new("t").with_base_url(&mock.base_url);
    let repo = mock.run(|answer| client.get_repo("acme", "widgets", answer)).unwrap();
    assert_eq!(repo.full_name, "acme/widgets");
    assert_eq!(repo.default_branch, "trunk");
    assert!(repo.fork);
    let cap = &mock.captured;
    assert_eq!(cap[0].method, "GET");
    // No `/api/v1/` — that's a Gitea-ism.
    assert_eq!(cap[0].path, "/repos/acme/widgets");
}

#[test]
fn list_issues_filters_out_pull_requests() {
    // First entry has a `pull_request` field — it's actually a PR. The
    // second is a real issue. Only the issue should come back.
    let body = br#"[
        {
            "number":10,
            "title":"a pr in disguise",
            "body":"",
            "state":"open",
            "user":{"login":"a","id":1},
            "labels":[],
            "pull_request":{"url":"https://api.github.com/.../pulls/10"}
        },
        {
            "number":11,
            "title":"real issue",
            "body":"text",
            "state":"open",
            "user":{"login":"b","id":2},
            "labels":[]
        }
    ]"#;
    let mut mock = start_mock(vec![ok(body.to_vec())]);
    let client = Client::new("t").with_base_url(&mock.base_url);
    let issues = mock.run(|answer| client.list_issues("o", "r", IssueState::Open, answer)).unwrap();
    assert_eq!(issues.len(), 1, "PR entry should be filtered out");
    assert_eq!(issues[0].number, 11);
    assert_eq!(issues[0].title, "real issue");
    let cap = &mock.captured;
    assert_eq!(cap[0].path, "/repos/o/r/issues?state=open");
}

#[test]
fn lib_list_issues_state_filter_closed_and_all() {
    let mut mock = start_mock(vec![ok(br#"[]"#.to_vec()), ok(br#"[]"#.to_vec())]);
    let client = Client::new("t").with_base_url(&mock.base_url);
    mock.run(|answer| client.list_issues("o", "r", IssueState::Closed, answer)).unwrap();
    mock.run(|answer| client.list_issues("o", "r", IssueState::All, answer)).unwrap();
    let cap = &mock.captured;
    assert!(cap[0].path.contains("state=closed"));
    assert!(cap[1].path.contains("state=all"));
}

#[test]
fn lib_get_issue_parses_user_and_labels() {
    let body = br#"{
        "number":42,
        "title":"crash on startup",
        "body":"steps:\n1. boot",
        "state":"open",
        "user":{"login":"alice","id":7},
        "labels":[{"name":"bug","color":"ee0000"},{"name":"p1","color":"ff8800"}]
    }"#;
    let mut mock = start_mock(vec![ok(body.to_vec())]);
    let client = Client::new("t").with_base_url(&mock.base_url);
    let issue = mock.run(|answer| client.get_issue("o", "r", 42, answer)).unwrap();
    assert_eq!(issue.number, 42);
    assert_eq!(issue.title, "crash on startup");
    assert_eq!(issue.state, IssueState::Open);
    assert_eq!(issue.user.login, "alice");
    assert_eq!(issue.user.id, 7);
    assert_eq!(issue.labels.len(), 2);
    assert_eq!(issue.labels[0].name, "bug");
    assert_eq!(issue.labels[1].color, "ff8800");
}

#[test]
fn lib_create_issue_posts_json_with_labels() {
    let returned = br#"{
        "number":1,
        "title":"t",
        "body":"b",
        "state":"open",
        "user":{"login":"u","id":1},
        "labels":[]
    }"#;
    let mut mock = start_mock(vec![status(201, returned.to_vec())]);
    let client = Client::new("tok").with_base_url(&mock.base_url);
    let issue = mock.run(|answer| client.create_issue("o",
            "r",
            &NewIssue {
                title: "t".into(),
                body: Some("b".into()),
                labels: vec!["bug".into()],
            }, answer))
        .unwrap();
    assert_eq!(issue.number, 1);
    let cap = &mock.captured;
    assert_eq!(cap[0].method, "POST");
    assert_eq!(cap[0].path, "/repos/o/r/issues");
    assert_eq!(cap[0].header("content-type"), Some("application/json"));
    let sent = cap[0].body.as_str();
    assert!(sent.contains("\"title\":\"t\""));
    assert!(sent.contains("\"body\":\"b\""));
    assert!(sent.contains("\"labels\":[\"bug\"]"));
}

#[test]
fn lib_add_issue_comment_posts_body() {
    let returned = br#"{"id":99,"body":"thanks","user":{"login":"u","id":1}}"#;
    let mut mock = start_mock(vec![status(201, returned.to_vec())]);
    let client = Client::new("t").with_base_url(&mock.base_url);
    let c = mock.run(|answer| client.add_issue_comment("o", "r", 5, "thanks", answer)).unwrap();
    assert_eq!(c.id, 99);
    assert_eq!(c.body, "thanks");
    assert_eq!(c.user.login, "u");
    let cap = &mock.captured;
    assert_eq!(cap[0].method, "POST");
    assert_eq!(cap[0].path, "/repos/o/r/issues/5/comments");
    assert_eq!(
        cap[0].body.as_str(),
        r#"{"body":"thanks"}"#
    );
}

#[test]
fn lib_list_issue_comments_parses_array() {
    let body = br#"[
        {"id":1,"body":"first","user":{"login":"a","id":1}},
        {"id":2,"body":"second","user":{"login":"b","id":2}}
    ]"#;
    let mut mock = start_mock(vec![ok(body.to_vec())]);
    let client = Client::new("t").with_base_url(&mock.base_url);
    let comments = mock.run(|answer| client.list_issue_comments("o", "r", 9, answer)).unwrap();
    assert_eq!(comments.len(), 2);
    assert_eq!(comments[0].body, "first");
    assert_eq!(comments[1].user.login, "b");
}

#[test]
fn lib_list_pulls_parses_array() {
    let body = br#"[{
        "number":3,
        "title":"refactor",
        "body":"",
        "state":"open",
        "head":{"label":"u:feat","ref":"feat","sha":"deadbeef"},
        "base":{"label":"o:main","ref":"main","sha":"cafef00d"}
    }]"#;
    let mut mock = start_mock(vec![ok(body.to_vec())]);
    let client = Client::new("t").with_base_url(&mock.base_url);
    let pulls = mock.run(|answer| client.list_pulls("o", "r", IssueState::Open, answer)).unwrap();
    assert_eq!(pulls.len(), 1);
    assert_eq!(pulls[0].number, 3);
    assert_eq!(pulls[0].head.ref_, "feat");
    assert_eq!(pulls[0].base.sha, "cafef00d");
    // `merged` is absent on the list endpoint; defaults to false.
    assert!(!pulls[0].merged);
    let cap = &mock.captured;
    assert_eq!(cap[0].path, "/repos/o/r/pulls?state=open");
}

#[test]
fn lib_get_pull_parses_merged_flag() {
    let body = br#"{
        "number":7,
        "title":"done",
        "body":"yes",
        "state":"closed",
        "head":{"label":"u:f","ref":"f","sha":"aa"},
        "base":{"label":"o:m","ref":"m","sha":"bb"},
        "merged":true
    }"#;
    let mut mock = start_mock(vec![ok(body.to_vec())]);
    let client = Client::new("t").with_base_url(&mock.base_url);
    let pr = mock.run(|answer| client.get_pull("o", "r", 7, answer)).unwrap();
    assert_eq!(pr.number, 7);
    assert!(pr.merged);
    assert_eq!(pr.state, IssueState::Closed);
}

#[test]
fn lib_create_pull_posts_head_and_base() {
    let returned = br#"{
        "number":11,
        "title":"new",
        "body":"",
        "state":"open",
        "head":{"label":"u:f","ref":"f","sha":"aa"},
        "base":{"label":"o:m","ref":"m","sha":"bb"},
        "merged":false
    }"#;
    let mut mock = start_mock(vec![status(201, returned.to_vec())]);
    let client = Client::new("t").with_base_url(&mock.base_url);
    let pr = mock.run(|answer| client.create_pull("o",
            "r",
            &NewPull {
                title: "new".into(),
                body: None,
                head: "f".into(),
                base: "m".into(),
            }, answer))
        .unwrap();
    assert_eq!(pr.number, 11);
    let cap = &mock.captured;
    assert_eq!(cap[0].method, "POST");
    assert_eq!(cap[0].path, "/repos/o/r/pulls");
    let sent = cap[0].body.as_str();
    assert!(sent.contains("\"head\":\"f\""));
    assert!(sent.contains("\"base\":\"m\""));
    // No body key when None.
    assert!(!sent.contains("\"body\""));
}

#[test]
fn lib_status_404_includes_body() {
    let mut mock = start_mock(vec![status(404, br#"{"message":"Not Found"}"#.to_vec())]);
    let client = Client::new("t").with_base_url(&mock.base_url);
    let err = mock.run(|answer| client.get_repo("o", "missing", answer)).unwrap_err();
    match err {
        Error::Status { code, body } => {
            assert_eq!(code, 404);
            assert!(body.contains("Not Found"));
        }
        other => panic!("expected Status, got {other:?}"),
    }
}

#[test]
fn lib_status_500_includes_body() {
    let mut mock = start_mock(vec![status(500, br#"server boom"#.to_vec())]);
    let client = Client::new("t").with_base_url(&mock.base_url);
    let err = mock.run(|answer| client.list_issues("o", "r", IssueState::All, answer)).unwrap_err();
    match err {
        Error::Status { code, body } => {
            assert_eq!(code, 500);
            assert_eq!(body, "server boom");
        }
        other => panic!("expected Status, got {other:?}"),
    }
}

#[test]
fn status_422_validation_body_surfaced_verbatim() {
    // GitHub's validation errors carry an `errors` array. We surface the
    // whole body unchanged so callers can read it.
    let body = br#"{"message":"Validation Failed","errors":[{"resource":"Issue","code":"missing_field","field":"title"}],"documentation_url":"https://docs.github.com/rest/issues/issues#create-an-issue"}"#;
    let mut mock = start_mock(vec![status(422, body.to_vec())]);
    let client = Client::new("t").with_base_url(&mock.base_url);
    let err = mock.run(|answer| client.create_issue("o",
            "r",
            &NewIssue {
                title: String::new(),
                body: None,
                labels: vec![],
            }, answer))
        .unwrap_err();
    match err {
        Error::Status { code, body } => {
            assert_eq!(code, 422);
            // Surface verbatim — caller can parse `errors` if they need it.
            assert!(body.contains("Validation Failed"));
            assert!(body.contains("missing_field"));
            assert!(body.contains("\"field\":\"title\""));
        }
        other => panic!("expected Status, got {other:?}"),
    }
}

#[test]
fn lib_malformed_json_is_invalid_response() {
    let mut mock = start_mock(vec![ok(br#"{not-json"#.to_vec())]);
    let client = Client::new("t").with_base_url(&mock.base_url);
    let err = mock.run(|answer| client.get_repo("o", "r", answer)).unwrap_err();
    assert!(matches!(err, Error::InvalidResponse(_)), "got {err:?}");
}

#[test]
fn lib_trailing_slash_in_base_url_is_tolerated() {
    let mut mock = start_mock(vec![ok(repo_body())]);
    let with_slash = format!("{}/", mock.base_url);
    let client = Client::new("t").with_base_url(&with_slash);
    mock.run(|answer| client.get_repo("o", "r", answer)).unwrap();
    let cap = &mock.captured;
    // No double slash in the path.
    assert_eq!(cap[0].path, "/repos/o/r");
}

#[test]
fn default_base_url_is_api_github_com() {
    let client = Client::new("t");
    assert_eq!(client.url("/repos/o/r"), "https://api.github.com/repos/o/r");
}

#[test]
fn error_bodies_are_kept() {
    for (body, text) in [("caf\u{e9} \"x\"\n".as_bytes(), "caf\u{e9} \"x\"\n"), (b"a\xffb", "a\u{fffd}b")] {
        let mut mock = start_mock(vec![status(503, body.to_vec())]);
        let client = Client::new("t").with_base_url(&mock.base_url);
        match mock.run(|answer| client.get_repo("o", "r", answer)).unwrap_err() {
            Error::Status { code, body } => assert_eq!((code, body.as_str()), (503, text)),
            other => panic!("expected Status, got {other:?}"),
        }
    }
}

//! Workspaces of jj, on a repository held in memory.

use std::collections::BTreeMap;

use sandcastle::jj::{
    gen_workspace_name, jj_cmd, pick_bookmark, repo_root_from_workspace, unix_to_ymdhms,
    AgentStatus, GitError, JjAction, JjBookmarkStrategy, JjHeadStrategy, JjReply, JjStep,
    JjWorkspaceStrategy, Output, Workspace,
};

const ROOT: &str = "/tmp/repo";

/// A repository: its bookmarks and workspaces with the change that each stands at.
struct TempRepo {
    bookmarks: BTreeMap<String, u32>,
    spaces: BTreeMap<String, u32>,
    dirs: Vec<String>,
    files: Vec<String>,
    next: u32,
    is_repo: bool,
}

fn ran(stdout: &str) -> JjReply {
    JjReply::Ran(Output {
        success: true,
        code: Some(0),
        stdout: stdout.as_bytes().to_vec(),
        stderr: vec![],
    })
}

fn refused(stderr: &str) -> JjReply {
    JjReply::Ran(Output {
        success: false,
        code: Some(2),
        stdout: vec![],
        stderr: stderr.as_bytes().to_vec(),
    })
}

impl TempRepo {
    fn new() -> TempRepo {
        let mut bookmarks = BTreeMap::new();
        bookmarks.insert("main".to_string(), 1);
        TempRepo {
            bookmarks,
            spaces: BTreeMap::new(),
            dirs: vec![ROOT.to_string()],
            files: vec![],
            next: 2,
            is_repo: true,
        }
    }

    fn write(&mut self, rel: &str) {
        self.files.push(rel.to_string());
    }

    /// The agent works in a workspace.
    fn work_in(&mut self, space: &str) {
        self.spaces.insert(space.to_string(), self.next);
        self.next += 1;
    }

    fn bookmark_target(&self, name: &str) -> Option<u32> {
        self.bookmarks.get(name).copied()
    }

    fn resolve(&self, rev: &str) -> u32 {
        match rev.strip_suffix('@') {
            Some(space) => self.spaces[space],
            None => self.bookmarks[rev],
        }
    }

    fn jj(&mut self, args: &[&str]) -> JjReply {
        if !self.is_repo {
            return refused("There is no jj repo in \".\"");
        }
        match args {
            ["root"] => ran(&format!("{ROOT}\n")),
            ["log", "--no-graph", "-r", "@", "-T", "empty"] => {
                ran(if self.files.is_empty() { "true" } else { "false" })
            }
            ["log", "--no-graph", "-r", "@-", "-T", "bookmarks ++ \"\\n\""] => ran("main\n"),
            ["bookmark", "list", name] => match self.bookmarks.get(*name) {
                Some(at) => ran(&format!("{name}: {at}\n")),
                None => ran("\n"),
            },
            ["bookmark", "create", name, "-r", rev] => {
                let at = self.resolve(rev);
                self.bookmarks.insert(name.to_string(), at);
                ran("")
            }
            ["bookmark", "set", "--allow-backwards", name, "-r", rev] => {
                let at = self.resolve(rev);
                self.bookmarks.insert(name.to_string(), at);
                ran("")
            }
            ["workspace", "add", "--name", name, rest @ ..] => {
                let at = match rest {
                    ["-r", rev, _] => self.resolve(rev),
                    _ => self.bookmarks["main"],
                };
                self.spaces.insert(name.to_string(), at);
                self.dirs.push(rest[rest.len() - 1].to_string());
                ran("")
            }
            ["workspace", "forget", name] => {
                self.spaces.remove(*name);
                ran("")
            }
            other => refused(&format!("unrecognized subcommand '{}'", other[0])),
        }
    }

    fn act(&mut self, action: JjAction) -> JjReply {
        match action {
            JjAction::Exists(p) => JjReply::Exists(self.dirs.contains(&p)),
            JjAction::Run { args, cwd } => {
                assert_eq!(cwd, ROOT);
                self.jj(&args.iter().map(String::as_str).collect::<Vec<_>>())
            }
            JjAction::MakeDirs(p) => {
                self.dirs.push(p);
                JjReply::Done
            }
            JjAction::RemoveDirs(p) => {
                self.dirs.retain(|d| *d != p);
                JjReply::Done
            }
        }
    }

    fn run<T>(&mut self, step: impl Fn(&Vec<JjReply>) -> JjStep<T>) -> Result<T, GitError> {
        let mut replies = vec![];
        loop {
            match step(&replies) {
                JjStep::Done(res) => return res,
                JjStep::Need(action) => replies.push(self.act(action)),
            }
        }
    }

    fn prepare_head(&mut self) -> Result<Workspace, GitError> {
        self.run(|r| JjHeadStrategy.prepare(ROOT, r))
    }

    fn prepare_space(&mut self) -> Result<Workspace, GitError> {
        let name = gen_workspace_name(1_709_209_496, 7, 9);
        self.run(|r| JjWorkspaceStrategy.prepare(ROOT, &name, r))
    }

    fn finish_space(&mut self, ws: &Workspace, s: AgentStatus) -> Result<Option<String>, GitError> {
        self.run(|r| JjWorkspaceStrategy.finish(ws, &s, r))
    }
}

#[test]
fn head_clean_repo_returns_repo_root() {
    let mut r = TempRepo::new();
    let ws = r.prepare_head().unwrap();
    assert_eq!(ws.path, ROOT);
    assert_eq!(ws.target_branch.as_deref(), Some("main"));
    match JjHeadStrategy.finish(&ws, &AgentStatus::Success) {
        JjStep::Done(Ok(said)) => assert_eq!(said, None),
        other => panic!("unexpected: {other:?}"),
    }
}

#[test]
fn head_refuses_dirty_working_copy() {
    let mut r = TempRepo::new();
    r.write("dirty.txt");
    let err = r.prepare_head().unwrap_err();
    assert!(matches!(err, GitError::DirtyTree), "got {err:?}");
}

#[test]
fn head_finish_is_noop_on_failure() {
    let mut r = TempRepo::new();
    let ws = r.prepare_head().unwrap();
    match JjHeadStrategy.finish(&ws, &AgentStatus::Failure("boom".into())) {
        JjStep::Done(res) => {
            res.unwrap();
        }
        JjStep::Need(action) => panic!("asked for {action:?}"),
    }
}

#[test]
fn workspace_happy_path_advances_source_bookmark() {
    let mut r = TempRepo::new();
    let before = r.bookmark_target("main").unwrap();

    let ws = r.prepare_space().unwrap();
    assert!(ws.path.starts_with("/tmp/repo/.sandcastle/workspaces/"));
    assert!(r.dirs.contains(&ws.path));
    assert_eq!(ws.target_branch.as_deref(), Some("main"));

    r.work_in(&ws.source_branch);
    r.finish_space(&ws, AgentStatus::Success).unwrap();

    assert!(!r.dirs.contains(&ws.path), "workspace dir should be removed on success");
    let after = r.bookmark_target("main").unwrap();
    assert_ne!(before, after, "main should have moved forward");
}

#[test]
fn workspace_failure_preserves_dir() {
    let mut r = TempRepo::new();
    let ws = r.prepare_space().unwrap();
    let said = r.finish_space(&ws, AgentStatus::Failure("nope".into())).unwrap().unwrap();
    assert_eq!(
        said,
        format!("jj-workspace: agent failed (nope); workspace preserved at {}", ws.path)
    );
    assert!(r.dirs.contains(&ws.path), "workspace should be kept on failure");
    assert!(r.spaces.keys().any(|k| k.contains("agent-")));
}

#[test]
fn workspace_path_layout() {
    let mut r = TempRepo::new();
    let ws = r.prepare_space().unwrap();
    let parent = ws.path.rsplit_once('/').unwrap().0;
    assert!(parent.ends_with(".sandcastle/workspaces"));
    assert!(ws.source_branch.starts_with("agent-"));
    r.finish_space(&ws, AgentStatus::Success).unwrap();
}

#[test]
fn bookmark_new_name_creates_bookmark_and_workspace() {
    let mut r = TempRepo::new();
    assert!(r.bookmark_target("agent-x").is_none());
    let s = JjBookmarkStrategy::new("agent-x");
    let ws = r.run(|x| s.prepare(ROOT, x)).unwrap();
    assert!(r.dirs.contains(&ws.path));
    assert_eq!(ws.source_branch, "agent-x");
    assert!(r.bookmark_target("agent-x").is_some());
    r.run(|x| s.finish(&ws, &AgentStatus::Success, x)).unwrap();
}

#[test]
fn bookmark_existing_name_is_reused() {
    let mut r = TempRepo::new();
    r.bookmarks.insert("agent-work".to_string(), 1);
    let before = r.bookmark_target("agent-work").unwrap();

    let s = JjBookmarkStrategy::new("agent-work");
    let ws = r.run(|x| s.prepare(ROOT, x)).unwrap();
    r.work_in("agent-work");
    r.run(|x| s.finish(&ws, &AgentStatus::Success, x)).unwrap();

    let after = r.bookmark_target("agent-work").unwrap();
    assert_ne!(before, after, "agent-work should have advanced");
    assert_eq!(r.bookmark_target("main"), Some(1), "main should not have moved");
}

#[test]
fn bookmark_failure_preserves_workspace() {
    let mut r = TempRepo::new();
    let s = JjBookmarkStrategy::new("inspect-me");
    let ws = r.run(|x| s.prepare(ROOT, x)).unwrap();
    r.run(|x| s.finish(&ws, &AgentStatus::Failure("nope".into()), x)).unwrap();
    assert!(r.dirs.contains(&ws.path));
    assert!(r.bookmark_target("inspect-me").is_some());
}

#[test]
fn not_a_jj_repo_errors() {
    let mut r = TempRepo::new();
    r.is_repo = false;
    let err = r.prepare_head().unwrap_err();
    assert!(matches!(err, GitError::NotARepo(_)), "got {err:?}");
    let err = r.prepare_space().unwrap_err();
    assert!(matches!(err, GitError::NotARepo(_)), "got {err:?}");
    let err = r.run(|x| JjBookmarkStrategy::new("x").prepare(ROOT, x)).unwrap_err();
    assert!(matches!(err, GitError::NotARepo(_)), "got {err:?}");
}

#[test]
fn strategy_names() {
    assert_eq!(JjHeadStrategy.name(), "jj-head");
    assert_eq!(JjWorkspaceStrategy.name(), "jj-workspace");
    assert_eq!(JjBookmarkStrategy::new("x").name(), "jj-bookmark");
}

#[test]
fn gen_workspace_name_format() {
    let n = gen_workspace_name(1_709_209_496, 123_456_789, 4242);
    assert!(n.starts_with("agent-"));
    assert_eq!(n.len(), 26, "unexpected: {n}");
    let parts: Vec<&str> = n.split('-').collect();
    assert_eq!(parts.len(), 4);
    assert_eq!(parts[0], "agent");
    assert_eq!(parts[1].len(), 8);
    assert_eq!(parts[2].len(), 6);
    assert_eq!(parts[3].len(), 4);
    assert!(n.starts_with("agent-20240229-122456-"));
}

#[test]
fn jj_cmd_propagates_failure() {
    let args = vec!["this-is-not-a-jj-subcommand".to_string()];
    let out = match TempRepo::new().jj(&["this-is-not-a-jj-subcommand"]) {
        JjReply::Ran(out) => out,
        other => panic!("unexpected: {other:?}"),
    };
    match jj_cmd(&args, &out).unwrap_err() {
        GitError::Git { exit, .. } => assert!(exit != 0),
        other => panic!("expected Git, got {other:?}"),
    }
}

#[test]
fn output_that_is_no_text_is_made_one() {
    let out =
        Output { success: false, code: None, stdout: vec![], stderr: b"a\xffb".to_vec() };
    match jj_cmd(&vec!["log".to_string()], &out).unwrap_err() {
        GitError::Git { command, stderr, exit } => {
            assert_eq!(command, "log");
            assert_eq!(stderr, "a\u{fffd}b");
            assert_eq!(exit, -1);
        }
        other => panic!("expected Git, got {other:?}"),
    }
}

#[test]
fn unix_to_ymdhms_known_epochs() {
    assert_eq!(unix_to_ymdhms(0), (1970, 1, 1, 0, 0, 0));
    assert_eq!(unix_to_ymdhms(946_684_800), (2000, 1, 1, 0, 0, 0));
    assert_eq!(unix_to_ymdhms(1_709_209_496), (2024, 2, 29, 12, 24, 56));
}

#[test]
fn repo_root_from_workspace_walks_up_two_dirs() {
    assert_eq!(
        repo_root_from_workspace("/tmp/foo/.sandcastle/workspaces/agent-x").unwrap(),
        "/tmp/foo"
    );
    assert!(matches!(repo_root_from_workspace("/x"), Err(GitError::Other(_))));
}

#[test]
fn the_first_bookmark_counts() {
    assert_eq!(pick_bookmark("main* dev\n").as_deref(), Some("main"));
    assert_eq!(pick_bookmark(" * dev").as_deref(), Some("dev"));
    assert_eq!(pick_bookmark("\n"), None);
}

#[test]
fn spare_answers_change_nothing_for_workspaces() {
    let replies = vec![JjReply::Exists(false), ran("late")];
    match JjHeadStrategy.prepare(ROOT, &replies) {
        JjStep::Done(Err(GitError::NotARepo(p))) => assert_eq!(p, ROOT),
        other => panic!("unexpected: {other:?}"),
    }
}

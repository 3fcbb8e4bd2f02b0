//! The file tools, on a file system held in memory.

use std::collections::BTreeMap;

use sandcastle::fstools::{
    user_components, EditTool, FileInfo, FsAction, FsReply, ReadTool, ToolError, ToolStep,
    WriteTool, DEFAULT_LINE_LIMIT, MAX_BYTES,
};

#[derive(Clone)]
enum Node {
    Dir,
    File(usize),
    Link(String),
}

/// A tree of directories, files and links. Files that are hard links of each other share
/// a place in `data`.
struct Fs {
    nodes: BTreeMap<String, Node>,
    data: Vec<Vec<u8>>,
}

type Outcome<T> = Result<T, (String, bool)>;

fn missing<T>() -> Outcome<T> {
    Err(("No such file or directory (os error 2)".to_string(), true))
}

fn fault<T>(why: &str) -> Outcome<T> {
    Err((why.to_string(), false))
}

fn join(dir: &str, name: &str) -> String {
    format!("{dir}/{name}")
}

fn json_escape(s: &str) -> String {
    s.replace('\\', "\\\\").replace('"', "\\\"")
}

impl Fs {
    fn new() -> Fs {
        let mut nodes = BTreeMap::new();
        nodes.insert("/".to_string(), Node::Dir);
        nodes.insert("/tmp".to_string(), Node::Dir);
        Fs { nodes, data: vec![] }
    }

    /// Follows the links in a path, but for its last component where `leaf` is false.
    fn resolve(&self, path: &str, leaf: bool, hops: usize) -> Outcome<String> {
        if hops > 40 {
            return fault("Too many levels of symbolic links (os error 40)");
        }
        let parts: Vec<&str> = path.split('/').filter(|p| !p.is_empty() && *p != ".").collect();
        let mut cur = "/".to_string();
        for (i, p) in parts.iter().enumerate() {
            match self.nodes.get(&cur) {
                Some(Node::Dir) => {}
                Some(_) => return fault("Not a directory (os error 20)"),
                None => return missing(),
            }
            cur = if cur == "/" { format!("/{p}") } else { format!("{cur}/{p}") };
            let last = i + 1 == parts.len();
            if let Some(Node::Link(to)) = self.nodes.get(&cur) {
                if !last || leaf {
                    cur = self.resolve(to, true, hops + 1)?;
                }
            }
        }
        Ok(cur)
    }

    fn node(&self, path: &str, leaf: bool) -> Outcome<Node> {
        let at = self.resolve(path, leaf, 0)?;
        self.nodes.get(&at).cloned().map_or_else(missing, Ok)
    }

    fn has(&self, path: &str) -> bool {
        self.node(path, true).is_ok()
    }

    fn make_dir(&mut self, path: &str) -> Outcome<()> {
        let at = self.resolve(path, false, 0)?;
        if self.nodes.contains_key(&at) {
            return fault("File exists (os error 17)");
        }
        self.nodes.insert(at, Node::Dir);
        Ok(())
    }

    fn try_make_dirs(&mut self, path: &str) -> Outcome<()> {
        let mut cur = String::new();
        for p in path.split('/').filter(|p| !p.is_empty()) {
            cur = format!("{cur}/{p}");
            match self.node(&cur, true) {
                Ok(Node::Dir) => {}
                Ok(_) => return fault("Not a directory (os error 20)"),
                Err(_) => self.make_dir(&cur)?,
            }
        }
        Ok(())
    }

    fn make_dirs(&mut self, path: &str) {
        self.try_make_dirs(path).unwrap();
    }

    fn write(&mut self, path: &str, bytes: &[u8]) -> Outcome<()> {
        let at = self.resolve(path, true, 0)?;
        match self.nodes.get(&at) {
            Some(Node::File(n)) => self.data[*n] = bytes.to_vec(),
            Some(_) => return fault("Is a directory (os error 21)"),
            None => {
                self.nodes.insert(at, Node::File(self.data.len()));
                self.data.push(bytes.to_vec());
            }
        }
        Ok(())
    }

    fn put(&mut self, path: impl AsRef<str>, bytes: impl AsRef<[u8]>) {
        self.write(path.as_ref(), bytes.as_ref()).unwrap();
    }

    fn read(&self, path: &str) -> Outcome<Vec<u8>> {
        match self.node(path, true)? {
            Node::File(n) => Ok(self.data[n].clone()),
            _ => fault("Is a directory (os error 21)"),
        }
    }

    fn text(&self, path: impl AsRef<str>) -> String {
        String::from_utf8(self.read(path.as_ref()).unwrap()).unwrap()
    }

    fn symlink(&mut self, to: impl AsRef<str>, at: impl AsRef<str>) {
        self.nodes.insert(at.as_ref().to_string(), Node::Link(to.as_ref().to_string()));
    }

    fn hard_link(&mut self, from: impl AsRef<str>, at: impl AsRef<str>) {
        let node = self.node(from.as_ref(), true).unwrap();
        self.nodes.insert(at.as_ref().to_string(), node);
    }

    fn info(&self, node: Node) -> FileInfo {
        match node {
            Node::Dir => FileInfo { is_symlink: false, is_file: false, links: 2, len: 0 },
            Node::Link(_) => FileInfo { is_symlink: true, is_file: false, links: 1, len: 0 },
            Node::File(n) => {
                let same = |x: &&Node| matches!(x, Node::File(m) if *m == n);
                FileInfo {
                    is_symlink: false,
                    is_file: true,
                    links: self.nodes.values().filter(same).count() as u64,
                    len: self.data[n].len() as u64,
                }
            }
        }
    }

    fn act(&mut self, action: FsAction) -> Outcome<FsReply> {
        Ok(match action {
            FsAction::Canonicalize(p) => {
                let at = self.resolve(&p, true, 0)?;
                if !self.nodes.contains_key(&at) {
                    return missing();
                }
                FsReply::Path(at)
            }
            FsAction::LinkInfo(p) => FsReply::Info(self.info(self.node(&p, false)?)),
            FsAction::Info(p) => FsReply::Info(self.info(self.node(&p, true)?)),
            FsAction::Read(p) => FsReply::Bytes(self.read(&p)?),
            FsAction::Write { path, content } => {
                self.write(&path, content.as_bytes())?;
                FsReply::Done
            }
            FsAction::MakeDir(p) => {
                self.make_dir(&p)?;
                FsReply::Done
            }
            FsAction::MakeDirs(p) => {
                self.try_make_dirs(&p)?;
                FsReply::Done
            }
        })
    }

    /// Runs a tool to its end.
    fn run(&mut self, step: impl Fn(&Vec<FsReply>) -> ToolStep) -> Result<String, ToolError> {
        let mut replies = vec![];
        loop {
            match step(&replies) {
                ToolStep::Done(out) => return Ok(out),
                ToolStep::Failed(e) => return Err(e),
                ToolStep::Need(action) => replies.push(match self.act(action) {
                    Ok(reply) => reply,
                    Err((text, not_found)) => FsReply::Failed { text, not_found },
                }),
            }
        }
    }
}

/// A root, and a file with a secret beside it.
fn sandbox_with_secret(fs: &mut Fs, label: &str) -> (String, String) {
    let parent = format!("/tmp/{label}");
    let root = join(&parent, "root");
    fs.make_dirs(&root);
    let secret = join(&parent, "secret.txt");
    fs.put(&secret, "SECRET");
    (root, secret)
}

#[test]
fn read_happy_path() {
    let mut fs = Fs::new();
    let dir = "/tmp/read-happy".to_string();
    fs.make_dirs(&dir);
    let path = join(&dir, "f.txt");
    fs.put(&path, "alpha\nbeta\ngamma\n");
    let tool = ReadTool { root: None };
    let input = format!(r#"{{"path":"{}"}}"#, json_escape(&path));
    let out = fs.run(|r| tool.call(&input, r)).unwrap();
    assert_eq!(out, "1\talpha\n2\tbeta\n3\tgamma\n");
}

#[test]
fn read_offset_and_limit() {
    let mut fs = Fs::new();
    let dir = "/tmp/read-window".to_string();
    fs.make_dirs(&dir);
    let path = join(&dir, "f.txt");
    fs.put(&path, "a\nb\nc\nd\ne\n");
    let tool = ReadTool { root: None };
    let input = format!(
        r#"{{"path":"{}","offset":2,"limit":2}}"#,
        json_escape(&path)
    );
    let out = fs.run(|r| tool.call(&input, r)).unwrap();
    assert!(out.contains("2\tb"));
    assert!(out.contains("3\tc"));
    assert!(!out.contains("1\ta"));
    assert!(!out.contains("4\td"));
    assert!(out.contains("[truncated at line 3]"));
}

#[test]
fn read_missing_path_field() {
    let mut fs = Fs::new();
    let err = fs.run(|r| ReadTool { root: None }.call(r#"{"offset":1}"#, r)).unwrap_err();
    assert!(err.0.contains("missing field 'path'"), "got: {}", err.0);
}

#[test]
fn read_invalid_json() {
    let mut fs = Fs::new();
    let err = fs.run(|r| ReadTool { root: None }.call("not json", r)).unwrap_err();
    assert!(err.0.contains("invalid JSON"), "got: {}", err.0);
}

#[test]
fn read_path_traversal_with_root() {
    let mut fs = Fs::new();
    let dir = "/tmp/read-traversal".to_string();
    fs.make_dirs(&dir);
    let tool = ReadTool { root: Some(dir.clone()) };
    let err = fs.run(|r| tool.call(r#"{"path":"../etc/passwd"}"#, r)).unwrap_err();
    assert!(
        err.0.contains("path traversal not allowed"),
        "got: {}",
        err.0
    );
}

#[test]
fn read_absolute_path_with_root() {
    let mut fs = Fs::new();
    let dir = "/tmp/read-abs".to_string();
    fs.make_dirs(&dir);
    let tool = ReadTool { root: Some(dir.clone()) };
    let err = fs.run(|r| tool.call(r#"{"path":"/etc/passwd"}"#, r)).unwrap_err();
    assert!(
        err.0.contains("absolute paths not allowed"),
        "got: {}",
        err.0
    );
}

#[test]
fn read_nonexistent_file() {
    let mut fs = Fs::new();
    let p = "/tmp/read-nope/never.txt".to_string();
    let input = format!(r#"{{"path":"{}"}}"#, json_escape(&p));
    let err = fs.run(|r| ReadTool { root: None }.call(&input, r)).unwrap_err();
    assert!(!err.0.is_empty());
}

#[test]
fn read_binary_file_refused() {
    let mut fs = Fs::new();
    let dir = "/tmp/read-binary".to_string();
    fs.make_dirs(&dir);
    let path = join(&dir, "b.bin");
    fs.put(&path, b"hello\x00world");
    let input = format!(r#"{{"path":"{}"}}"#, json_escape(&path));
    let err = fs.run(|r| ReadTool { root: None }.call(&input, r)).unwrap_err();
    assert_eq!(err.0, "file appears binary");
}

#[test]
fn read_too_large_file_refused() {
    let mut fs = Fs::new();
    let dir = "/tmp/read-big".to_string();
    fs.make_dirs(&dir);
    let path = join(&dir, "big.txt");
    let big = vec![b'a'; (MAX_BYTES as usize) + 16];
    fs.put(&path, &big);
    let input = format!(r#"{{"path":"{}"}}"#, json_escape(&path));
    let err = fs.run(|r| ReadTool { root: None }.call(&input, r)).unwrap_err();
    assert!(err.0.contains("file too large"), "got: {}", err.0);
}

#[test]
fn read_truncates_at_default_line_limit() {
    let mut fs = Fs::new();
    let dir = "/tmp/read-trunc".to_string();
    fs.make_dirs(&dir);
    let path = join(&dir, "many.txt");
    let mut s = String::new();
    for i in 0..(DEFAULT_LINE_LIMIT + 50) {
        s.push_str(&format!("L{i}\n"));
    }
    fs.put(&path, &s);
    let input = format!(r#"{{"path":"{}"}}"#, json_escape(&path));
    let out = fs.run(|r| ReadTool { root: None }.call(&input, r)).unwrap();
    assert!(
        out.contains(&format!("[truncated at line {DEFAULT_LINE_LIMIT}]")),
        "no truncation marker"
    );
}

#[test]
fn write_happy_path() {
    let mut fs = Fs::new();
    let dir = "/tmp/write-happy".to_string();
    let path = join(&dir, "out.txt");
    let tool = WriteTool { root: None };
    let input = format!(
        r#"{{"path":"{}","content":"hello"}}"#,
        json_escape(&path)
    );
    let out = fs.run(|r| tool.call(&input, r)).unwrap();
    assert!(out.starts_with("wrote 5 bytes to "));
    assert_eq!(fs.text(&path), "hello");
}

#[test]
fn write_creates_parent_dirs() {
    let mut fs = Fs::new();
    let dir = "/tmp/write-parents".to_string();
    let path = join(&dir, "nested/deeper/x.txt");
    let tool = WriteTool { root: None };
    let input = format!(
        r#"{{"path":"{}","content":"ok"}}"#,
        json_escape(&path)
    );
    fs.run(|r| tool.call(&input, r)).unwrap();
    assert_eq!(fs.text(&path), "ok");
}

#[test]
fn write_missing_path_field() {
    let mut fs = Fs::new();
    let err = fs.run(|r| WriteTool { root: None }.call(r#"{"content":"x"}"#, r)).unwrap_err();
    assert!(err.0.contains("missing field 'path'"));
}

#[test]
fn write_path_traversal_with_root() {
    let mut fs = Fs::new();
    let dir = "/tmp/write-traversal".to_string();
    fs.make_dirs(&dir);
    let err = fs.run(|r| WriteTool { root: Some(dir.clone()) }.call(r#"{"path":"../evil","content":"x"}"#, r)).unwrap_err();
    assert!(err.0.contains("path traversal not allowed"));
}

#[test]
fn write_nonexistent_path_returns_io_error() {
    let mut fs = Fs::new();
    let dir = "/tmp/write-noparent".to_string();
    fs.make_dirs(&dir);
    let blocker = join(&dir, "blocker");
    fs.put(&blocker, b"i am a file");
    let path = join(&blocker, "under_a_file/nope.txt");
    let input = format!(
        r#"{{"path":"{}","content":"x"}}"#,
        json_escape(&path)
    );
    let err = fs.run(|r| WriteTool { root: None }.call(&input, r)).unwrap_err();
    assert!(!err.0.is_empty());
}

#[test]
fn edit_exactly_one_occurrence_succeeds() {
    let mut fs = Fs::new();
    let dir = "/tmp/edit-one".to_string();
    fs.make_dirs(&dir);
    let path = join(&dir, "e.txt");
    fs.put(&path, "hello world\n");
    let tool = EditTool { root: None };
    let input = format!(
        r#"{{"path":"{}","old_text":"world","new_text":"there"}}"#,
        json_escape(&path)
    );
    let out = fs.run(|r| tool.call(&input, r)).unwrap();
    assert!(out.contains("5 chars replaced"));
    assert_eq!(fs.text(&path), "hello there\n");
}

#[test]
fn edit_zero_occurrences_errors() {
    let mut fs = Fs::new();
    let dir = "/tmp/edit-zero".to_string();
    fs.make_dirs(&dir);
    let path = join(&dir, "e.txt");
    fs.put(&path, "hello world\n");
    let input = format!(
        r#"{{"path":"{}","old_text":"absent","new_text":"x"}}"#,
        json_escape(&path)
    );
    let err = fs.run(|r| EditTool { root: None }.call(&input, r)).unwrap_err();
    assert!(err.0.contains("not found"));
}

#[test]
fn edit_multiple_occurrences_errors() {
    let mut fs = Fs::new();
    let dir = "/tmp/edit-many".to_string();
    fs.make_dirs(&dir);
    let path = join(&dir, "e.txt");
    fs.put(&path, "x x x");
    let input = format!(
        r#"{{"path":"{}","old_text":"x","new_text":"y"}}"#,
        json_escape(&path)
    );
    let err = fs.run(|r| EditTool { root: None }.call(&input, r)).unwrap_err();
    assert!(err.0.contains("3 times"), "got: {}", err.0);
}

#[test]
fn edit_missing_path_field() {
    let mut fs = Fs::new();
    let err = fs.run(|r| EditTool { root: None }.call(r#"{"old_text":"a","new_text":"b"}"#, r)).unwrap_err();
    assert!(err.0.contains("missing field 'path'"));
}

#[test]
fn edit_nonexistent_file_errors() {
    let mut fs = Fs::new();
    let p = "/tmp/edit-nope/never.txt".to_string();
    let input = format!(
        r#"{{"path":"{}","old_text":"x","new_text":"y"}}"#,
        json_escape(&p)
    );
    let err = fs.run(|r| EditTool { root: None }.call(&input, r)).unwrap_err();
    assert!(!err.0.is_empty());
}

#[test]
fn edit_path_traversal_with_root() {
    let mut fs = Fs::new();
    let dir = "/tmp/edit-traversal".to_string();
    fs.make_dirs(&dir);
    let err = fs.run(|r| EditTool { root: Some(dir.clone()) }.call(r#"{"path":"../etc/passwd","old_text":"a","new_text":"b"}"#, r)).unwrap_err();
    assert!(err.0.contains("path traversal not allowed"));
}

#[test]
fn read_refuses_symlink_to_outside_file() {
    let mut fs = Fs::new();
    let (root, secret) = sandbox_with_secret(&mut fs, "sym-read-out");
    fs.symlink(&secret, join(&root, "innocent"));
    let err = fs.run(|r| ReadTool { root: Some(root.clone()) }.call(r#"{"path":"innocent"}"#, r)).unwrap_err();
    assert!(
        err.0.contains("symlink") || err.0.contains("escapes"),
        "got: {}",
        err.0
    );
}

#[test]
fn read_refuses_symlink_to_inside_file() {
    let mut fs = Fs::new();
    let parent = "/tmp/sym-read-in".to_string();
    fs.make_dirs(&parent);
    let root = join(&parent, "root");
    fs.make_dirs(&root);
    let target = join(&root, "real.txt");
    fs.put(&target, "ok");
    fs.symlink(&target, join(&root, "alias"));
    let err = fs.run(|r| ReadTool { root: Some(root.clone()) }.call(r#"{"path":"alias"}"#, r)).unwrap_err();
    assert!(err.0.contains("symlink"), "got: {}", err.0);
}

#[test]
fn read_refuses_inside_symlinked_dir() {
    let mut fs = Fs::new();
    // <root>/dir is a symlink to <parent>/elsewhere/ which has inner.txt.
    let parent = "/tmp/sym-read-dir".to_string();
    fs.make_dirs(&parent);
    let root = join(&parent, "root");
    fs.make_dirs(&root);
    let elsewhere = join(&parent, "elsewhere");
    fs.make_dirs(&elsewhere);
    fs.put(join(&elsewhere, "inner.txt"), "leaked");
    fs.symlink(&elsewhere, join(&root, "dir"));
    let err = fs.run(|r| ReadTool { root: Some(root.clone()) }.call(r#"{"path":"dir/inner.txt"}"#, r)).unwrap_err();
    assert!(err.0.contains("symlink"), "got: {}", err.0);
}

#[test]
fn write_refuses_symlink_to_outside_file() {
    let mut fs = Fs::new();
    let (root, secret) = sandbox_with_secret(&mut fs, "sym-write-out");
    fs.symlink(&secret, join(&root, "innocent"));
    let err = fs.run(|r| WriteTool { root: Some(root.clone()) }.call(r#"{"path":"innocent","content":"pwned"}"#, r)).unwrap_err();
    assert!(err.0.contains("symlink"), "got: {}", err.0);
    assert_eq!(fs.text(&secret), "SECRET");
}

#[test]
fn write_refuses_through_intermediate_symlink() {
    let mut fs = Fs::new();
    // <root>/a -> /var/tmp-ish/somewhere; write a/b/c.txt would
    let parent = "/tmp/sym-write-mid".to_string();
    fs.make_dirs(&parent);
    let root = join(&parent, "root");
    fs.make_dirs(&root);
    let elsewhere = join(&parent, "elsewhere");
    fs.make_dirs(&elsewhere);
    fs.symlink(&elsewhere, join(&root, "a"));
    let err = fs.run(|r| WriteTool { root: Some(root.clone()) }.call(r#"{"path":"a/b/c.txt","content":"pwned"}"#, r)).unwrap_err();
    assert!(err.0.contains("symlink"), "got: {}", err.0);
    assert!(!fs.has(&join(&elsewhere, "b")), "wrote through symlink");
}

#[test]
fn edit_refuses_symlink_to_outside_file() {
    let mut fs = Fs::new();
    let (root, secret) = sandbox_with_secret(&mut fs, "sym-edit-out");
    fs.symlink(&secret, join(&root, "innocent"));
    let err = fs.run(|r| EditTool { root: Some(root.clone()) }.call(r#"{"path":"innocent","old_text":"SECRET","new_text":"PWNED"}"#, r)).unwrap_err();
    assert!(err.0.contains("symlink"), "got: {}", err.0);
    assert_eq!(fs.text(&secret), "SECRET");
}

#[test]
fn edit_refuses_inside_symlinked_dir() {
    let mut fs = Fs::new();
    let parent = "/tmp/sym-edit-dir".to_string();
    fs.make_dirs(&parent);
    let root = join(&parent, "root");
    fs.make_dirs(&root);
    let elsewhere = join(&parent, "elsewhere");
    fs.make_dirs(&elsewhere);
    fs.put(join(&elsewhere, "f.txt"), "alpha");
    fs.symlink(&elsewhere, join(&root, "dir"));
    let err = fs.run(|r| EditTool { root: Some(root.clone()) }.call(r#"{"path":"dir/f.txt","old_text":"alpha","new_text":"beta"}"#, r)).unwrap_err();
    assert!(err.0.contains("symlink"), "got: {}", err.0);
    assert_eq!(fs.text(join(&elsewhere, "f.txt")), "alpha");
}

#[test]
fn write_create_parents_under_legitimate_dirs_still_works() {
    let mut fs = Fs::new();
    let parent = "/tmp/sym-write-ok".to_string();
    fs.make_dirs(&parent);
    let root = join(&parent, "root");
    fs.make_dirs(&root);
    fs.run(|r| WriteTool { root: Some(root.clone()) }.call(r#"{"path":"x/y/z.txt","content":"ok"}"#, r)).unwrap();
    assert_eq!(
        fs.text(join(&root, "x/y/z.txt")),
        "ok"
    );
}

#[test]
fn read_without_root_follows_symlinks() {
    let mut fs = Fs::new();
    let parent = "/tmp/sym-noroot".to_string();
    fs.make_dirs(&parent);
    let target = join(&parent, "target.txt");
    fs.put(&target, "value\n");
    let link = join(&parent, "link");
    fs.symlink(&target, &link);
    let input = format!(
        r#"{{"path":"{}"}}"#,
        json_escape(&link)
    );
    let out = fs.run(|r| ReadTool { root: None }.call(&input, r)).unwrap();
    assert!(out.contains("value"), "got: {}", out);
}

#[test]
fn symlink_loop_does_not_panic() {
    let mut fs = Fs::new();
    let parent = "/tmp/sym-loop".to_string();
    fs.make_dirs(&parent);
    let root = join(&parent, "root");
    fs.make_dirs(&root);
    // a -> b, b -> a.
    fs.symlink(join(&root, "b"), join(&root, "a"));
    fs.symlink(join(&root, "a"), join(&root, "b"));
    let err = fs.run(|r| ReadTool { root: Some(root.clone()) }.call(r#"{"path":"a"}"#, r)).unwrap_err();
    assert!(!err.0.is_empty());
}

#[test]
fn write_refuses_absolute_path_under_root() {
    let mut fs = Fs::new();
    let parent = "/tmp/sym-abs".to_string();
    fs.make_dirs(&parent);
    let root = join(&parent, "root");
    fs.make_dirs(&root);
    let err = fs.run(|r| WriteTool { root: Some(root.clone()) }.call(r#"{"path":"/etc/passwd","content":"x"}"#, r)).unwrap_err();
    assert!(err.0.contains("absolute paths not allowed"), "got: {}", err.0);
}

#[test]
fn write_into_existing_inside_root_dir_succeeds() {
    let mut fs = Fs::new();
    // <root>/dir/ exists as a real dir; write dir/f.txt works.
    let parent = "/tmp/sym-real-dir".to_string();
    fs.make_dirs(&parent);
    let root = join(&parent, "root");
    fs.make_dirs(&join(&root, "dir"));
    fs.run(|r| WriteTool { root: Some(root.clone()) }.call(r#"{"path":"dir/f.txt","content":"hello"}"#, r)).unwrap();
    assert_eq!(
        fs.text(join(&root, "dir/f.txt")),
        "hello"
    );
}

#[test]
fn edit_inside_root_real_file_succeeds() {
    let mut fs = Fs::new();
    let parent = "/tmp/sym-edit-real".to_string();
    fs.make_dirs(&parent);
    let root = join(&parent, "root");
    fs.make_dirs(&root);
    fs.put(join(&root, "f.txt"), "hello world\n");
    fs.run(|r| EditTool { root: Some(root.clone()) }.call(r#"{"path":"f.txt","old_text":"world","new_text":"there"}"#, r)).unwrap();
    assert_eq!(
        fs.text(join(&root, "f.txt")),
        "hello there\n"
    );
}

#[test]
fn read_refuses_hard_linked_file() {
    let mut fs = Fs::new();
    let parent = "/tmp/hl-read".to_string();
    fs.make_dirs(&parent);
    let root = join(&parent, "root");
    fs.make_dirs(&root);
    fs.put(join(&root, "a.txt"), b"shared content");
    fs.hard_link(join(&root, "a.txt"), join(&root, "b.txt"));
    let err = fs.run(|r| ReadTool { root: Some(root.clone()) }.call(r#"{"path":"a.txt"}"#, r)).unwrap_err();
    assert!(
        err.0.contains("hard-linked"),
        "expected hard-link refusal, got: {}",
        err.0
    );
}

#[test]
fn write_refuses_hard_linked_file() {
    let mut fs = Fs::new();
    let parent = "/tmp/hl-write".to_string();
    fs.make_dirs(&parent);
    let root = join(&parent, "root");
    fs.make_dirs(&root);
    fs.put(join(&root, "a.txt"), b"original");
    fs.hard_link(join(&root, "a.txt"), join(&root, "b.txt"));
    let err = fs.run(|r| WriteTool { root: Some(root.clone()) }.call(r#"{"path":"a.txt","content":"replacement"}"#, r)).unwrap_err();
    assert!(err.0.contains("hard-linked"), "got: {}", err.0);
    assert_eq!(fs.text(join(&root, "a.txt")), "original");
}

#[test]
fn edit_refuses_hard_linked_file() {
    let mut fs = Fs::new();
    let parent = "/tmp/hl-edit".to_string();
    fs.make_dirs(&parent);
    let root = join(&parent, "root");
    fs.make_dirs(&root);
    fs.put(join(&root, "a.txt"), b"hello world");
    fs.hard_link(join(&root, "a.txt"), join(&root, "b.txt"));
    let err = fs.run(|r| EditTool { root: Some(root.clone()) }.call(r#"{"path":"a.txt","old_text":"world","new_text":"there"}"#, r)).unwrap_err();
    assert!(err.0.contains("hard-linked"), "got: {}", err.0);
}

#[test]
fn rootless_hard_link_follows() {
    let mut fs = Fs::new();
    let parent = "/tmp/hl-rootless".to_string();
    fs.make_dirs(&parent);
    fs.put(join(&parent, "a.txt"), b"shared content");
    fs.hard_link(join(&parent, "a.txt"), join(&parent, "b.txt"));
    let out = fs.run(|r| ReadTool { root: None }.call(&format!(
                r#"{{"path":"{}"}}"#,
                join(&parent, "a.txt")
            ), r)).unwrap();
    assert!(out.contains("shared content"));
}

#[test]
fn tool_definitions_round_trip() {
    let r = ReadTool { root: None };
    let w = WriteTool { root: None };
    let e = EditTool { root: None };
    assert_eq!(r.name(), "read_file");
    assert_eq!(w.name(), "write_file");
    assert_eq!(e.name(), "edit_file");
    for s in [r.input_schema(), w.input_schema(), e.input_schema()] {
        assert!(s.contains("\"required\""), "schema missing required: {s}");
    }
}

#[test]
fn edit_of_an_empty_text_is_refused() {
    let mut fs = Fs::new();
    fs.put("/tmp/f", "abc");
    let tool = EditTool { root: None };
    let input = r#"{"path":"/tmp/f","old_text":"","new_text":"x"}"#;
    assert!(fs.run(|r| tool.call(input, r)).is_err());
    assert_eq!(fs.text("/tmp/f"), "abc");
}

#[test]
fn read_past_the_end_gives_nothing() {
    let mut fs = Fs::new();
    fs.put("/tmp/f", "a\nb\n");
    let tool = ReadTool { root: None };
    let input = r#"{"path":"/tmp/f","offset":18446744073709551615}"#;
    assert_eq!(fs.run(|r| tool.call(input, r)).unwrap(), "");
}

#[test]
fn read_of_bytes_that_are_no_text_is_refused() {
    let mut fs = Fs::new();
    fs.put("/tmp/f", b"ab\xff");
    let tool = ReadTool { root: None };
    let err = fs.run(|r| tool.call(r#"{"path":"/tmp/f"}"#, r)).unwrap_err();
    assert!(err.0.contains("invalid utf-8 sequence of 1 bytes from index 2"), "got: {}", err.0);
}

#[test]
fn spare_answers_change_nothing_for_tools() {
    let replies = vec![FsReply::Path("/x".to_string()), FsReply::Done, FsReply::Done];
    let step = ReadTool { root: None }.call(r#"{"path":"a/../b"}"#, &replies);
    assert!(matches!(step, ToolStep::Failed(e) if e.0 == "path traversal not allowed: a/../b"));
}

#[test]
fn overlapping_places_are_ambiguous() {
    let mut fs = Fs::new();
    fs.put("/tmp/f", "aaa");
    let tool = EditTool { root: None };
    let input = r#"{"path":"/tmp/f","old_text":"aa","new_text":"b"}"#;
    let err = fs.run(|r| tool.call(input, r)).unwrap_err();
    assert_eq!(err.0, "old_text appears 2 times; refusing ambiguous edit");
    assert_eq!(fs.text("/tmp/f"), "aaa");
    let input = r#"{"path":"/tmp/f","old_text":"aaa","new_text":"b"}"#;
    fs.run(|r| tool.call(input, r)).unwrap();
    assert_eq!(fs.text("/tmp/f"), "b");
}

#[test]
fn dots_are_refused_under_a_root() {
    let mut fs = Fs::new();
    fs.make_dirs("/tmp/dots");
    fs.put("/tmp/dots/a", "x");
    for path in ["./a", ".", "a/.", "b/./a", "../a", "b/../a"] {
        let tool = ReadTool { root: Some("/tmp/dots".to_string()) };
        let input = format!(r#"{{"path":"{path}"}}"#);
        let err = fs.run(|r| tool.call(&input, r)).unwrap_err();
        assert_eq!(err.0, format!("path traversal not allowed: {path}"));
        assert!(user_components(path).is_err());
    }
    assert_eq!(user_components("b//.a/").unwrap(), vec!["b".to_string(), ".a".to_string()]);
    assert!(user_components("/a").is_err());
    let tool = ReadTool { root: None };
    assert_eq!(fs.run(|r| tool.call(r#"{"path":"/tmp/./dots/a"}"#, r)).unwrap(), "1\tx\n");
}

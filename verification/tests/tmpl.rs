//! Templates, skills and roles.

use std::collections::HashMap;

use sandcastle::table::Table;
use sandcastle::tmpl::{
    load_role, load_skill, parse_frontmatter, role_path, skill_path, split_frontmatter,
    substitute, substitute_warn_unused, Role, Skill, TmplError,
};

fn args(pairs: &[(&str, &str)]) -> Table<String> {
    let mut t = Table::new();
    for (k, v) in pairs {
        t.set(k.to_string(), v.to_string());
    }
    t
}

/// A directory with the files of skills and roles.
struct Tree {
    files: HashMap<String, String>,
}

impl Tree {
    fn new() -> Tree {
        Tree { files: HashMap::new() }
    }

    fn write_skill(&mut self, name: &str, contents: &str) {
        self.files.insert(format!("/r/.agents/skills/{name}.md"), contents.to_string());
    }

    fn write_role(&mut self, name: &str, contents: &str) {
        self.files.insert(format!("/r/.agents/roles/{name}.md"), contents.to_string());
    }

    fn read(&self, path: &str) -> Result<String, String> {
        self.files.get(path).cloned().ok_or("No such file or directory (os error 2)".to_string())
    }

    fn load_skill(&self, name: &str) -> Result<Skill, TmplError> {
        load_skill(name, self.read(&skill_path("/r", name)))
    }

    fn load_role(&self, name: &str) -> Result<Role, TmplError> {
        load_role(name, self.read(&role_path("/r", name)))
    }
}

#[test]
fn substitute_zero_args() {
    let out = substitute("hello world", &Table::new()).unwrap();
    assert_eq!(out, "hello world");
}

#[test]
fn substitute_one_arg_middle() {
    let out = substitute("a {{X}} b", &args(&[("X", "Y")])).unwrap();
    assert_eq!(out, "a Y b");
}

#[test]
fn substitute_key_at_start() {
    let out = substitute("{{X}}!", &args(&[("X", "hi")])).unwrap();
    assert_eq!(out, "hi!");
}

#[test]
fn substitute_key_at_end() {
    let out = substitute("end:{{X}}", &args(&[("X", "Z")])).unwrap();
    assert_eq!(out, "end:Z");
}

#[test]
fn substitute_many_args() {
    let out =
        substitute("{{A}}-{{B}}-{{C}}", &args(&[("A", "1"), ("B", "2"), ("C", "3")])).unwrap();
    assert_eq!(out, "1-2-3");
}

#[test]
fn substitute_repeated_key() {
    let out = substitute("{{X}} and {{X}}", &args(&[("X", "ok")])).unwrap();
    assert_eq!(out, "ok and ok");
}

#[test]
fn substitute_underscore_and_digit_keys() {
    let out = substitute(
        "{{ISSUE_NUMBER}}/{{SEV2}}",
        &args(&[("ISSUE_NUMBER", "42"), ("SEV2", "hi")]),
    )
    .unwrap();
    assert_eq!(out, "42/hi");
}

#[test]
fn substitute_missing_arg_errors_with_key() {
    let err = substitute("a {{NOPE}} b", &Table::new()).unwrap_err();
    match err {
        TmplError::MissingArg(k) => assert_eq!(k, "NOPE"),
        other => panic!("wrong error: {other:?}"),
    }
}

#[test]
fn substitute_lowercase_key_is_syntax_error() {
    let err = substitute("{{lower}}", &Table::new()).unwrap_err();
    assert!(matches!(err, TmplError::BadFrontmatter(_)));
}

#[test]
fn substitute_leading_digit_key_is_syntax_error() {
    let err = substitute("{{1X}}", &Table::new()).unwrap_err();
    assert!(matches!(err, TmplError::BadFrontmatter(_)));
}

#[test]
fn substitute_punctuation_in_key_is_syntax_error() {
    let err = substitute("{{X-Y}}", &Table::new()).unwrap_err();
    assert!(matches!(err, TmplError::BadFrontmatter(_)));
}

#[test]
fn substitute_empty_key_is_syntax_error() {
    let err = substitute("{{}}", &Table::new()).unwrap_err();
    assert!(matches!(err, TmplError::BadFrontmatter(_)));
}

#[test]
fn substitute_single_brace_is_literal() {
    let out = substitute("a { b } c", &Table::new()).unwrap();
    assert_eq!(out, "a { b } c");
}

#[test]
fn substitute_unterminated_open_errors() {
    let err = substitute("hello {{X", &args(&[("X", "v")])).unwrap_err();
    assert!(matches!(err, TmplError::BadFrontmatter(_)));
}

#[test]
fn substitute_nested_braces_refused() {
    let err = substitute("{{{{X}}}}", &args(&[("X", "v")])).unwrap_err();
    assert!(matches!(err, TmplError::BadFrontmatter(_)));
}

#[test]
fn substitute_warn_unused_returns_unused_keys() {
    let (out, unused) =
        substitute_warn_unused("use {{A}}", &args(&[("A", "1"), ("B", "2"), ("C", "3")]))
            .unwrap();
    assert_eq!(out, "use 1");
    let mut unused = unused;
    unused.sort();
    assert_eq!(unused, vec!["B".to_string(), "C".to_string()]);
}

#[test]
fn substitute_warn_unused_empty_when_all_used() {
    let (_out, unused) =
        substitute_warn_unused("{{A}}{{B}}", &args(&[("A", "x"), ("B", "y")])).unwrap();
    assert!(unused.is_empty());
}

#[test]
fn load_skill_with_frontmatter_and_render() {
    let mut root = Tree::new();
    root.write_skill(
        "triage",
        "---\nname: triage\ndescription: Triage incoming issues\nargs:\n  - issue_number\n  - severity\n---\n\nIssue {{ISSUE_NUMBER}} (sev {{SEVERITY}}).\n",
    );
    let s = root.load_skill("triage").unwrap();
    assert_eq!(s.name, "triage");
    assert_eq!(s.description.as_deref(), Some("Triage incoming issues"));
    assert_eq!(s.args, vec!["issue_number".to_string(), "severity".to_string()]);
    let rendered = s.render(&args(&[("ISSUE_NUMBER", "42"), ("SEVERITY", "high")])).unwrap();
    assert_eq!(rendered, "Issue 42 (sev high).\n");
}

#[test]
fn load_skill_without_frontmatter_body_is_whole_file() {
    let mut root = Tree::new();
    let body = "plain markdown with {{X}}.\nNo frontmatter.\n";
    root.write_skill("plain", body);
    let s = root.load_skill("plain").unwrap();
    assert_eq!(s.name, "plain"); // defaults to filename stem
    assert_eq!(s.description, None);
    assert!(s.args.is_empty());
    assert_eq!(s.body, body);
}

#[test]
fn load_skill_missing_file_returns_io_error() {
    let mut root = Tree::new();
    let err = root.load_skill("nope").unwrap_err();
    assert!(matches!(err, TmplError::Io(_)), "got {err:?}");
}

#[test]
fn load_skill_unclosed_frontmatter_errors() {
    let mut root = Tree::new();
    root.write_skill("broken", "---\nname: x\nno closer here\n");
    let err = root.load_skill("broken").unwrap_err();
    assert!(matches!(err, TmplError::BadFrontmatter(_)), "got {err:?}");
}

#[test]
fn load_skill_unknown_frontmatter_key_errors() {
    let mut root = Tree::new();
    root.write_skill("weird", "---\nfoo: bar\n---\nbody\n");
    let err = root.load_skill("weird").unwrap_err();
    match err {
        TmplError::BadFrontmatter(msg) => assert!(msg.contains("foo"), "msg={msg}"),
        other => panic!("wrong error: {other:?}"),
    }
}

#[test]
fn load_skill_args_value_form_errors() {
    let mut root = Tree::new();
    // `args: foo` (value on same line) is illegal — must be a list.
    root.write_skill("bad", "---\nargs: foo\n---\nbody\n");
    let err = root.load_skill("bad").unwrap_err();
    assert!(matches!(err, TmplError::BadFrontmatter(_)));
}

#[test]
fn load_role_basic() {
    let mut root = Tree::new();
    root.write_role("auditor", "---\nname: code-auditor\n---\nYou are a code auditor.\n");
    let r = root.load_role("auditor").unwrap();
    assert_eq!(r.name, "code-auditor");
    assert_eq!(r.system_prompt, "You are a code auditor.\n");
}

#[test]
fn load_role_without_frontmatter_uses_filename() {
    let mut root = Tree::new();
    root.write_role("helper", "Be helpful.\n");
    let r = root.load_role("helper").unwrap();
    assert_eq!(r.name, "helper");
    assert_eq!(r.system_prompt, "Be helpful.\n");
}

#[test]
fn load_role_malformed_frontmatter_errors() {
    let mut root = Tree::new();
    // No colon on a line.
    root.write_role("broken", "---\njust some text\n---\nbody\n");
    let err = root.load_role("broken").unwrap_err();
    assert!(matches!(err, TmplError::BadFrontmatter(_)));
}

#[test]
fn empty_args_list_under_args_key_is_ok() {
    // `args:` followed immediately by `---` means "no args".
    let mut root = Tree::new();
    root.write_skill("noargs", "---\nname: x\nargs:\n---\nbody {{X}}\n");
    let s = root.load_skill("noargs").unwrap();
    assert!(s.args.is_empty());
    assert_eq!(s.body, "body {{X}}\n");
}

#[test]
fn tmpl_loads_and_renders_skill() {
    let mut root = Tree::new();
    root.write_skill("test", "Hello {{NAME}}\n");
    let skill = root.load_skill("test").unwrap();
    assert_eq!(skill.name, "test");
    let rendered = skill.render(&args(&[("NAME", "world")])).unwrap();
    assert_eq!(rendered, "Hello world\n");
}

#[test]
fn blank_lines_do_not_end_a_list() {
    let f = parse_frontmatter("args:\n  - a\n\n  # note\n\t- b\n").unwrap();
    assert_eq!(f.args, vec!["a".to_string(), "b".to_string()]);
    assert_eq!(f.name, None);
    assert_eq!(f.description, None);
}

#[test]
fn list_items_are_indented() {
    for src in ["args:\n- x\n", "args:\n- x: y\n", "args:\n-\n", "args:\n  -\n"] {
        assert!(matches!(parse_frontmatter(src), Err(TmplError::BadFrontmatter(_))), "{src:?}");
    }
}

#[test]
fn frontmatter_and_body_come_back() {
    for (fm, body) in [("", ""), ("name: x\n", "body\n"), ("\n--- \n", "---\nrest")] {
        let want = Some(fm.to_string());
        let (front, back) = split_frontmatter(&format!("---\n{fm}---\n{body}")).unwrap();
        assert_eq!((front, back.as_str()), (want.clone(), body));
        let (front, back) = split_frontmatter(&format!("---\n{fm}---\n\n{body}")).unwrap();
        assert_eq!((front, back.as_str()), (want, body));
    }
    let (front, back) = split_frontmatter("--- \nbody").unwrap();
    assert_eq!((front, back.as_str()), (None, "--- \nbody"));
    assert!(matches!(split_frontmatter("---\nx"), Err(TmplError::BadFrontmatter(_))));
}

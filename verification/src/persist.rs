//! Histories in files: one JSON file `<root>/<key>.json` for each session.
//!
//! Keys may come from URLs, so whatever could leave the root or hide a file is refused.
//! A file is replaced as a whole: the new text goes to `<root>/<key>.json.tmp`, which is
//! then renamed. Reading and writing the files is the caller's part.

use vstd::prelude::*;
use vstd::utf8::*;

use crate::harness::model::{
    blocks, history_view, Block, ChatMessage, ContentBlock, Role, Said,
};
use crate::harness::store::StoreError;
use crate::json::{
    array_json, bool_json, bool_text, document, is_number, json_to_string, law_read_write,
    law_write_read, lemma_array, lemma_number, lemma_object, lemma_string, member, member_from,
    member_str, num_end, object_json, parse, parsed, push_shown, raw_arr, raw_members, raw_obj,
    show, str_json, str_text, text, vals_of, value, Json, Val,
};
use crate::paths::{path_for, path_in};
use crate::text::{chars_of, dec, push_dec, quote, quoted, text_eq, texts, trim, trimmed};

verus! {

/// The longest key, in characters.
pub const MAX_KEY_LEN: usize = 200;

/// Keeps histories in the files of a directory.
#[derive(Debug)]
pub struct FileStore {
    pub root: String,
}

// ---------------------------------------------------------------------------------
// Keys
// ---------------------------------------------------------------------------------
pub open spec fn has_char(s: Seq<char>, c: char) -> bool {
    exists|i: int| 0 <= i < s.len() && #[trigger] s[i] == c
}

/// Two dots in a row.
pub open spec fn has_dots(s: Seq<char>) -> bool {
    exists|i: int| 0 <= i < s.len() - 1 && #[trigger] s[i] == '.' && s[i + 1] == '.'
}

pub open spec fn is_control(c: char) -> bool {
    c <= '\u{1f}' || c == '\u{7f}'
}

pub open spec fn has_control(s: Seq<char>) -> bool {
    exists|i: int| 0 <= i < s.len() && is_control(#[trigger] s[i])
}

/// Why a key is refused, if it is.
pub open spec fn key_fault(key: Seq<char>) -> Option<Seq<char>> {
    if key.len() == 0 {
        Some("empty key"@)
    } else if key.len() > MAX_KEY_LEN {
        Some("key too long ("@ + dec(key.len()) + " > 200)"@)
    } else if key[0] == '.' {
        Some("key may not start with '.': "@ + quoted(key))
    } else if has_char(key, '/') || has_char(key, '\\') {
        Some("key may not contain separators: "@ + quoted(key))
    } else if has_dots(key) {
        Some("key may not contain '..': "@ + quoted(key))
    } else if has_control(key) {
        Some("key contains control byte: "@ + quoted(key))
    } else {
        None
    }
}

fn refuse(why: &str, key: &str) -> (e: StoreError)
    ensures
        e.0@ == why@ + quoted(key@),
{
    let mut msg = why.to_owned();
    msg.push_str(quote(key).as_str());
    StoreError(msg)
}

fn validate_key(key: &str) -> (res: Result<(), StoreError>)
    ensures
        match res {
            Ok(_) => key_fault(key@) is None,
            Err(e) => key_fault(key@) == Some(e.0@),
        },
{
    let chars = chars_of(key);
    if chars.len() == 0 {
        return Err(StoreError("empty key".to_owned()));
    }
    let n = chars.len();
    if n > MAX_KEY_LEN {
        let mut msg = "key too long (".to_owned();
        push_dec(&mut msg, n as u128);
        msg.push_str(" > 200)");
        return Err(StoreError(msg));
    }
    if chars[0] == '.' {
        return Err(refuse("key may not start with '.': ", key));
    }
    let mut separator = false;
    let mut dots = false;
    let mut control = false;
    let mut i: usize = 0;
    while i < chars.len()
        invariant
            i <= chars@.len(),
            chars@ == key@,
            separator == exists|k: int|
                0 <= k < i && (#[trigger] key@[k] == '/' || key@[k] == '\\'),
            dots == exists|k: int|
                0 <= k < i && k < key@.len() - 1 && #[trigger] key@[k] == '.' && key@[k + 1] == '.',
            control == exists|k: int| 0 <= k < i && is_control(#[trigger] key@[k]),
        decreases chars.len() - i,
    {
        let c = chars[i];
        if c == '/' || c == '\\' {
            separator = true;
        }
        if c == '.' && chars.len() - i > 1 && chars[i + 1] == '.' {
            dots = true;
        }
        if c <= '\u{1f}' || c == '\u{7f}' {
            control = true;
        }
        i += 1;
    }
    if separator {
        return Err(refuse("key may not contain separators: ", key));
    }
    proof {
        assert(!has_char(key@, '/') && !has_char(key@, '\\'));
    }
    if dots {
        return Err(refuse("key may not contain '..': ", key));
    }
    if control {
        return Err(refuse("key contains control byte: ", key));
    }
    Ok(())
}

/// The file of a key.
pub open spec fn file_of(root: Seq<char>, key: Seq<char>) -> Seq<char> {
    path_in(root, key + ".json"@)
}

/// The file that a key is written to before it takes the place of the old one.
pub open spec fn temp_of(root: Seq<char>, key: Seq<char>) -> Seq<char> {
    path_in(root, key + ".json.tmp"@)
}

// ---------------------------------------------------------------------------------
// Writing
// ---------------------------------------------------------------------------------
/// The input of a tool use in a file: as it stands, or an empty object where it is blank.
pub open spec fn input_text(input: Seq<char>) -> Seq<char> {
    if trim(input).len() == 0 {
        "{}"@
    } else {
        input
    }
}

pub open spec fn block_text(b: Block) -> Seq<char> {
    match b {
        Block::Text(t) => raw_obj(
            seq![("type"@, str_text("text"@)), ("text"@, str_text(t))],
        ),
        Block::ToolUse { id, name, input } => raw_obj(
            seq![
                ("type"@, str_text("tool_use"@)),
                ("id"@, str_text(id)),
                ("name"@, str_text(name)),
                ("input"@, input_text(input)),
            ],
        ),
        Block::ToolResult { tool_use_id, content, is_error } => raw_obj(
            seq![
                ("type"@, str_text("tool_result"@)),
                ("tool_use_id"@, str_text(tool_use_id)),
                ("content"@, str_text(content)),
                ("is_error"@, bool_text(is_error)),
            ],
        ),
    }
}

pub open spec fn role_name(r: Role) -> Seq<char> {
    match r {
        Role::User => "user"@,
        Role::Assistant => "assistant"@,
    }
}

pub open spec fn message_text(m: Said) -> Seq<char> {
    raw_obj(
        seq![
            ("role"@, str_text(role_name(m.role))),
            ("content"@, raw_arr(Seq::new(m.content.len(), |i: int| block_text(m.content[i])))),
        ],
    )
}

/// The text of the file of a history.
pub open spec fn history_text(h: Seq<Said>) -> Seq<char> {
    raw_obj(
        seq![
            ("version"@, "1"@),
            ("messages"@, raw_arr(Seq::new(h.len(), |i: int| message_text(h[i])))),
        ],
    )
}

fn serialize_block(b: &ContentBlock) -> (res: String)
    ensures
        res@ == block_text(b@),
{
    let mut m: Vec<(&str, String)> = Vec::new();
    match b {
        ContentBlock::Text(t) => {
            m.push(("type", str_json("text")));
            m.push(("text", str_json(t.as_str())));
            proof {
                assert(raw_members(m@) =~= seq![
                    ("type"@, str_text("text"@)),
                    ("text"@, str_text(t@)),
                ]);
            }
        },
        ContentBlock::ToolUse { id, name, input } => {
            m.push(("type", str_json("tool_use")));
            m.push(("id", str_json(id.as_str())));
            m.push(("name", str_json(name.as_str())));
            if trimmed(input.as_str()).as_str().is_empty() {
                m.push(("input", "{}".to_owned()));
            } else {
                m.push(("input", input.clone()));
            }
            proof {
                assert(raw_members(m@) =~= seq![
                    ("type"@, str_text("tool_use"@)),
                    ("id"@, str_text(id@)),
                    ("name"@, str_text(name@)),
                    ("input"@, input_text(input@)),
                ]);
            }
        },
        ContentBlock::ToolResult { tool_use_id, content, is_error } => {
            m.push(("type", str_json("tool_result")));
            m.push(("tool_use_id", str_json(tool_use_id.as_str())));
            m.push(("content", str_json(content.as_str())));
            m.push(("is_error", bool_json(*is_error)));
            proof {
                assert(raw_members(m@) =~= seq![
                    ("type"@, str_text("tool_result"@)),
                    ("tool_use_id"@, str_text(tool_use_id@)),
                    ("content"@, str_text(content@)),
                    ("is_error"@, bool_text(*is_error)),
                ]);
            }
        },
    }
    object_json(&m)
}

fn serialize_message(m: &ChatMessage) -> (res: String)
    ensures
        res@ == message_text(m@),
{
    let mut parts: Vec<String> = Vec::new();
    let mut i: usize = 0;
    while i < m.content.len()
        invariant
            i <= m.content@.len(),
            parts@.len() == i,
            forall|k: int| 0 <= k < i ==> (#[trigger] parts@[k])@ == block_text(m.content@[k]@),
        decreases m.content.len() - i,
    {
        parts.push(serialize_block(&m.content[i]));
        i += 1;
    }
    let role = match m.role {
        Role::User => "user",
        Role::Assistant => "assistant",
    };
    let mut o: Vec<(&str, String)> = Vec::new();
    o.push(("role", str_json(role)));
    o.push(("content", array_json(&parts)));
    proof {
        assert(texts(parts@) =~= Seq::new(m@.content.len(), |k: int| block_text(m@.content[k])));
        assert(raw_members(o@) =~= seq![
            ("role"@, str_text(role_name(m.role))),
            ("content"@, raw_arr(texts(parts@))),
        ]);
    }
    object_json(&o)
}

/// The text of the file of a history.
pub fn serialize(history: &Vec<ChatMessage>) -> (res: String)
    ensures
        res@ == history_text(history_view(history@)),
{
    let ghost h = history_view(history@);
    let mut parts: Vec<String> = Vec::new();
    let mut i: usize = 0;
    while i < history.len()
        invariant
            i <= history@.len(),
            parts@.len() == i,
            forall|k: int| 0 <= k < i ==> (#[trigger] parts@[k])@ == message_text(history@[k]@),
        decreases history.len() - i,
    {
        parts.push(serialize_message(&history[i]));
        i += 1;
    }
    let mut o: Vec<(&str, String)> = Vec::new();
    o.push(("version", "1".to_owned()));
    o.push(("messages", array_json(&parts)));
    proof {
        assert(texts(parts@) =~= Seq::new(h.len(), |k: int| message_text(h[k])));
        assert(raw_members(o@) =~= seq![
            ("version"@, "1"@),
            ("messages"@, raw_arr(texts(parts@))),
        ]);
    }
    object_json(&o)
}

// ---------------------------------------------------------------------------------
// Reading
// ---------------------------------------------------------------------------------
/// The block that a value stands for, or why it stands for none.
pub open spec fn block_of(v: Val) -> Result<Block, Seq<char>> {
    match member_str(v, "type"@) {
        None => Err("missing type"@),
        Some(ty) => if ty == "text"@ {
            match member_str(v, "text"@) {
                Some(t) => Ok(Block::Text(t)),
                None => Err("text: missing text"@),
            }
        } else if ty == "tool_use"@ {
            match (member_str(v, "id"@), member_str(v, "name"@), member(v, "input"@)) {
                (None, _, _) => Err("tool_use: missing id"@),
                (_, None, _) => Err("tool_use: missing name"@),
                (_, _, None) => Err("tool_use: missing input"@),
                (Some(id), Some(name), Some(input)) => Ok(
                    Block::ToolUse { id, name, input: text(input) },
                ),
            }
        } else if ty == "tool_result"@ {
            match (member_str(v, "tool_use_id"@), member_str(v, "content"@)) {
                (None, _) => Err("tool_result: missing tool_use_id"@),
                (_, None) => Err("tool_result: missing content"@),
                (Some(tool_use_id), Some(content)) => match member(v, "is_error"@) {
                    Some(Val::Bool(is_error)) => Ok(
                        Block::ToolResult { tool_use_id, content, is_error },
                    ),
                    None => Ok(Block::ToolResult { tool_use_id, content, is_error: false }),
                    _ => Err("tool_result: is_error not bool"@),
                },
            }
        } else {
            Err("unknown block type "@ + quoted(ty))
        },
    }
}

/// The blocks that values from `i` on stand for, behind those so far.
pub open spec fn blocks_of(a: Seq<Val>, i: int, acc: Seq<Block>) -> Result<Seq<Block>, Seq<char>>
    decreases a.len() - i,
{
    if i < 0 || i >= a.len() {
        Ok(acc)
    } else {
        match block_of(a[i]) {
            Ok(b) => blocks_of(a, i + 1, acc.push(b)),
            Err(e) => Err("block["@ + dec(i as nat) + "]: "@ + e),
        }
    }
}

/// The message that a value stands for, or why it stands for none.
pub open spec fn message_of(v: Val) -> Result<Said, Seq<char>> {
    match member_str(v, "role"@) {
        None => Err("missing role"@),
        Some(r) => if r != "user"@ && r != "assistant"@ {
            Err("unknown role "@ + quoted(r))
        } else {
            match member(v, "content"@) {
                Some(Val::Arr(a)) => match blocks_of(a, 0, Seq::empty()) {
                    Ok(content) => Ok(
                        Said {
                            role: if r == "user"@ {
                                Role::User
                            } else {
                                Role::Assistant
                            },
                            content,
                        },
                    ),
                    Err(e) => Err(e),
                },
                _ => Err("content not an array"@),
            }
        },
    }
}

/// The messages that values from `i` on stand for, behind those so far.
pub open spec fn messages_of(a: Seq<Val>, i: int, acc: Seq<Said>) -> Result<Seq<Said>, Seq<char>>
    decreases a.len() - i,
{
    if i < 0 || i >= a.len() {
        Ok(acc)
    } else {
        match message_of(a[i]) {
            Ok(m) => messages_of(a, i + 1, acc.push(m)),
            Err(e) => Err("message["@ + dec(i as nat) + "]: "@ + e),
        }
    }
}

/// The history that a value stands for, or why it stands for none.
pub open spec fn history_of(v: Val) -> Result<Seq<Said>, Seq<char>> {
    match member(v, "version"@) {
        None => Err("missing version"@),
        Some(ver) => if ver != Val::Num("1"@) {
            Err("unsupported version "@ + show(ver))
        } else {
            match member(v, "messages"@) {
                Some(Val::Arr(a)) => messages_of(a, 0, Seq::empty()),
                _ => Err("messages not an array"@),
            }
        },
    }
}

/// The history in the file at `path` with the given bytes, or what is wrong with it.
pub open spec fn history_in(path: Seq<char>, b: Seq<u8>) -> Result<Seq<Said>, Seq<char>> {
    match parsed(b) {
        None => Err("parse "@ + path + ": "@ + "invalid response: invalid JSON"@),
        Some(v) => match history_of(v) {
            Ok(h) => Ok(h),
            Err(e) => Err(path + ": "@ + e),
        },
    }
}

fn parse_block(v: &Json) -> (res: Result<ContentBlock, String>)
    ensures
        match res {
            Ok(b) => block_of(v@) == Ok::<_, Seq<char>>(b@),
            Err(e) => block_of(v@) == Err::<Block, _>(e@),
        },
{
    let ty = match v.get_str("type") {
        Some(t) => t,
        None => {
            return Err("missing type".to_owned());
        },
    };
    if text_eq(ty, "text") {
        match v.get_str("text") {
            Some(t) => Ok(ContentBlock::Text(t.to_owned())),
            None => Err("text: missing text".to_owned()),
        }
    } else if text_eq(ty, "tool_use") {
        let id = match v.get_str("id") {
            Some(t) => t.to_owned(),
            None => {
                return Err("tool_use: missing id".to_owned());
            },
        };
        let name = match v.get_str("name") {
            Some(t) => t.to_owned(),
            None => {
                return Err("tool_use: missing name".to_owned());
            },
        };
        match v.get("input") {
            Some(input) => Ok(ContentBlock::ToolUse { id, name, input: json_to_string(input) }),
            None => Err("tool_use: missing input".to_owned()),
        }
    } else if text_eq(ty, "tool_result") {
        let tool_use_id = match v.get_str("tool_use_id") {
            Some(t) => t.to_owned(),
            None => {
                return Err("tool_result: missing tool_use_id".to_owned());
            },
        };
        let content = match v.get_str("content") {
            Some(t) => t.to_owned(),
            None => {
                return Err("tool_result: missing content".to_owned());
            },
        };
        match v.get("is_error") {
            Some(Json::Bool(b)) => Ok(
                ContentBlock::ToolResult { tool_use_id, content, is_error: *b },
            ),
            None => Ok(ContentBlock::ToolResult { tool_use_id, content, is_error: false }),
            _ => Err("tool_result: is_error not bool".to_owned()),
        }
    } else {
        let mut msg = "unknown block type ".to_owned();
        msg.push_str(quote(ty).as_str());
        Err(msg)
    }
}

/// `what[i]: why`
fn at_index(what: &str, i: usize, why: &str) -> (res: String)
    ensures
        res@ == what@ + dec(i as nat) + "]: "@ + why@,
{
    let mut msg = what.to_owned();
    push_dec(&mut msg, i as u128);
    msg.push_str("]: ");
    msg.push_str(why);
    msg
}

fn parse_message(v: &Json) -> (res: Result<ChatMessage, String>)
    ensures
        match res {
            Ok(m) => message_of(v@) == Ok::<_, Seq<char>>(m@),
            Err(e) => message_of(v@) == Err::<Said, _>(e@),
        },
{
    let name = match v.get_str("role") {
        Some(t) => t,
        None => {
            return Err("missing role".to_owned());
        },
    };
    let role = if text_eq(name, "user") {
        Role::User
    } else if text_eq(name, "assistant") {
        Role::Assistant
    } else {
        let mut msg = "unknown role ".to_owned();
        msg.push_str(quote(name).as_str());
        return Err(msg);
    };
    let a = match v.get("content") {
        Some(Json::Arr(a)) => a,
        _ => {
            return Err("content not an array".to_owned());
        },
    };
    let ghost vals = vals_of(a@);
    let mut content: Vec<ContentBlock> = Vec::new();
    let mut i: usize = 0;
    proof {
        assert(blocks(content@) =~= Seq::<Block>::empty());
    }
    while i < a.len()
        invariant
            i <= a@.len(),
            vals == vals_of(a@),
            blocks_of(vals, 0, Seq::empty()) == blocks_of(vals, i as int, blocks(content@)),
            member(v@, "content"@) == Some(Val::Arr(vals)),
            member_str(v@, "role"@) == Some(name@),
            name@ == role_name(role),
        decreases a.len() - i,
    {
        let ghost before = content@;
        proof {
            assert(vals[i as int] == a@[i as int]@);
        }
        match parse_block(&a[i]) {
            Ok(b) => {
                content.push(b);
                proof {
                    assert(blocks(content@) =~= blocks(before).push(b@));
                }
            },
            Err(e) => {
                return Err(at_index("block[", i, e.as_str()));
            },
        }
        i += 1;
    }
    Ok(ChatMessage { role, content })
}

fn parse_history(v: &Json) -> (res: Result<Vec<ChatMessage>, String>)
    ensures
        match res {
            Ok(h) => history_of(v@) == Ok::<_, Seq<char>>(history_view(h@)),
            Err(e) => history_of(v@) == Err::<Seq<Said>, _>(e@),
        },
{
    let ver = match v.get("version") {
        Some(ver) => ver,
        None => {
            return Err("missing version".to_owned());
        },
    };
    let known = match ver {
        Json::Num(n) => text_eq(n.as_str(), "1"),
        _ => false,
    };
    if !known {
        let mut msg = "unsupported version ".to_owned();
        push_shown(&mut msg, ver);
        return Err(msg);
    }
    let a = match v.get("messages") {
        Some(Json::Arr(a)) => a,
        _ => {
            return Err("messages not an array".to_owned());
        },
    };
    let ghost vals = vals_of(a@);
    let mut h: Vec<ChatMessage> = Vec::new();
    let mut i: usize = 0;
    proof {
        assert(history_view(h@) =~= Seq::<Said>::empty());
    }
    while i < a.len()
        invariant
            i <= a@.len(),
            vals == vals_of(a@),
            messages_of(vals, 0, Seq::empty()) == messages_of(vals, i as int, history_view(h@)),
            history_of(v@) == messages_of(vals, 0, Seq::empty()),
        decreases a.len() - i,
    {
        let ghost before = h@;
        proof {
            assert(vals[i as int] == a@[i as int]@);
        }
        match parse_message(&a[i]) {
            Ok(m) => {
                h.push(m);
                proof {
                    assert(history_view(h@) =~= history_view(before).push(m@));
                }
            },
            Err(e) => {
                return Err(at_index("message[", i, e.as_str()));
            },
        }
        i += 1;
    }
    Ok(h)
}

// ---------------------------------------------------------------------------------
// The store
// ---------------------------------------------------------------------------------
/// What reading a file gave.
#[derive(Debug)]
pub enum FileRead {
    /// There is no such file.
    Missing,
    /// It could not be read, with this error text.
    Failed(String),
    Bytes(Vec<u8>),
}

/// What to write to save a history: `body` to `tmp`, which then becomes `path`.
#[derive(Debug)]
pub struct SavePlan {
    pub path: String,
    pub tmp: String,
    pub body: String,
}

impl FileStore {
    /// A store in a directory that is there.
    pub fn new(root: &str) -> (res: Self)
        ensures
            res.root@ == root@,
    {
        FileStore { root: root.to_owned() }
    }

    /// A store in a directory that was to be made, or the reason why it was not.
    pub fn open(root: &str, made: &Result<(), String>) -> (res: Result<Self, String>)
        ensures
            match *made {
                Ok(_) => res matches Ok(s) && s.root@ == root@,
                Err(why) => res matches Err(e) && e@ == why@,
            },
    {
        match made {
            Ok(_) => Ok(FileStore::new(root)),
            Err(why) => Err(why.as_str().to_owned()),
        }
    }

    /// The file of a key.
    pub fn path_for(&self, key: &str) -> (res: Result<String, StoreError>)
        ensures
            match res {
                Ok(p) => key_fault(key@) is None && p@ == file_of(self.root@, key@),
                Err(e) => key_fault(key@) == Some(e.0@),
            },
    {
        if let Err(e) = validate_key(key) {
            return Err(e);
        }
        let mut file = key.to_owned();
        file.push_str(".json");
        Ok(path_for(self.root.as_str(), file.as_str()))
    }

    /// Makes a history of what reading the file of a key gave. Nothing was saved where
    /// there is no file.
    pub fn load(&self, key: &str, read: &FileRead) -> (res: Result<
        Option<Vec<ChatMessage>>,
        StoreError,
    >)
        ensures
            match key_fault(key@) {
                Some(why) => res matches Err(e) && e.0@ == why,
                None => {
                    let path = file_of(self.root@, key@);
                    match *read {
                        FileRead::Missing => res matches Ok(None),
                        FileRead::Failed(msg) => res matches Err(e) && e.0@ == "read "@ + path
                            + ": "@ + msg@,
                        FileRead::Bytes(b) => match history_in(path, b@) {
                            Ok(h) => res matches Ok(Some(x)) && history_view(x@) == h,
                            Err(why) => res matches Err(e) && e.0@ == why,
                        },
                    }
                },
            },
    {
        let path = match self.path_for(key) {
            Ok(p) => p,
            Err(e) => {
                return Err(e);
            },
        };
        match read {
            FileRead::Missing => Ok(None),
            FileRead::Failed(msg) => {
                let mut m = "read ".to_owned();
                m.push_str(path.as_str());
                m.push_str(": ");
                m.push_str(msg.as_str());
                Err(StoreError(m))
            },
            FileRead::Bytes(b) => match parse(b.as_slice()) {
                Ok(v) => match parse_history(&v) {
                    Ok(h) => Ok(Some(h)),
                    Err(e) => {
                        let mut m = path;
                        m.push_str(": ");
                        m.push_str(e.as_str());
                        Err(StoreError(m))
                    },
                },
                Err(e) => {
                    let mut m = "parse ".to_owned();
                    m.push_str(path.as_str());
                    m.push_str(": ");
                    m.push_str(e.message().as_str());
                    Err(StoreError(m))
                },
            },
        }
    }

    /// What to write to save a history. A key that is refused leads to no file.
    pub fn save(&self, key: &str, history: &Vec<ChatMessage>) -> (res: Result<SavePlan, StoreError>)
        ensures
            match key_fault(key@) {
                Some(why) => res matches Err(e) && e.0@ == why,
                None => res matches Ok(plan) && plan.path@ == file_of(self.root@, key@)
                    && plan.tmp@ == temp_of(self.root@, key@) && plan.body@ == history_text(
                    history_view(history@),
                ),
            },
    {
        let path = match self.path_for(key) {
            Ok(p) => p,
            Err(e) => {
                return Err(e);
            },
        };
        let mut file = key.to_owned();
        file.push_str(".json.tmp");
        let tmp = path_for(self.root.as_str(), file.as_str());
        Ok(SavePlan { path, tmp, body: serialize(history) })
    }
}

impl SavePlan {
    /// The error where writing the new text failed.
    pub fn write_failed(&self, why: &str) -> (e: StoreError)
        ensures
            e.0@ == "write "@ + self.tmp@ + ": "@ + why@,
    {
        let mut m = "write ".to_owned();
        m.push_str(self.tmp.as_str());
        m.push_str(": ");
        m.push_str(why);
        StoreError(m)
    }

    /// The error where renaming failed.
    pub fn rename_failed(&self, why: &str) -> (e: StoreError)
        ensures
            e.0@ == "rename "@ + self.tmp@ + " -> "@ + self.path@ + ": "@ + why@,
    {
        let mut m = "rename ".to_owned();
        m.push_str(self.tmp.as_str());
        m.push_str(" -> ");
        m.push_str(self.path.as_str());
        m.push_str(": ");
        m.push_str(why);
        StoreError(m)
    }
}

// ---------------------------------------------------------------------------------
// Laws
// ---------------------------------------------------------------------------------
/// A block that reads back: the input of a tool use is blank or a JSON text.
pub open spec fn readable(b: Block) -> bool {
    b matches Block::ToolUse { input, .. } ==> document(input_text(input)) is Some
}

pub open spec fn readable_history(h: Seq<Said>) -> bool {
    forall|i: int, k: int|
        0 <= i < h.len() && 0 <= k < h[i].content.len() ==> readable(#[trigger] h[i].content[k])
}

/// A block as it comes back: the input of a tool use in its canonical form.
pub open spec fn canonical(b: Block) -> Block {
    match b {
        Block::ToolUse { id, name, input } => Block::ToolUse {
            id,
            name,
            input: text(document(input_text(input))->0),
        },
        _ => b,
    }
}

pub open spec fn canonical_message(m: Said) -> Said {
    Said { role: m.role, content: Seq::new(m.content.len(), |i: int| canonical(m.content[i])) }
}

pub open spec fn canonical_history(h: Seq<Said>) -> Seq<Said> {
    Seq::new(h.len(), |i: int| canonical_message(h[i]))
}

spec fn block_val(b: Block) -> Val {
    match b {
        Block::Text(t) => Val::Obj(
            seq![("type"@, Val::Str("text"@)), ("text"@, Val::Str(t))],
        ),
        Block::ToolUse { id, name, input } => Val::Obj(
            seq![
                ("type"@, Val::Str("tool_use"@)),
                ("id"@, Val::Str(id)),
                ("name"@, Val::Str(name)),
                ("input"@, document(input_text(input))->0),
            ],
        ),
        Block::ToolResult { tool_use_id, content, is_error } => Val::Obj(
            seq![
                ("type"@, Val::Str("tool_result"@)),
                ("tool_use_id"@, Val::Str(tool_use_id)),
                ("content"@, Val::Str(content)),
                ("is_error"@, Val::Bool(is_error)),
            ],
        ),
    }
}

proof fn lemma_block_text(b: Block)
    requires
        readable(b),
    ensures
        document(block_text(b)) == Some(block_val(b)),
{
    match b {
        Block::Text(t) => {
            lemma_string("text"@);
            lemma_string(t);
            lemma_object(
                seq![("type"@, str_text("text"@)), ("text"@, str_text(t))],
                seq![("type"@, Val::Str("text"@)), ("text"@, Val::Str(t))],
            );
        },
        Block::ToolUse { id, name, input } => {
            lemma_string("tool_use"@);
            lemma_string(id);
            lemma_string(name);
            lemma_object(
                seq![
                    ("type"@, str_text("tool_use"@)),
                    ("id"@, str_text(id)),
                    ("name"@, str_text(name)),
                    ("input"@, input_text(input)),
                ],
                seq![
                    ("type"@, Val::Str("tool_use"@)),
                    ("id"@, Val::Str(id)),
                    ("name"@, Val::Str(name)),
                    ("input"@, document(input_text(input))->0),
                ],
            );
        },
        Block::ToolResult { tool_use_id, content, is_error } => {
            lemma_string("tool_result"@);
            lemma_string(tool_use_id);
            lemma_string(content);
            law_write_read(Val::Bool(is_error));
            lemma_object(
                seq![
                    ("type"@, str_text("tool_result"@)),
                    ("tool_use_id"@, str_text(tool_use_id)),
                    ("content"@, str_text(content)),
                    ("is_error"@, bool_text(is_error)),
                ],
                seq![
                    ("type"@, Val::Str("tool_result"@)),
                    ("tool_use_id"@, Val::Str(tool_use_id)),
                    ("content"@, Val::Str(content)),
                    ("is_error"@, Val::Bool(is_error)),
                ],
            );
        },
    }
}

proof fn lemma_block_back(b: Block)
    requires
        readable(b),
    ensures
        block_of(block_val(b)) == Ok::<_, Seq<char>>(canonical(b)),
{
    reveal_strlit("type");
    reveal_strlit("text");
    reveal_strlit("id");
    reveal_strlit("name");
    reveal_strlit("input");
    reveal_strlit("tool_use");
    reveal_strlit("tool_result");
    reveal_strlit("tool_use_id");
    reveal_strlit("content");
    reveal_strlit("is_error");
    assert("type"@[1] != "text"@[1]);
    assert("type"@[0] != "name"@[0]);
    assert("tool_use"@.len() != "text"@.len());
    assert("tool_use"@.len() != "tool_result"@.len());
    assert("text"@.len() != "tool_result"@.len());
    assert("tool_use_id"@.len() != "content"@.len());
    assert("tool_use_id"@.len() != "is_error"@.len());
    assert("content"@.len() != "is_error"@.len());
    assert("type"@.len() != "is_error"@.len());
    assert("type"@.len() != "input"@.len());
    assert("id"@.len() != "input"@.len());
    assert("name"@.len() != "input"@.len());
    let v = block_val(b);
    let o = v->Obj_0;
    lemma_member_here(o, 0);
    lemma_member_here(o, 1);
    if b !is Text {
        lemma_member_here(o, 2);
        lemma_member_here(o, 3);
    }
}

/// The member at `k` is found by its name where no earlier one has that name.
proof fn lemma_member_here(o: Seq<(Seq<char>, Val)>, k: int)
    requires
        0 <= k < o.len(),
        forall|i: int| 0 <= i < k ==> (#[trigger] o[i]).0 != o[k].0,
    ensures
        member_from(o, 0, o[k].0) == Some(o[k].1),
{
    lemma_member_from(o, 0, k);
}

proof fn lemma_member_from(o: Seq<(Seq<char>, Val)>, i: int, k: int)
    requires
        0 <= i <= k < o.len(),
        forall|j: int| 0 <= j < k ==> (#[trigger] o[j]).0 != o[k].0,
    ensures
        member_from(o, i, o[k].0) == Some(o[k].1),
    decreases k - i,
{
    if i < k {
        assert(o[i].0 != o[k].0);
        lemma_member_from(o, i + 1, k);
    }
}

proof fn lemma_blocks_back(c: Seq<Block>, i: int)
    requires
        0 <= i <= c.len(),
        forall|k: int| 0 <= k < c.len() ==> readable(#[trigger] c[k]),
    ensures
        blocks_of(
            Seq::new(c.len(), |k: int| block_val(c[k])),
            i,
            Seq::new(i as nat, |k: int| canonical(c[k])),
        ) == Ok::<_, Seq<char>>(Seq::new(c.len(), |k: int| canonical(c[k]))),
    decreases c.len() - i,
{
    let vals = Seq::new(c.len(), |k: int| block_val(c[k]));
    let acc = Seq::new(i as nat, |k: int| canonical(c[k]));
    if i < c.len() {
        lemma_block_back(c[i]);
        lemma_blocks_back(c, i + 1);
        assert(acc.push(canonical(c[i])) =~= Seq::new((i + 1) as nat, |k: int| canonical(c[k])));
    }
}

spec fn message_val(m: Said) -> Val {
    Val::Obj(
        seq![
            ("role"@, Val::Str(role_name(m.role))),
            ("content"@, Val::Arr(Seq::new(m.content.len(), |i: int| block_val(m.content[i])))),
        ],
    )
}

proof fn lemma_message_back(m: Said)
    requires
        forall|k: int| 0 <= k < m.content.len() ==> readable(#[trigger] m.content[k]),
    ensures
        document(message_text(m)) == Some(message_val(m)),
        message_of(message_val(m)) == Ok::<_, Seq<char>>(canonical_message(m)),
{
    let p = Seq::new(m.content.len(), |i: int| block_text(m.content[i]));
    let vals = Seq::new(m.content.len(), |i: int| block_val(m.content[i]));
    assert forall|i: int| 0 <= i < p.len() implies document(#[trigger] p[i]) == Some(vals[i]) by {
        lemma_block_text(m.content[i]);
    }
    lemma_array(p, vals);
    lemma_string(role_name(m.role));
    lemma_object(
        seq![("role"@, str_text(role_name(m.role))), ("content"@, raw_arr(p))],
        seq![("role"@, Val::Str(role_name(m.role))), ("content"@, Val::Arr(vals))],
    );
    lemma_blocks_back(m.content, 0);
    assert(Seq::new(0nat, |k: int| canonical(m.content[k])) =~= Seq::<Block>::empty());
    reveal_strlit("role");
    reveal_strlit("content");
    reveal_strlit("user");
    reveal_strlit("assistant");
    let v = message_val(m);
    assert("user"@.len() != "assistant"@.len());
    assert("role"@.len() != "content"@.len());
    let o = v->Obj_0;
    lemma_member_here(o, 0);
    lemma_member_here(o, 1);
}

proof fn lemma_messages_back(h: Seq<Said>, i: int)
    requires
        0 <= i <= h.len(),
        readable_history(h),
    ensures
        messages_of(
            Seq::new(h.len(), |k: int| message_val(h[k])),
            i,
            Seq::new(i as nat, |k: int| canonical_message(h[k])),
        ) == Ok::<_, Seq<char>>(canonical_history(h)),
    decreases h.len() - i,
{
    let acc = Seq::new(i as nat, |k: int| canonical_message(h[k]));
    if i < h.len() {
        assert forall|k: int| 0 <= k < h[i].content.len() implies readable(
            #[trigger] h[i].content[k],
        ) by {}
        lemma_message_back(h[i]);
        lemma_messages_back(h, i + 1);
        assert(acc.push(canonical_message(h[i])) =~= Seq::new(
            (i + 1) as nat,
            |k: int| canonical_message(h[k]),
        ));
    } else {
        assert(acc =~= canonical_history(h));
    }
}

/// What was saved is loaded: the same messages with the same blocks, the inputs of tool
/// uses in their canonical form. It holds of every history in which those inputs are
/// blank or JSON.
pub proof fn law_save_load(h: Seq<Said>, path: Seq<char>)
    requires
        readable_history(h),
    ensures
        history_in(path, encode_utf8(history_text(h))) == Ok::<_, Seq<char>>(canonical_history(h)),
{
    let p = Seq::new(h.len(), |i: int| message_text(h[i]));
    let vals = Seq::new(h.len(), |i: int| message_val(h[i]));
    assert forall|i: int| 0 <= i < p.len() implies document(#[trigger] p[i]) == Some(vals[i]) by {
        assert forall|k: int| 0 <= k < h[i].content.len() implies readable(
            #[trigger] h[i].content[k],
        ) by {}
        lemma_message_back(h[i]);
    }
    lemma_array(p, vals);
    reveal_strlit("1");
    assert(is_number("1"@)) by {
        let n = "1"@;
        reveal_with_fuel(crate::json::digits_end, 2);
        assert(crate::json::digits_end(n, 0) == 1);
    }
    lemma_number("1"@);
    let o = seq![("version"@, Val::Num("1"@)), ("messages"@, Val::Arr(vals))];
    lemma_object(seq![("version"@, "1"@), ("messages"@, raw_arr(p))], o);
    encode_utf8_valid_utf8(history_text(h));
    encode_utf8_decode_utf8(history_text(h));
    reveal_strlit("version");
    reveal_strlit("messages");
    let v = Val::Obj(o);
    assert("version"@.len() != "messages"@.len());
    lemma_member_here(o, 0);
    lemma_member_here(o, 1);
    lemma_messages_back(h, 0);
    assert(Seq::new(0nat, |k: int| canonical_message(h[k])) =~= Seq::<Said>::empty());
}

/// A block that was loaded is in its canonical form: saved and loaded again, it is the
/// same.
pub proof fn law_canonical_is_stable(b: Block)
    requires
        readable(b),
    ensures
        readable(canonical(b)),
        canonical(canonical(b)) == canonical(b),
{
    if let Block::ToolUse { id, name, input } = b {
        let t = input_text(input);
        law_read_write(t);
        let c = text(document(t)->0);
        reveal_strlit("{}");
        if trim(c).len() == 0 {
            lemma_blank_is_no_document(c);
        }
    }
}

/// White space alone is no JSON text.
proof fn lemma_blank_is_no_document(s: Seq<char>)
    requires
        trim(s).len() == 0,
    ensures
        document(s) is None,
{
    reveal(document);
    lemma_trim_blank(s);
    lemma_skip_blank(s, 0);
}

proof fn lemma_trim_blank(s: Seq<char>)
    requires
        trim(s).len() == 0,
    ensures
        forall|i: int| 0 <= i < s.len() ==> crate::text::is_white(#[trigger] s[i]),
    decreases s.len(),
{
    lemma_trim_end_blank(crate::text::trim_start(s));
    if s.len() > 0 && crate::text::is_white(s[0]) {
        let r = s.drop_first();
        assert(trim(r).len() == 0);
        lemma_trim_blank(r);
        assert forall|i: int| 0 <= i < s.len() implies crate::text::is_white(#[trigger] s[i]) by {
            if i > 0 {
                assert(r[i - 1] == s[i]);
            }
        }
    }
}

proof fn lemma_trim_end_blank(s: Seq<char>)
    requires
        crate::text::trim_end(s).len() == 0,
    ensures
        forall|i: int| 0 <= i < s.len() ==> crate::text::is_white(#[trigger] s[i]),
    decreases s.len(),
{
    if s.len() > 0 && crate::text::is_white(s.last()) {
        let r = s.drop_last();
        lemma_trim_end_blank(r);
        assert forall|i: int| 0 <= i < s.len() implies crate::text::is_white(#[trigger] s[i]) by {
            if i < r.len() {
                assert(r[i] == s[i]);
            }
        }
    }
}

/// Where only white space stands, no value starts.
proof fn lemma_skip_blank(s: Seq<char>, i: int)
    requires
        0 <= i <= s.len(),
        forall|k: int| 0 <= k < s.len() ==> crate::text::is_white(#[trigger] s[k]),
    ensures
        value(s, i) is None,
{
    let j = crate::json::skip(s, i);
    if i <= j < s.len() {
        assert(crate::text::is_white(s[j]));
        reveal_strlit("null");
        reveal_strlit("true");
        reveal_strlit("false");
        crate::json::lemma_not_word(s, j, "null"@);
        crate::json::lemma_not_word(s, j, "true"@);
        crate::json::lemma_not_word(s, j, "false"@);
        assert(num_end(s, j) is None);
    }
}

/// A key that is accepted names a file right in the root: what follows the root has no
/// separator in it.
pub proof fn law_key_stays_in_root(root: Seq<char>, key: Seq<char>)
    requires
        key_fault(key) is None,
    ensures
        file_of(root, key) == (if root.len() > 0 && root.last() != '/' {
            root.push('/')
        } else {
            root
        }) + (key + ".json"@),
        !has_char(key + ".json"@, '/'),
        !has_char(key + ".json"@, '\\'),
        !has_dots(key + ".json"@) || key.last() == '.',
{
    reveal_strlit(".json");
    let f = key + ".json"@;
    assert(f[0] == key[0]);
    assert(key[0] != '/') by {
        if key[0] == '/' {
            assert(has_char(key, '/'));
        }
    }
    assert forall|i: int| 0 <= i < f.len() implies #[trigger] f[i] != '/' && f[i] != '\\' by {
        if i < key.len() {
            assert(f[i] == key[i]);
            assert(!has_char(key, key[i]) || key[i] != '/');
        }
    }
    if has_dots(f) {
        let i = choose|i: int| 0 <= i < f.len() - 1 && #[trigger] f[i] == '.' && f[i + 1] == '.';
        if i + 1 < key.len() {
            assert(key[i] == '.' && key[i + 1] == '.');
        } else if i >= key.len() {
            assert(f[i + 1] == ".json"@[i + 1 - key.len()]);
        }
    }
}

/// Two keys never share a file, and no key's file is where another is written first.
pub proof fn law_keys_do_not_collide(root: Seq<char>, a: Seq<char>, b: Seq<char>)
    requires
        key_fault(a) is None,
        key_fault(b) is None,
    ensures
        a != b ==> file_of(root, a) != file_of(root, b),
        file_of(root, a) != temp_of(root, b),
{
    reveal_strlit(".json");
    reveal_strlit(".json.tmp");
    let fa = a + ".json"@;
    let fb = b + ".json"@;
    let tb = b + ".json.tmp"@;
    assert(a[0] != '/') by {
        if a[0] == '/' {
            assert(has_char(a, '/'));
        }
    }
    assert(b[0] != '/') by {
        if b[0] == '/' {
            assert(has_char(b, '/'));
        }
    }
    assert(fa[0] == a[0] && fb[0] == b[0] && tb[0] == b[0]);
    let base = if root.len() > 0 && root.last() != '/' {
        root.push('/')
    } else {
        root
    };
    assert(file_of(root, a) == base + fa);
    assert(file_of(root, b) == base + fb);
    assert(temp_of(root, b) == base + tb);
    if file_of(root, a) == file_of(root, b) {
        assert(fa =~= (base + fa).skip(base.len() as int));
        assert(fb =~= (base + fb).skip(base.len() as int));
        assert(a =~= fa.take(fa.len() - 5));
        assert(b =~= fb.take(fb.len() - 5));
    }
    assert((base + fa).last() == 'n');
    assert((base + tb).last() == 'p');
}

/// What is loaded is the history that was saved: every message in its place, with its role, and
/// every block of it in its place, with its text, its id, its name, its content and whether it is an
/// error. The input of a use of a tool is the same JSON value, and an empty object for a blank one.
pub proof fn law_loaded_is_what_was_saved(h: Seq<Said>, path: Seq<char>)
    requires
        forall|i: int, k: int|
            0 <= i < h.len() && 0 <= k < h[i].content.len() ==> (#[trigger] h[i].content[k] matches Block::ToolUse {
                id: _,
                name: _,
                input,
            } ==> trim(input).len() == 0 || document(input) is Some),
    ensures
        history_in(path, encode_utf8(history_text(h))) matches Ok(g) && g.len() == h.len() && (forall|
            i: int,
        |
            0 <= i < h.len() ==> (#[trigger] g[i]).role == h[i].role && g[i].content.len()
                == h[i].content.len()) && (forall|i: int, k: int|
            0 <= i < h.len() && 0 <= k < h[i].content.len() ==> match h[i].content[k] {
                Block::Text(t) => #[trigger] g[i].content[k] == Block::Text(t),
                Block::ToolResult { tool_use_id, content, is_error } => g[i].content[k] == (
                Block::ToolResult { tool_use_id, content, is_error }),
                Block::ToolUse { id, name, input } => g[i].content[k] matches Block::ToolUse {
                    id: d,
                    name: n,
                    input: p,
                } && d == id && n == name && p == text(
                    if trim(input).len() == 0 {
                        Val::Obj(Seq::empty())
                    } else {
                        document(input)->0
                    },
                ),
            }),
{
    lemma_empty_object();
    assert forall|i: int, k: int|
        0 <= i < h.len() && 0 <= k < h[i].content.len() implies readable(
        #[trigger] h[i].content[k],
    ) by {}
    law_save_load(h, path);
    let g = canonical_history(h);
    assert forall|i: int, k: int| 0 <= i < h.len() && 0 <= k < h[i].content.len() implies match (
        h[i].content[k]
    ) {
        Block::Text(t) => #[trigger] g[i].content[k] == Block::Text(t),
        Block::ToolResult { tool_use_id, content, is_error } => g[i].content[k] == (
        Block::ToolResult { tool_use_id, content, is_error }),
        Block::ToolUse { id, name, input } => g[i].content[k] matches Block::ToolUse {
            id: d,
            name: n,
            input: p,
        } && d == id && n == name && p == text(
            if trim(input).len() == 0 {
                Val::Obj(Seq::empty())
            } else {
                document(input)->0
            },
        ),
    } by {
        assert(g[i].content[k] == canonical(h[i].content[k]));
    }
}

proof fn lemma_empty_object()
    ensures
        document("{}"@) == Some(Val::Obj(Seq::empty())),
{
    let none: Seq<(Seq<char>, Seq<char>)> = Seq::empty();
    lemma_object(none, Seq::empty());
    reveal_strlit("{}");
    assert(raw_obj(none) == "{}"@) by {
        reveal(raw_obj);
        assert(raw_obj(none) =~= "{}"@);
    }
}

/// The file of a history is a JSON text of version 1 with its messages in their order: the role of
/// each, and for each of its blocks the type and what it holds.
pub proof fn law_file_tells_the_history(h: Seq<Said>, i: int, k: int)
    requires
        readable_history(h),
        0 <= i < h.len(),
        0 <= k < h[i].content.len(),
    ensures
        document(history_text(h)) matches Some(v) && member(v, "version"@) == Some(Val::Num("1"@)) && (
        member(v, "messages"@) matches Some(Val::Arr(a)) && a.len() == h.len() && member_str(
            a[i],
            "role"@,
        ) == Some(
            if h[i].role == Role::User {
                "user"@
            } else {
                "assistant"@
            },
        ) && (member(a[i], "content"@) matches Some(Val::Arr(c)) && c.len() == h[i].content.len()
            && match h[i].content[k] {
            Block::Text(t) => member_str(c[k], "type"@) == Some("text"@) && member_str(c[k], "text"@)
                == Some(t),
            Block::ToolUse { id, name, input } => {
                &&& member_str(c[k], "type"@) == Some("tool_use"@)
                &&& member_str(c[k], "id"@) == Some(id)
                &&& member_str(c[k], "name"@) == Some(name)
                &&& trim(input).len() > 0 ==> member(c[k], "input"@) == document(input)
            },
            Block::ToolResult { tool_use_id, content, is_error } => {
                &&& member_str(c[k], "type"@) == Some("tool_result"@)
                &&& member_str(c[k], "tool_use_id"@) == Some(tool_use_id)
                &&& member_str(c[k], "content"@) == Some(content)
                &&& member(c[k], "is_error"@) == Some(Val::Bool(is_error))
            },
        })),
{
    let p = Seq::new(h.len(), |j: int| message_text(h[j]));
    let vals = Seq::new(h.len(), |j: int| message_val(h[j]));
    assert forall|j: int| 0 <= j < p.len() implies document(#[trigger] p[j]) == Some(vals[j]) by {
        assert forall|m: int| 0 <= m < h[j].content.len() implies readable(
            #[trigger] h[j].content[m],
        ) by {}
        lemma_message_back(h[j]);
    }
    lemma_array(p, vals);
    reveal_strlit("1");
    assert(is_number("1"@)) by {
        let n = "1"@;
        reveal_with_fuel(crate::json::digits_end, 2);
        assert(crate::json::digits_end(n, 0) == 1);
    }
    lemma_number("1"@);
    let o = seq![("version"@, Val::Num("1"@)), ("messages"@, Val::Arr(vals))];
    lemma_object(seq![("version"@, "1"@), ("messages"@, raw_arr(p))], o);
    reveal_strlit("version");
    reveal_strlit("messages");
    reveal_strlit("role");
    reveal_strlit("content");
    reveal_strlit("type");
    reveal_strlit("text");
    reveal_strlit("id");
    reveal_strlit("name");
    reveal_strlit("input");
    reveal_strlit("tool_use_id");
    reveal_strlit("is_error");
    assert("version"@.len() == 7 && "messages"@.len() == 8 && "role"@.len() == 4 && "content"@.len()
        == 7);
    assert("type"@.len() == 4 && "text"@.len() == 4 && "id"@.len() == 2 && "name"@.len() == 4
        && "input"@.len() == 5 && "tool_use_id"@.len() == 11 && "is_error"@.len() == 8);
    assert("type"@[0] == 't' && "type"@[1] == 'y' && "text"@[1] == 'e' && "name"@[0] == 'n');
    reveal_with_fuel(member_from, 5);
}

/// A key is good if and only if it has between 1 and 200 characters, does not begin with a dot, and
/// holds no slash, no backslash, no two dots in a row and no control character.
pub proof fn law_good_keys(key: Seq<char>)
    ensures
        key_fault(key) is None <==> {
            &&& 0 < key.len() <= 200
            &&& key[0] != '.'
            &&& forall|i: int|
                0 <= i < key.len() ==> #[trigger] key[i] != '/' && key[i] != '\\' && key[i]
                    > '\u{1f}' && key[i] != '\u{7f}'
            &&& forall|i: int| 0 <= i < key.len() - 1 ==> !(#[trigger] key[i] == '.' && key[i + 1] == '.')
        },
{
    if key_fault(key) is None {
        assert forall|i: int| 0 <= i < key.len() implies #[trigger] key[i] != '/' && key[i] != '\\'
            && key[i] > '\u{1f}' && key[i] != '\u{7f}' by {
            if key[i] == '/' {
                assert(has_char(key, '/'));
            }
            if key[i] == '\\' {
                assert(has_char(key, '\\'));
            }
            if is_control(key[i]) {
                assert(has_control(key));
            }
        }
    }
}

/// A file is refused if it is no JSON text, is of another version than 1, has no list of messages, or
/// has a message whose role is unknown or whose content is no list.
pub proof fn law_bad_files_are_refused(path: Seq<char>, b: Seq<u8>, a: Seq<Val>, i: int)
    ensures
        parsed(b) is None ==> history_in(path, b) is Err,
        parsed(b) matches Some(v) ==> {
            &&& member(v, "version"@) != Some(Val::Num("1"@)) ==> history_in(path, b) is Err
            &&& !(member(v, "messages"@) matches Some(Val::Arr(_))) ==> history_in(path, b) is Err
            &&& member(v, "messages"@) == Some(Val::Arr(a)) && 0 <= i < a.len() && member_str(
                a[i],
                "role"@,
            ) != Some("user"@) && member_str(a[i], "role"@) != Some("assistant"@) ==> history_in(
                path,
                b,
            ) is Err
            &&& member(v, "messages"@) == Some(Val::Arr(a)) && 0 <= i < a.len() && !(member(
                a[i],
                "content"@,
            ) matches Some(Val::Arr(_))) ==> history_in(path, b) is Err
        },
{
    if 0 <= i < a.len() && message_of(a[i]) is Err {
        lemma_one_bad_message(a, 0, Seq::empty(), i);
    }
}

proof fn lemma_one_bad_message(a: Seq<Val>, j: int, acc: Seq<Said>, i: int)
    requires
        0 <= j <= i < a.len(),
        message_of(a[i]) is Err,
    ensures
        messages_of(a, j, acc) is Err,
    decreases i - j,
{
    if j < i {
        if let Ok(m) = message_of(a[j]) {
            lemma_one_bad_message(a, j + 1, acc.push(m), i);
        }
    }
}

} // verus!

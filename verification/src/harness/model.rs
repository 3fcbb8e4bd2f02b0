//! What is said to a model and what it answers.

use vstd::prelude::*;

use crate::text::maybe;

verus! {

#[derive(Debug, Clone, Copy, PartialEq, Eq, Structural)]
pub enum Role {
    User,
    Assistant,
}

/// One block of a message. The input of a tool use is a JSON text.
#[derive(Debug, PartialEq, Eq)]
pub enum ContentBlock {
    Text(String),
    ToolUse { id: String, name: String, input: String },
    ToolResult { tool_use_id: String, content: String, is_error: bool },
}

#[derive(Debug, PartialEq, Eq)]
pub struct ChatMessage {
    pub role: Role,
    pub content: Vec<ContentBlock>,
}

/// A tool as the model sees it. The schema is a JSON object, taken over as it stands.
#[derive(Debug, PartialEq, Eq)]
pub struct ToolDef {
    pub name: String,
    pub description: String,
    pub input_schema: String,
}

#[derive(Debug)]
pub struct ModelRequest {
    pub system: Option<String>,
    pub messages: Vec<ChatMessage>,
    pub max_tokens: u32,
    pub tools: Vec<ToolDef>,
}

#[derive(Debug)]
pub enum ModelEvent {
    TextDelta(String),
    ToolUseStart { id: String, name: String },
    ToolUseInputDelta(String),
    BlockStop,
    Stop { reason: Option<String> },
}

/// Why a model did not answer.
#[derive(Debug)]
pub struct ModelError(pub String);

/// Mathematical form of a `ContentBlock`.
pub enum Block {
    Text(Seq<char>),
    ToolUse { id: Seq<char>, name: Seq<char>, input: Seq<char> },
    ToolResult { tool_use_id: Seq<char>, content: Seq<char>, is_error: bool },
}

/// Mathematical form of a `ChatMessage`.
pub struct Said {
    pub role: Role,
    pub content: Seq<Block>,
}

/// Mathematical form of a `ToolDef`.
pub struct ToolView {
    pub name: Seq<char>,
    pub description: Seq<char>,
    pub input_schema: Seq<char>,
}

/// Mathematical form of a `ModelRequest`.
pub struct Asked {
    pub system: Option<Seq<char>>,
    pub messages: Seq<Said>,
    pub max_tokens: u32,
    pub tools: Seq<ToolView>,
}

/// Mathematical form of a `ModelEvent`.
pub enum Heard {
    TextDelta(Seq<char>),
    ToolUseStart { id: Seq<char>, name: Seq<char> },
    ToolUseInputDelta(Seq<char>),
    BlockStop,
    Stop { reason: Option<Seq<char>> },
}

impl View for ContentBlock {
    type V = Block;

    open spec fn view(&self) -> Block {
        match *self {
            ContentBlock::Text(t) => Block::Text(t@),
            ContentBlock::ToolUse { id, name, input } => Block::ToolUse {
                id: id@,
                name: name@,
                input: input@,
            },
            ContentBlock::ToolResult { tool_use_id, content, is_error } => Block::ToolResult {
                tool_use_id: tool_use_id@,
                content: content@,
                is_error,
            },
        }
    }
}

pub open spec fn blocks(c: Seq<ContentBlock>) -> Seq<Block> {
    Seq::new(c.len(), |i: int| c[i]@)
}

impl View for ChatMessage {
    type V = Said;

    open spec fn view(&self) -> Said {
        Said { role: self.role, content: blocks(self.content@) }
    }
}

/// Mathematical form of a history.
pub open spec fn history_view(h: Seq<ChatMessage>) -> Seq<Said> {
    Seq::new(h.len(), |i: int| h[i]@)
}

impl View for ToolDef {
    type V = ToolView;

    open spec fn view(&self) -> ToolView {
        ToolView {
            name: self.name@,
            description: self.description@,
            input_schema: self.input_schema@,
        }
    }
}

pub open spec fn tools_view(t: Seq<ToolDef>) -> Seq<ToolView> {
    Seq::new(t.len(), |i: int| t[i]@)
}

impl View for ModelRequest {
    type V = Asked;

    open spec fn view(&self) -> Asked {
        Asked {
            system: maybe(self.system),
            messages: history_view(self.messages@),
            max_tokens: self.max_tokens,
            tools: tools_view(self.tools@),
        }
    }
}

impl View for ModelEvent {
    type V = Heard;

    open spec fn view(&self) -> Heard {
        match *self {
            ModelEvent::TextDelta(s) => Heard::TextDelta(s@),
            ModelEvent::ToolUseStart { id, name } => Heard::ToolUseStart { id: id@, name: name@ },
            ModelEvent::ToolUseInputDelta(s) => Heard::ToolUseInputDelta(s@),
            ModelEvent::BlockStop => Heard::BlockStop,
            ModelEvent::Stop { reason } => Heard::Stop { reason: maybe(reason) },
        }
    }
}

/// A message of one text block.
pub open spec fn said(role: Role, text: Seq<char>) -> Said {
    Said { role, content: seq![Block::Text(text)] }
}

impl ChatMessage {
    fn of_text(role: Role, text: String) -> (res: Self)
        ensures
            res@ == said(role, text@),
    {
        let mut content: Vec<ContentBlock> = Vec::new();
        content.push(ContentBlock::Text(text));
        proof {
            assert(blocks(content@) =~= seq![Block::Text(text@)]);
        }
        ChatMessage { role, content }
    }

    /// What a user says.
    pub fn user(text: &str) -> (res: Self)
        ensures
            res@ == said(Role::User, text@),
    {
        Self::of_text(Role::User, text.to_owned())
    }

    /// What the model says.
    pub fn assistant(text: &str) -> (res: Self)
        ensures
            res@ == said(Role::Assistant, text@),
    {
        Self::of_text(Role::Assistant, text.to_owned())
    }
}

/// A copy of a block.
pub fn copy_block(b: &ContentBlock) -> (res: ContentBlock)
    ensures
        res@ == b@,
{
    match b {
        ContentBlock::Text(t) => ContentBlock::Text(t.clone()),
        ContentBlock::ToolUse { id, name, input } => ContentBlock::ToolUse {
            id: id.clone(),
            name: name.clone(),
            input: input.clone(),
        },
        ContentBlock::ToolResult { tool_use_id, content, is_error } => ContentBlock::ToolResult {
            tool_use_id: tool_use_id.clone(),
            content: content.clone(),
            is_error: *is_error,
        },
    }
}

/// A copy of a message.
pub fn copy_message(m: &ChatMessage) -> (res: ChatMessage)
    ensures
        res@ == m@,
{
    let mut content: Vec<ContentBlock> = Vec::new();
    let mut i: usize = 0;
    while i < m.content.len()
        invariant
            i <= m.content@.len(),
            content@.len() == i,
            forall|k: int| 0 <= k < i ==> (#[trigger] content@[k])@ == m.content@[k]@,
        decreases m.content.len() - i,
    {
        content.push(copy_block(&m.content[i]));
        i += 1;
    }
    proof {
        assert(blocks(content@) =~= blocks(m.content@));
    }
    ChatMessage { role: m.role, content }
}

/// A copy of a history.
pub fn copy_history(h: &Vec<ChatMessage>) -> (res: Vec<ChatMessage>)
    ensures
        history_view(res@) == history_view(h@),
{
    let mut res: Vec<ChatMessage> = Vec::new();
    let mut i: usize = 0;
    while i < h.len()
        invariant
            i <= h@.len(),
            res@.len() == i,
            forall|k: int| 0 <= k < i ==> (#[trigger] res@[k])@ == h@[k]@,
        decreases h.len() - i,
    {
        res.push(copy_message(&h[i]));
        i += 1;
    }
    proof {
        assert(history_view(res@) =~= history_view(h@));
    }
    res
}

/// A copy of a list of tools.
pub fn copy_tools(t: &Vec<ToolDef>) -> (res: Vec<ToolDef>)
    ensures
        tools_view(res@) == tools_view(t@),
{
    let mut res: Vec<ToolDef> = Vec::new();
    let mut i: usize = 0;
    while i < t.len()
        invariant
            i <= t@.len(),
            res@.len() == i,
            forall|k: int| 0 <= k < i ==> (#[trigger] res@[k])@ == t@[k]@,
        decreases t.len() - i,
    {
        res.push(
            ToolDef {
                name: t[i].name.clone(),
                description: t[i].description.clone(),
                input_schema: t[i].input_schema.clone(),
            },
        );
        i += 1;
    }
    proof {
        assert(tools_view(res@) =~= tools_view(t@));
    }
    res
}

/// A model that plays scripts, one for each request, and remembers the requests.
#[derive(Debug)]
pub struct MockModel {
    /// The scripts that were not played yet.
    pub scripts: Vec<Vec<ModelEvent>>,
    pub seen: Vec<ModelRequest>,
}

impl MockModel {
    /// A model with the given scripts.
    pub fn new(scripts: Vec<Vec<ModelEvent>>) -> (res: Self)
        ensures
            res.scripts@ == scripts@,
            res.seen@.len() == 0,
    {
        MockModel { scripts, seen: Vec::new() }
    }

    /// A model with one script.
    pub fn single(events: Vec<ModelEvent>) -> (res: Self)
        ensures
            res.scripts@ == seq![events],
            res.seen@.len() == 0,
    {
        let mut scripts: Vec<Vec<ModelEvent>> = Vec::new();
        scripts.push(events);
        proof {
            assert(scripts@ =~= seq![events]);
        }
        Self::new(scripts)
    }

    /// Takes a request and plays the next script; silence where there is none.
    pub fn stream(&mut self, req: ModelRequest) -> (res: Vec<ModelEvent>)
        ensures
            final(self).seen@ == old(self).seen@.push(req),
            if old(self).scripts@.len() > 0 {
                res == old(self).scripts@[0] && final(self).scripts@ == old(self).scripts@.drop_first()
            } else {
                res@.len() == 0 && final(self).scripts@ == old(self).scripts@
            },
    {
        self.seen.push(req);
        if self.scripts.len() == 0 {
            Vec::new()
        } else {
            let next = self.scripts.remove(0);
            proof {
                assert(self.scripts@ =~= old(self).scripts@.drop_first());
            }
            next
        }
    }
}

} // verus!

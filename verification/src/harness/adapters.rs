//! Between a session and the providers of models: requests in the form of a provider, and its
//! events as a session hears them.

use vstd::prelude::*;

use super::model::{
    Asked, Block, ChatMessage, ContentBlock, Heard, ModelEvent, ModelRequest, Role, Said, ToolDef,
    ToolView,
};
use crate::anthropic;
use crate::openai;
use crate::text::maybe;

verus! {

// ---------------------------------------------------------------------------------
// OpenAI
// ---------------------------------------------------------------------------------
/// Whether a block is one of a session's. That a tool failed is not told.
pub open spec fn openai_block(b: Block, x: openai::ContentBlock) -> bool {
    match b {
        Block::Text(t) => x matches openai::ContentBlock::Text(s) && s@ == t,
        Block::ToolUse { id, name, input } => x matches openai::ContentBlock::ToolUse {
            id: i,
            name: n,
            input: p,
        } && i@ == id && n@ == name && p@ == input,
        Block::ToolResult { tool_use_id, content, .. } => x matches openai::ContentBlock::ToolResult {
            tool_use_id: i,
            content: c,
        } && i@ == tool_use_id && c@ == content,
    }
}

/// Whether a message is one of a session's.
pub open spec fn openai_message(m: Said, x: openai::Message) -> bool {
    &&& x.role == (match m.role {
        Role::User => openai::Role::User,
        Role::Assistant => openai::Role::Assistant,
    })
    &&& x.content@.len() == m.content.len()
    &&& forall|i: int| 0 <= i < m.content.len() ==> openai_block(m.content[i], #[trigger] x.content@[i])
}

/// Whether a tool is one of a session's.
pub open spec fn openai_tool(t: ToolView, x: openai::Tool) -> bool {
    x.name@ == t.name && x.description@ == t.description && x.input_schema@ == t.input_schema
}

/// Whether a request to a model is what a session asks.
pub open spec fn openai_asks(a: Asked, model: Seq<char>, x: openai::Request) -> bool {
    &&& x.model@ == model
    &&& x.max_tokens == a.max_tokens
    &&& maybe(x.system) == a.system
    &&& x.messages@.len() == a.messages.len()
    &&& forall|i: int|
        0 <= i < a.messages.len() ==> openai_message(a.messages[i], #[trigger] x.messages@[i])
    &&& x.tools@.len() == a.tools.len()
    &&& forall|i: int| 0 <= i < a.tools.len() ==> openai_tool(a.tools[i], #[trigger] x.tools@[i])
}

fn openai_said(m: &ChatMessage) -> (res: openai::Message)
    ensures
        openai_message(m@, res),
{
    let mut content: Vec<openai::ContentBlock> = Vec::new();
    let mut i: usize = 0;
    while i < m.content.len()
        invariant
            i <= m.content@.len(),
            content@.len() == i,
            forall|k: int| 0 <= k < i ==> openai_block(m@.content[k], #[trigger] content@[k]),
        decreases m.content.len() - i,
    {
        let b = match &m.content[i] {
            ContentBlock::Text(t) => openai::ContentBlock::Text(t.clone()),
            ContentBlock::ToolUse { id, name, input } => openai::ContentBlock::ToolUse {
                id: id.clone(),
                name: name.clone(),
                input: input.clone(),
            },
            ContentBlock::ToolResult { tool_use_id, content: c, .. } => {
                openai::ContentBlock::ToolResult {
                    tool_use_id: tool_use_id.clone(),
                    content: c.clone(),
                }
            },
        };
        proof {
            assert(m@.content[i as int] == m.content@[i as int]@);
        }
        content.push(b);
        i += 1;
    }
    let role = match m.role {
        Role::User => openai::Role::User,
        Role::Assistant => openai::Role::Assistant,
    };
    openai::Message { role, content }
}

fn openai_tools(t: &Vec<ToolDef>) -> (res: Vec<openai::Tool>)
    ensures
        res@.len() == t@.len(),
        forall|i: int| 0 <= i < t@.len() ==> openai_tool(t@[i]@, #[trigger] res@[i]),
{
    let mut res: Vec<openai::Tool> = Vec::new();
    let mut i: usize = 0;
    while i < t.len()
        invariant
            i <= t@.len(),
            res@.len() == i,
            forall|k: int| 0 <= k < i ==> openai_tool(t@[k]@, #[trigger] res@[k]),
        decreases t.len() - i,
    {
        res.push(
            openai::Tool {
                name: t[i].name.clone(),
                description: t[i].description.clone(),
                input_schema: t[i].input_schema.clone(),
            },
        );
        i += 1;
    }
    res
}

/// What a session asks, in OpenAI's form.
pub fn openai_request(req: &ModelRequest, model: &str) -> (res: openai::Request)
    ensures
        openai_asks(req@, model@, res),
{
    let mut messages: Vec<openai::Message> = Vec::new();
    let mut i: usize = 0;
    while i < req.messages.len()
        invariant
            i <= req.messages@.len(),
            messages@.len() == i,
            forall|k: int|
                0 <= k < i ==> openai_message(req@.messages[k], #[trigger] messages@[k]),
        decreases req.messages.len() - i,
    {
        messages.push(openai_said(&req.messages[i]));
        proof {
            assert(req@.messages[i as int] == req.messages@[i as int]@);
        }
        i += 1;
    }
    let system = match &req.system {
        Some(s) => Some(s.clone()),
        None => None,
    };
    let tools = openai_tools(&req.tools);
    proof {
        assert forall|k: int| 0 <= k < req@.tools.len() implies openai_tool(
            req@.tools[k],
            #[trigger] tools@[k],
        ) by {
            assert(req@.tools[k] == req.tools@[k]@);
        }
    }
    openai::Request {
        model: model.to_owned(),
        max_tokens: req.max_tokens,
        messages,
        system,
        tools,
    }
}

/// What a session hears of an event of OpenAI's, if anything.
pub open spec fn openai_heard(e: openai::Sign) -> Option<Heard> {
    match e {
        openai::Sign::TextDelta(s) => Some(Heard::TextDelta(s)),
        openai::Sign::ToolUseStart { id, name } => Some(Heard::ToolUseStart { id, name }),
        openai::Sign::ToolUseInputDelta(s) => Some(Heard::ToolUseInputDelta(s)),
        openai::Sign::ContentBlockStop => Some(Heard::BlockStop),
        openai::Sign::Stop { reason } => Some(Heard::Stop { reason }),
        openai::Sign::Other(_) => None,
    }
}

/// What a session hears of an event of OpenAI's, if anything.
pub fn openai_event(ev: openai::Event) -> (res: Option<ModelEvent>)
    ensures
        match openai_heard(ev@) {
            Some(h) => res matches Some(m) && m@ == h,
            None => res is None,
        },
{
    match ev {
        openai::Event::TextDelta(s) => Some(ModelEvent::TextDelta(s)),
        openai::Event::ToolUseStart { id, name } => Some(ModelEvent::ToolUseStart { id, name }),
        openai::Event::ToolUseInputDelta(s) => Some(ModelEvent::ToolUseInputDelta(s)),
        openai::Event::ContentBlockStop => Some(ModelEvent::BlockStop),
        openai::Event::Stop { reason } => Some(ModelEvent::Stop { reason }),
        openai::Event::Other(_) => None,
    }
}

// ---------------------------------------------------------------------------------
// Anthropic
// ---------------------------------------------------------------------------------
/// The text in the first `n` blocks of a message: what was said and what tools gave.
pub open spec fn plain_text(b: Seq<Block>, n: int) -> Seq<char>
    decreases n,
{
    if n <= 0 {
        Seq::empty()
    } else {
        plain_text(b, n - 1) + match b[n - 1] {
            Block::Text(t) => t,
            Block::ToolUse { .. } => Seq::empty(),
            Block::ToolResult { content, .. } => content,
        }
    }
}

/// Whether a message is one of a session's, as text.
pub open spec fn anthropic_message(m: Said, x: anthropic::Message) -> bool {
    &&& x.role == (match m.role {
        Role::User => anthropic::Role::User,
        Role::Assistant => anthropic::Role::Assistant,
    })
    &&& x.content@ == plain_text(m.content, m.content.len() as int)
}

/// Whether a tool is one of a session's.
pub open spec fn anthropic_tool(t: ToolView, x: anthropic::Tool) -> bool {
    x.name@ == t.name && x.description@ == t.description && x.input_schema@ == t.input_schema
}

/// Whether a request to a model is what a session asks.
pub open spec fn anthropic_asks(a: Asked, model: Seq<char>, x: anthropic::Request) -> bool {
    &&& x.model@ == model
    &&& x.max_tokens == a.max_tokens
    &&& maybe(x.system) == a.system
    &&& x.messages@.len() == a.messages.len()
    &&& forall|i: int|
        0 <= i < a.messages.len() ==> anthropic_message(a.messages[i], #[trigger] x.messages@[i])
    &&& x.tools@.len() == a.tools.len()
    &&& forall|i: int|
        0 <= i < a.tools.len() ==> anthropic_tool(a.tools[i], #[trigger] x.tools@[i])
}

fn anthropic_said(m: &ChatMessage) -> (res: anthropic::Message)
    ensures
        anthropic_message(m@, res),
{
    let mut content = String::new();
    proof {
        assert(content@ =~= Seq::empty());
    }
    let mut i: usize = 0;
    while i < m.content.len()
        invariant
            i <= m.content@.len(),
            content@ == plain_text(m@.content, i as int),
        decreases m.content.len() - i,
    {
        proof {
            assert(m@.content[i as int] == m.content@[i as int]@);
        }
        let ghost c0 = content@;
        match &m.content[i] {
            ContentBlock::Text(t) => content.push_str(t.as_str()),
            ContentBlock::ToolUse { .. } => {
                proof {
                    assert(c0 + Seq::<char>::empty() =~= c0);
                }
            },
            ContentBlock::ToolResult { content: c, .. } => content.push_str(c.as_str()),
        }
        i += 1;
    }
    let role = match m.role {
        Role::User => anthropic::Role::User,
        Role::Assistant => anthropic::Role::Assistant,
    };
    anthropic::Message { role, content }
}

fn anthropic_tools(t: &Vec<ToolDef>) -> (res: Vec<anthropic::Tool>)
    ensures
        res@.len() == t@.len(),
        forall|i: int| 0 <= i < t@.len() ==> anthropic_tool(t@[i]@, #[trigger] res@[i]),
{
    let mut res: Vec<anthropic::Tool> = Vec::new();
    let mut i: usize = 0;
    while i < t.len()
        invariant
            i <= t@.len(),
            res@.len() == i,
            forall|k: int| 0 <= k < i ==> anthropic_tool(t@[k]@, #[trigger] res@[k]),
        decreases t.len() - i,
    {
        res.push(
            anthropic::Tool {
                name: t[i].name.clone(),
                description: t[i].description.clone(),
                input_schema: t[i].input_schema.clone(),
            },
        );
        i += 1;
    }
    res
}

/// What a session asks, in Anthropic's form.
pub fn anthropic_request(req: &ModelRequest, model: &str) -> (res: anthropic::Request)
    ensures
        anthropic_asks(req@, model@, res),
{
    let mut messages: Vec<anthropic::Message> = Vec::new();
    let mut i: usize = 0;
    while i < req.messages.len()
        invariant
            i <= req.messages@.len(),
            messages@.len() == i,
            forall|k: int|
                0 <= k < i ==> anthropic_message(req@.messages[k], #[trigger] messages@[k]),
        decreases req.messages.len() - i,
    {
        messages.push(anthropic_said(&req.messages[i]));
        proof {
            assert(req@.messages[i as int] == req.messages@[i as int]@);
        }
        i += 1;
    }
    let system = match &req.system {
        Some(s) => Some(s.clone()),
        None => None,
    };
    let tools = anthropic_tools(&req.tools);
    proof {
        assert forall|k: int| 0 <= k < req@.tools.len() implies anthropic_tool(
            req@.tools[k],
            #[trigger] tools@[k],
        ) by {
            assert(req@.tools[k] == req.tools@[k]@);
        }
    }
    anthropic::Request {
        model: model.to_owned(),
        max_tokens: req.max_tokens,
        messages,
        system,
        tools,
    }
}

/// What a session hears of an event of Anthropic's, if anything.
pub open spec fn anthropic_heard(e: anthropic::Sign) -> Option<Heard> {
    match e {
        anthropic::Sign::TextDelta(s) => Some(Heard::TextDelta(s)),
        anthropic::Sign::ToolUseStart { id, name } => Some(Heard::ToolUseStart { id, name }),
        anthropic::Sign::ToolUseInputDelta(s) => Some(Heard::ToolUseInputDelta(s)),
        anthropic::Sign::ContentBlockStop => Some(Heard::BlockStop),
        anthropic::Sign::MessageDelta { stop_reason } => Some(
            Heard::Stop { reason: stop_reason },
        ),
        _ => None,
    }
}

/// What a session hears of an event of Anthropic's, if anything.
pub fn anthropic_event(ev: anthropic::Event) -> (res: Option<ModelEvent>)
    ensures
        match anthropic_heard(ev@) {
            Some(h) => res matches Some(m) && m@ == h,
            None => res is None,
        },
{
    match ev {
        anthropic::Event::TextDelta(s) => Some(ModelEvent::TextDelta(s)),
        anthropic::Event::ToolUseStart { id, name } => Some(
            ModelEvent::ToolUseStart { id, name },
        ),
        anthropic::Event::ToolUseInputDelta(s) => Some(ModelEvent::ToolUseInputDelta(s)),
        anthropic::Event::ContentBlockStop => Some(ModelEvent::BlockStop),
        anthropic::Event::MessageDelta { stop_reason } => Some(
            ModelEvent::Stop { reason: stop_reason },
        ),
        _ => None,
    }
}

} // verus!

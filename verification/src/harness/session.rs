//! A session: it owns the history of a conversation and drives one prompt at a time. The
//! model is asked, the tools that it uses are run, and it is asked again, until it uses none
//! or says that the work is done. Asking the model and running the tools is the caller's part.

use vstd::prelude::*;
use vstd::utf8::*;

use super::model::{
    blocks, copy_history, copy_tools, history_view, said, tools_view, Asked, Block, ChatMessage,
    ContentBlock, Heard, ModelError, ModelEvent, ModelRequest, Role, Said, ToolDef, ToolView,
};
use super::turn::{
    no_turn, sent, turn, turn_blocks, use_block, uses_view, ToolUse, Turn, TurnView, Use,
};
use crate::text::{maybe, text_eq};
use crate::wire::tag::{find_tag, tag_body};

verus! {

pub const DEFAULT_MAX_TOKENS: u32 = 4096;

/// How often a model is asked for one prompt.
pub const MAX_TURNS: usize = 16;

/// What the sessions of an agent have in common.
#[derive(Debug)]
pub struct HarnessState {
    pub name: String,
    pub default_system: Option<String>,
    pub default_max_tokens: u32,
    pub tools: Vec<ToolDef>,
}

/// Mathematical form of a `HarnessState`.
pub struct Defaults {
    pub name: Seq<char>,
    pub system: Option<Seq<char>>,
    pub max_tokens: u32,
    pub tools: Seq<super::model::ToolView>,
}

impl View for HarnessState {
    type V = Defaults;

    open spec fn view(&self) -> Defaults {
        Defaults {
            name: self.name@,
            system: maybe(self.default_system),
            max_tokens: self.default_max_tokens,
            tools: tools_view(self.tools@),
        }
    }
}

impl HarnessState {
    /// No system prompt, no tools, the usual number of tokens.
    pub fn new(name: &str) -> (res: Self)
        ensures
            res@ == (Defaults {
                name: name@,
                system: None,
                max_tokens: DEFAULT_MAX_TOKENS,
                tools: Seq::empty(),
            }),
    {
        let res = HarnessState {
            name: name.to_owned(),
            default_system: None,
            default_max_tokens: DEFAULT_MAX_TOKENS,
            tools: Vec::new(),
        };
        proof {
            assert(res@.tools =~= Seq::empty());
        }
        res
    }

    /// Sets the tools.
    pub fn with_tools(self, tools: Vec<ToolDef>) -> (res: Self)
        ensures
            res@ == (Defaults { tools: tools_view(tools@), ..self@ }),
    {
        HarnessState { tools, ..self }
    }

    /// The place of the first tool with a name.
    pub fn find_tool(&self, name: &str) -> (res: Option<usize>)
        ensures
            match res {
                Some(i) => place(self@.tools, name@, 0) == Some(i as int),
                None => place(self@.tools, name@, 0) is None,
            },
    {
        let ghost t = self@.tools;
        let ghost goal = place(t, name@, 0);
        let mut i: usize = 0;
        while i < self.tools.len()
            invariant
                i <= self.tools@.len(),
                t == self@.tools,
                goal == place(self@.tools, name@, 0),
                goal == place(t, name@, i as int),
            decreases self.tools.len() - i,
        {
            proof {
                assert(t[i as int] == self.tools@[i as int]@);
            }
            if text_eq(self.tools[i].name.as_str(), name) {
                return Some(i);
            }
            i += 1;
        }
        None
    }

    /// Sets the system prompt.
    pub fn with_system(self, system: &str) -> (res: Self)
        ensures
            res@ == (Defaults { system: Some(system@), ..self@ }),
    {
        HarnessState { default_system: Some(system.to_owned()), ..self }
    }
}

/// A conversation.
#[derive(Debug)]
pub struct Session {
    pub name: String,
    pub history: Vec<ChatMessage>,
    pub harness: HarnessState,
}

/// What a prompt came to.
#[derive(Debug)]
pub struct PromptResult {
    pub text: String,
    pub structured: Option<Vec<u8>>,
    pub completed: bool,
    /// How often the model was asked.
    pub turns: usize,
}

/// Why a prompt failed.
#[derive(Debug)]
pub enum SessionError {
    Model(String),
    Mailbox,
    TurnLimitExceeded,
}

/// What a session can be asked for.
#[derive(Debug)]
pub enum SessionMsg {
    Prompt { text: String, structured_output_tag: Option<String> },
    /// A prompt of which is told while it runs.
    PromptStream { text: String, structured_output_tag: Option<String> },
    Shell { cmd: String },
}

/// What a model is asked: a history, under the defaults of a session.
pub open spec fn asked(d: Defaults, messages: Seq<Said>) -> Asked {
    Asked { system: d.system, messages, max_tokens: d.max_tokens, tools: d.tools }
}

/// Bytes that may be missing.
pub open spec fn maybe_bytes(b: Option<Vec<u8>>) -> Option<Seq<u8>> {
    match b {
        Some(v) => Some(v@),
        None => None,
    }
}

/// Why a prompt is not over yet, or what it came to.
#[derive(Debug)]
pub enum PromptStep {
    Done(PromptResult),
    Failed(SessionError),
    /// The tools to run; what they gave goes to `answer_tools`.
    Tools(Vec<ToolUse>),
}

/// The place of the first tool with a name, from the `i`-th on.
pub open spec fn place(tools: Seq<ToolView>, name: Seq<char>, i: int) -> Option<int>
    decreases tools.len() - i,
{
    if i < 0 || i >= tools.len() {
        None
    } else if tools[i].name == name {
        Some(i)
    } else {
        place(tools, name, i + 1)
    }
}

/// What a tool gave: its output, or the text of its error.
pub open spec fn outcome_view(o: Result<String, String>) -> Result<Seq<char>, Seq<char>> {
    match o {
        Ok(t) => Ok(t@),
        Err(m) => Err(m@),
    }
}

pub open spec fn outcomes_view(o: Seq<Result<String, String>>) -> Seq<
    Result<Seq<char>, Seq<char>>,
> {
    Seq::new(o.len(), |i: int| outcome_view(o[i]))
}

/// The answer to a use of a tool. A tool that is not there gives an error.
pub open spec fn result_block(
    tools: Seq<ToolView>,
    u: Use,
    outcome: Result<Seq<char>, Seq<char>>,
) -> Block {
    if place(tools, u.name, 0) is None {
        Block::ToolResult {
            tool_use_id: u.id,
            content: "unknown tool: "@ + u.name,
            is_error: true,
        }
    } else {
        match outcome {
            Ok(t) => Block::ToolResult { tool_use_id: u.id, content: t, is_error: false },
            Err(m) => Block::ToolResult { tool_use_id: u.id, content: m, is_error: true },
        }
    }
}

/// The message that answers the uses of a turn, one by one.
pub open spec fn answers(
    tools: Seq<ToolView>,
    uses: Seq<Use>,
    outcomes: Seq<Result<Seq<char>, Seq<char>>>,
) -> Said {
    Said {
        role: Role::User,
        content: Seq::new(uses.len(), |i: int| result_block(tools, uses[i], outcomes[i])),
    }
}

/// Whether a prompt is over with a turn: it says so, or it uses no tool.
pub open spec fn is_last(t: TurnView) -> bool {
    t.completed || t.uses.len() == 0
}

/// What a turn adds to the history.
pub open spec fn turn_said(t: TurnView) -> Said {
    if is_last(t) {
        said(Role::Assistant, t.text)
    } else {
        Said { role: Role::Assistant, content: turn_blocks(t) }
    }
}

impl Session {
    /// A session without history.
    pub fn new(name: &str, harness: HarnessState) -> (res: Self)
        ensures
            res.name@ == name@,
            res.history@.len() == 0,
            res.harness == harness,
    {
        Session { name: name.to_owned(), history: Vec::new(), harness }
    }

    /// Adds a prompt to the history: the request to send to the model.
    pub fn begin_prompt(&mut self, text: &str) -> (req: ModelRequest)
        ensures
            history_view(final(self).history@) == history_view(old(self).history@).push(
                said(Role::User, text@),
            ),
            final(self).name == old(self).name,
            final(self).harness == old(self).harness,
            req@ == asked(old(self).harness@, history_view(final(self).history@)),
    {
        let ghost before = self.history@;
        self.history.push(ChatMessage::user(text));
        proof {
            assert(history_view(self.history@) =~= history_view(before).push(
                said(Role::User, text@),
            ));
        }
        self.request()
    }

    fn request(&self) -> (req: ModelRequest)
        ensures
            req@ == asked(self.harness@, history_view(self.history@)),
    {
        let system = match &self.harness.default_system {
            Some(s) => Some(s.clone()),
            None => None,
        };
        ModelRequest {
            system,
            messages: copy_history(&self.history),
            max_tokens: self.harness.default_max_tokens,
            tools: copy_tools(&self.harness.tools),
        }
    }

    /// Takes in what the model sent in a turn of a prompt, the `turns`-th. The prompt is
    /// over if the turn says that the work is done or uses no tool. What the model said
    /// joins the history, unless the model failed.
    pub fn run_prompt(
        &mut self,
        turns: usize,
        events: &Vec<Result<ModelEvent, ModelError>>,
        structured_output_tag: &Option<String>,
    ) -> (res: PromptStep)
        ensures
            final(self).name == old(self).name,
            final(self).harness == old(self).harness,
            match turn(sent(events@), 0, no_turn()) {
                Ok(t) => {
                    &&& history_view(final(self).history@) == history_view(old(self).history@).push(
                        turn_said(t),
                    )
                    &&& if is_last(t) {
                        res matches PromptStep::Done(r) && r.text@ == t.text && r.completed
                            == t.completed && r.turns == turns && maybe_bytes(r.structured) == (
                        match *structured_output_tag {
                            Some(tag) => tag_body(encode_utf8(t.text), encode_utf8(tag@)),
                            None => None,
                        })
                    } else {
                        res matches PromptStep::Tools(u) && uses_view(u@) == t.uses
                    }
                },
                Err(err) => {
                    &&& res matches PromptStep::Failed(SessionError::Model(m)) && m@ == err
                    &&& final(self).history == old(self).history
                },
            },
    {
        let t = match Turn::heard(events) {
            Ok(t) => t,
            Err(m) => {
                return PromptStep::Failed(SessionError::Model(m));
            },
        };
        let ghost before = self.history@;
        if !t.completed && t.uses.len() > 0 {
            self.history.push(ChatMessage { role: Role::Assistant, content: t.to_blocks() });
            proof {
                assert(history_view(self.history@) =~= history_view(before).push(turn_said(t@)));
            }
            return PromptStep::Tools(t.uses);
        }
        let structured = match structured_output_tag {
            Some(tag) => find_tag(t.text.as_str().as_bytes(), tag.as_str().as_bytes()),
            None => None,
        };
        self.history.push(ChatMessage::assistant(t.text.as_str()));
        proof {
            assert(history_view(self.history@) =~= history_view(before).push(turn_said(t@)));
        }
        PromptStep::Done(
            PromptResult { text: t.text, structured, completed: t.completed, turns },
        )
    }

    /// Takes in what the tools of a turn, the `turns`-th of a prompt, gave: the answers join
    /// the history, and the model is asked again, unless it was asked often enough.
    pub fn answer_tools(
        &mut self,
        turns: usize,
        uses: &Vec<ToolUse>,
        outcomes: &Vec<Result<String, String>>,
    ) -> (res: Result<ModelRequest, SessionError>)
        requires
            outcomes@.len() == uses@.len(),
        ensures
            final(self).name == old(self).name,
            final(self).harness == old(self).harness,
            history_view(final(self).history@) == history_view(old(self).history@).push(
                answers(old(self).harness@.tools, uses_view(uses@), outcomes_view(outcomes@)),
            ),
            if turns >= MAX_TURNS {
                res matches Err(SessionError::TurnLimitExceeded)
            } else {
                res matches Ok(req) && req@ == asked(
                    old(self).harness@,
                    history_view(final(self).history@),
                )
            },
    {
        let ghost before = self.history@;
        let content = self.results(uses, outcomes);
        self.history.push(ChatMessage { role: Role::User, content });
        proof {
            let m = answers(self.harness@.tools, uses_view(uses@), outcomes_view(outcomes@));
            assert(history_view(self.history@) =~= history_view(before).push(m));
        }
        if turns >= MAX_TURNS {
            return Err(SessionError::TurnLimitExceeded);
        }
        Ok(self.request())
    }

    fn results(&self, uses: &Vec<ToolUse>, outcomes: &Vec<Result<String, String>>) -> (res: Vec<
        ContentBlock,
    >)
        requires
            outcomes@.len() == uses@.len(),
        ensures
            blocks(res@) == answers(
                self.harness@.tools,
                uses_view(uses@),
                outcomes_view(outcomes@),
            ).content,
    {
        let ghost tools = self.harness@.tools;
        let mut res: Vec<ContentBlock> = Vec::new();
        let mut i: usize = 0;
        while i < uses.len()
            invariant
                i <= uses@.len(),
                outcomes@.len() == uses@.len(),
                tools == self.harness@.tools,
                res@.len() == i,
                forall|k: int|
                    0 <= k < i ==> (#[trigger] res@[k])@ == result_block(
                        tools,
                        uses@[k]@,
                        outcome_view(outcomes@[k]),
                    ),
            decreases uses.len() - i,
        {
            let u = &uses[i];
            let b = match self.harness.find_tool(u.name.as_str()) {
                None => {
                    let mut m = "unknown tool: ".to_owned();
                    m.push_str(u.name.as_str());
                    ContentBlock::ToolResult {
                        tool_use_id: u.id.clone(),
                        content: m,
                        is_error: true,
                    }
                },
                Some(_) => match &outcomes[i] {
                    Ok(t) => ContentBlock::ToolResult {
                        tool_use_id: u.id.clone(),
                        content: t.clone(),
                        is_error: false,
                    },
                    Err(m) => ContentBlock::ToolResult {
                        tool_use_id: u.id.clone(),
                        content: m.clone(),
                        is_error: true,
                    },
                },
            };
            res.push(b);
            i += 1;
        }
        proof {
            assert(blocks(res@) =~= answers(tools, uses_view(uses@), outcomes_view(outcomes@)).content);
        }
        res
    }
}

// ---------------------------------------------------------------------------------
// Laws
// ---------------------------------------------------------------------------------
/// Every use of a tool is answered, once, in its place and under its id, whatever the tools
/// gave and whether or not they are there.
pub proof fn law_every_use_is_answered(
    tools: Seq<ToolView>,
    t: TurnView,
    outcomes: Seq<Result<Seq<char>, Seq<char>>>,
)
    requires
        !is_last(t),
        outcomes.len() == t.uses.len(),
    ensures
        ({
            let asked_for = turn_said(t).content;
            let skipped = asked_for.len() - t.uses.len();
            let got = answers(tools, t.uses, outcomes).content;
            &&& 0 <= skipped <= 1
            &&& got.len() == asked_for.len() - skipped
            &&& forall|i: int|
                0 <= i < got.len() ==> ((#[trigger] asked_for[skipped + i]) matches Block::ToolUse {
                    id,
                    ..
                } && got[i] matches Block::ToolResult { tool_use_id, .. } && tool_use_id == id)
        }),
{
    let asked_for = turn_said(t).content;
    let skipped = asked_for.len() - t.uses.len();
    assert forall|i: int| 0 <= i < t.uses.len() implies (#[trigger] asked_for[skipped + i]
        == use_block(t.uses[i])) by {}
}

/// A turn that says that the work is done ends the prompt, whatever tools it uses.
pub proof fn law_completion_ends_the_prompt(e: Seq<Result<Heard, Seq<char>>>)
    requires
        turn(e, 0, no_turn()) matches Ok(t) && t.completed,
    ensures
        ({
            let t = turn(e, 0, no_turn())->Ok_0;
            is_last(t) && turn_said(t) == said(Role::Assistant, t.text)
        }),
{
}

} // verus!

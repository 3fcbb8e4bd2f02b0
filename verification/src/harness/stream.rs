//! What is told of a prompt while it runs: the model's events in their order, the end of each
//! turn, what the tools gave, and at last what the prompt came to.

use vstd::prelude::*;

use super::model::{Block, ContentBlock, Heard, ModelError, ModelEvent};
use super::session::{PromptResult, SessionError};
use super::turn::{fed, no_turn, sent, turn, Turn, TurnView};
use crate::text::maybe;

verus! {

/// Something that happens while a prompt runs.
#[derive(Debug)]
pub enum StreamEvent {
    TextDelta(String),
    ToolUseStart { id: String, name: String },
    ToolUseInputDelta(String),
    BlockStop,
    ToolResult { tool_use_id: String, content: String, is_error: bool },
    TurnComplete { turn: usize, stop_reason: Option<String> },
    Done(PromptResult),
    Cancelled,
    Error(SessionError),
}

/// Mathematical form of what is told of a turn.
pub enum Told {
    TextDelta(Seq<char>),
    ToolUseStart { id: Seq<char>, name: Seq<char> },
    ToolUseInputDelta(Seq<char>),
    BlockStop,
    ToolResult { tool_use_id: Seq<char>, content: Seq<char>, is_error: bool },
    TurnComplete { turn: nat, stop_reason: Option<Seq<char>> },
    /// The prompt is over.
    Last,
}

impl View for StreamEvent {
    type V = Told;

    open spec fn view(&self) -> Told {
        match *self {
            StreamEvent::TextDelta(s) => Told::TextDelta(s@),
            StreamEvent::ToolUseStart { id, name } => Told::ToolUseStart { id: id@, name: name@ },
            StreamEvent::ToolUseInputDelta(s) => Told::ToolUseInputDelta(s@),
            StreamEvent::BlockStop => Told::BlockStop,
            StreamEvent::ToolResult { tool_use_id, content, is_error } => Told::ToolResult {
                tool_use_id: tool_use_id@,
                content: content@,
                is_error,
            },
            StreamEvent::TurnComplete { turn, stop_reason } => Told::TurnComplete {
                turn: turn as nat,
                stop_reason: maybe(stop_reason),
            },
            _ => Told::Last,
        }
    }
}

pub open spec fn told_view(s: Seq<StreamEvent>) -> Seq<Told> {
    Seq::new(s.len(), |i: int| s[i]@)
}

/// What is told of an event of the model: that it stopped is part of the turn's end.
pub open spec fn told(h: Heard) -> Option<Told> {
    match h {
        Heard::TextDelta(s) => Some(Told::TextDelta(s)),
        Heard::ToolUseStart { id, name } => Some(Told::ToolUseStart { id, name }),
        Heard::ToolUseInputDelta(s) => Some(Told::ToolUseInputDelta(s)),
        Heard::BlockStop => Some(Told::BlockStop),
        Heard::Stop { .. } => None,
    }
}

/// What is told of a turn from its `i`-th event on: the events that count, and its end,
/// unless the model fails.
pub open spec fn narration(
    e: Seq<Result<Heard, Seq<char>>>,
    i: int,
    t: TurnView,
    turns: nat,
) -> Seq<Told>
    decreases e.len() - i,
{
    if i < 0 || i >= e.len() || t.completed {
        seq![Told::TurnComplete { turn: turns, stop_reason: t.stop_reason }]
    } else {
        match e[i] {
            Ok(h) => {
                let rest = narration(e, i + 1, fed(t, h), turns);
                match told(h) {
                    Some(x) => seq![x] + rest,
                    None => rest,
                }
            },
            Err(_) => Seq::empty(),
        }
    }
}

/// What is told of an event of the model.
pub fn relay(ev: &ModelEvent) -> (res: Option<StreamEvent>)
    ensures
        match told(ev@) {
            Some(x) => res matches Some(s) && s@ == x,
            None => res is None,
        },
{
    match ev {
        ModelEvent::TextDelta(s) => Some(StreamEvent::TextDelta(s.clone())),
        ModelEvent::ToolUseStart { id, name } => Some(
            StreamEvent::ToolUseStart { id: id.clone(), name: name.clone() },
        ),
        ModelEvent::ToolUseInputDelta(s) => Some(StreamEvent::ToolUseInputDelta(s.clone())),
        ModelEvent::BlockStop => Some(StreamEvent::BlockStop),
        ModelEvent::Stop { .. } => None,
    }
}

/// What is told of a turn, the `turns`-th of a prompt.
pub fn narrate(turns: usize, events: &Vec<Result<ModelEvent, ModelError>>) -> (res: Vec<
    StreamEvent,
>)
    ensures
        told_view(res@) == narration(sent(events@), 0, no_turn(), turns as nat),
{
    let ghost e = sent(events@);
    let ghost goal = narration(e, 0, no_turn(), turns as nat);
    let mut res: Vec<StreamEvent> = Vec::new();
    let mut t = Turn::new();
    let mut i: usize = 0;
    proof {
        assert(told_view(res@) + goal =~= goal);
    }
    while i < events.len() && !t.completed
        invariant
            i <= events@.len(),
            e == sent(events@),
            goal == narration(sent(events@), 0, no_turn(), turns as nat),
            goal == told_view(res@) + narration(e, i as int, t@, turns as nat),
        decreases events.len() - i,
    {
        proof {
            assert(e[i as int] == (match events@[i as int] {
                Ok(ev) => Ok(ev@),
                Err(err) => Err(err.0@),
            }));
        }
        match &events[i] {
            Ok(ev) => {
                let ghost r0 = res@;
                let ghost rest = narration(e, i + 1, fed(t@, ev@), turns as nat);
                if let Some(s) = relay(ev) {
                    res.push(s);
                    proof {
                        assert(told_view(res@) =~= told_view(r0).push(s@));
                        assert(told_view(res@) + rest =~= told_view(r0) + (seq![s@] + rest));
                    }
                }
                t.feed(ev);
            },
            Err(_) => {
                proof {
                    assert(told_view(res@) + Seq::<Told>::empty() =~= told_view(res@));
                }
                return res;
            },
        }
        i += 1;
    }
    res.push(StreamEvent::TurnComplete { turn: turns, stop_reason: t.stop_reason });
    proof {
        assert(told_view(res@) =~= goal);
    }
    res
}

/// What is told of a block of the message that answers the uses of a turn.
pub fn relay_result(b: &ContentBlock) -> (res: Option<StreamEvent>)
    ensures
        match b@ {
            Block::ToolResult { tool_use_id, content, is_error } => res matches Some(s) && s@ == (
            Told::ToolResult { tool_use_id, content, is_error }),
            _ => res is None,
        },
{
    match b {
        ContentBlock::ToolResult { tool_use_id, content, is_error } => Some(
            StreamEvent::ToolResult {
                tool_use_id: tool_use_id.clone(),
                content: content.clone(),
                is_error: *is_error,
            },
        ),
        _ => None,
    }
}

/// What is told last: what the prompt came to.
pub fn last_event(outcome: Result<PromptResult, SessionError>) -> (res: StreamEvent)
    ensures
        match outcome {
            Ok(r) => res == StreamEvent::Done(r),
            Err(e) => res == StreamEvent::Error(e),
        },
{
    match outcome {
        Ok(r) => StreamEvent::Done(r),
        Err(e) => StreamEvent::Error(e),
    }
}

// ---------------------------------------------------------------------------------
// Laws
// ---------------------------------------------------------------------------------
/// The text in what is told.
pub open spec fn told_text(s: Seq<Told>) -> Seq<char>
    decreases s.len(),
{
    if s.len() == 0 {
        Seq::empty()
    } else {
        let rest = told_text(s.drop_first());
        match s[0] {
            Told::TextDelta(x) => x + rest,
            _ => rest,
        }
    }
}

/// The text that is told of a turn is the text of the turn.
pub proof fn law_text_is_told(e: Seq<Result<Heard, Seq<char>>>, turns: nat)
    requires
        turn(e, 0, no_turn()) is Ok,
    ensures
        told_text(narration(e, 0, no_turn(), turns)) == (turn(e, 0, no_turn())->Ok_0).text,
{
    lemma_text_is_told(e, 0, no_turn(), turns);
    assert(no_turn().text + told_text(narration(e, 0, no_turn(), turns)) =~= told_text(
        narration(e, 0, no_turn(), turns),
    ));
}

proof fn lemma_text_is_told(e: Seq<Result<Heard, Seq<char>>>, i: int, t: TurnView, turns: nat)
    requires
        turn(e, i, t) is Ok,
    ensures
        t.text + told_text(narration(e, i, t, turns)) == (turn(e, i, t)->Ok_0).text,
    decreases e.len() - i,
{
    if i < 0 || i >= e.len() || t.completed {
        let s = narration(e, i, t, turns);
        assert(s.drop_first() =~= Seq::empty());
        reveal_with_fuel(told_text, 2);
        assert(told_text(s) =~= Seq::empty());
        assert(t.text + told_text(s) =~= t.text);
    } else if let Ok(h) = e[i] {
        let next = fed(t, h);
        let rest = narration(e, i + 1, next, turns);
        lemma_text_is_told(e, i + 1, next, turns);
        if let Some(x) = told(h) {
            let s = seq![x] + rest;
            assert(s.drop_first() =~= rest);
            if let Heard::TextDelta(d) = h {
                assert(t.text + (d + told_text(rest)) =~= (t.text + d) + told_text(rest));
            }
        }
    }
}

} // verus!

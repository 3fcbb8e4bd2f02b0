//! One turn of a model: the text and the uses of tools that its events add up to.

use vstd::prelude::*;
use vstd::utf8::*;

use super::model::{Block, ContentBlock, Heard, ModelError, ModelEvent};
use crate::text::{bytes_eq, is_empty, maybe};
use crate::wire::tag::{find_tag, tag_body};

verus! {

/// A use of a tool. The input is a JSON text.
#[derive(Debug, PartialEq, Eq)]
pub struct ToolUse {
    pub id: String,
    pub name: String,
    pub input: String,
}

/// Mathematical form of a `ToolUse`.
pub struct Use {
    pub id: Seq<char>,
    pub name: Seq<char>,
    pub input: Seq<char>,
}

impl View for ToolUse {
    type V = Use;

    open spec fn view(&self) -> Use {
        Use { id: self.id@, name: self.name@, input: self.input@ }
    }
}

pub open spec fn uses_view(u: Seq<ToolUse>) -> Seq<Use> {
    Seq::new(u.len(), |i: int| u[i]@)
}

/// A turn so far.
#[derive(Debug)]
pub struct Turn {
    pub text: String,
    pub uses: Vec<ToolUse>,
    /// Whether input still belongs to the last use.
    pub open: bool,
    /// Whether the text says that the work is done.
    pub completed: bool,
    /// Why the model stopped, as it says.
    pub stop_reason: Option<String>,
}

/// Mathematical form of a `Turn`.
pub struct TurnView {
    pub text: Seq<char>,
    pub uses: Seq<Use>,
    pub open: bool,
    pub completed: bool,
    pub stop_reason: Option<Seq<char>>,
}

impl View for Turn {
    type V = TurnView;

    open spec fn view(&self) -> TurnView {
        TurnView {
            text: self.text@,
            uses: uses_view(self.uses@),
            open: self.open,
            completed: self.completed,
            stop_reason: maybe(self.stop_reason),
        }
    }
}

/// A turn in which nothing was heard.
pub open spec fn no_turn() -> TurnView {
    TurnView {
        text: Seq::empty(),
        uses: Seq::empty(),
        open: false,
        completed: false,
        stop_reason: None,
    }
}

/// Whether a response says that the work is done: `<promise>COMPLETE</promise>`.
pub open spec fn says_complete(response: Seq<char>) -> bool {
    tag_body(encode_utf8(response), encode_utf8("promise"@)) == Some(encode_utf8("COMPLETE"@))
}

/// Uses with more input to the last of them.
pub open spec fn more_input(uses: Seq<Use>, s: Seq<char>) -> Seq<Use> {
    let last = uses.last();
    uses.drop_last().push(Use { id: last.id, name: last.name, input: last.input + s })
}

/// A turn after one more event. Input that belongs to no use is dropped.
pub open spec fn fed(t: TurnView, h: Heard) -> TurnView {
    match h {
        Heard::TextDelta(s) => TurnView {
            text: t.text + s,
            completed: says_complete(t.text + s),
            ..t
        },
        Heard::ToolUseStart { id, name } => TurnView {
            uses: t.uses.push(Use { id, name, input: Seq::empty() }),
            open: true,
            ..t
        },
        Heard::ToolUseInputDelta(s) => if t.open && t.uses.len() > 0 {
            TurnView { uses: more_input(t.uses, s), ..t }
        } else {
            t
        },
        Heard::BlockStop => TurnView { open: false, ..t },
        Heard::Stop { reason } => TurnView { stop_reason: reason, ..t },
    }
}

/// Mathematical form of what a model sends.
pub open spec fn sent(e: Seq<Result<ModelEvent, ModelError>>) -> Seq<Result<Heard, Seq<char>>> {
    Seq::new(
        e.len(),
        |i: int|
            match e[i] {
                Ok(ev) => Ok(ev@),
                Err(err) => Err(err.0@),
            },
    )
}

/// The turn that events from the `i`-th on make of a turn so far. Nothing that stands
/// behind its completion counts. The text of the error where the model fails first.
pub open spec fn turn(e: Seq<Result<Heard, Seq<char>>>, i: int, t: TurnView) -> Result<
    TurnView,
    Seq<char>,
>
    decreases e.len() - i,
{
    if i < 0 || i >= e.len() || t.completed {
        Ok(t)
    } else {
        match e[i] {
            Ok(h) => turn(e, i + 1, fed(t, h)),
            Err(err) => Err(err),
        }
    }
}

impl Turn {
    /// Nothing was heard yet.
    pub fn new() -> (res: Self)
        ensures
            res@ == no_turn(),
    {
        let res = Turn {
            text: String::new(),
            uses: Vec::new(),
            open: false,
            completed: false,
            stop_reason: None,
        };
        proof {
            assert(res@.text =~= Seq::empty());
            assert(res@.uses =~= Seq::empty());
        }
        res
    }

    /// Takes in the next event.
    pub fn feed(&mut self, ev: &ModelEvent)
        ensures
            final(self)@ == fed(old(self)@, ev@),
    {
        let ghost before = self@;
        match ev {
            ModelEvent::TextDelta(s) => {
                self.text.push_str(s.as_str());
                let body = find_tag(self.text.as_str().as_bytes(), "promise".as_bytes());
                self.completed = match body {
                    Some(b) => bytes_eq(b.as_slice(), "COMPLETE".as_bytes()),
                    None => false,
                };
            },
            ModelEvent::ToolUseStart { id, name } => {
                let u = ToolUse { id: id.clone(), name: name.clone(), input: String::new() };
                proof {
                    assert(u@.input =~= Seq::empty());
                }
                self.uses.push(u);
                self.open = true;
                proof {
                    assert(self@.uses =~= before.uses.push(u@));
                }
            },
            ModelEvent::ToolUseInputDelta(s) => {
                if self.open {
                    let ghost uses = self.uses@;
                    match self.uses.pop() {
                        Some(last) => {
                            let mut last = last;
                            last.input.push_str(s.as_str());
                            self.uses.push(last);
                            proof {
                                assert(uses_view(uses).last() == uses.last()@);
                                assert(self@.uses =~= more_input(before.uses, s@));
                            }
                        },
                        None => {
                            proof {
                                assert(self@.uses =~= before.uses);
                            }
                        },
                    }
                }
            },
            ModelEvent::BlockStop => {
                self.open = false;
            },
            ModelEvent::Stop { reason } => {
                self.stop_reason = match reason {
                    Some(r) => Some(r.clone()),
                    None => None,
                };
            },
        }
    }

    /// The turn that a model's events make, or the text of the error with which it failed.
    pub fn heard(events: &Vec<Result<ModelEvent, ModelError>>) -> (res: Result<Self, String>)
        ensures
            match turn(sent(events@), 0, no_turn()) {
                Ok(t) => res matches Ok(x) && x@ == t,
                Err(m) => res matches Err(e) && e@ == m,
            },
    {
        let ghost e = sent(events@);
        let ghost goal = turn(e, 0, no_turn());
        let mut t = Turn::new();
        let mut i: usize = 0;
        while i < events.len() && !t.completed
            invariant
                i <= events@.len(),
                e == sent(events@),
                goal == turn(sent(events@), 0, no_turn()),
                goal == turn(e, i as int, t@),
            decreases events.len() - i,
        {
            proof {
                assert(e[i as int] == (match events@[i as int] {
                    Ok(ev) => Ok(ev@),
                    Err(err) => Err(err.0@),
                }));
            }
            match &events[i] {
                Ok(ev) => t.feed(ev),
                Err(err) => {
                    return Err(err.0.clone());
                },
            }
            i += 1;
        }
        Ok(t)
    }
}

// ---------------------------------------------------------------------------------
// What a turn says
// ---------------------------------------------------------------------------------
/// A use as a block of a message.
pub open spec fn use_block(u: Use) -> Block {
    Block::ToolUse { id: u.id, name: u.name, input: u.input }
}

/// The blocks of a turn that uses tools: its text, unless it is empty, and the uses.
pub open spec fn turn_blocks(t: TurnView) -> Seq<Block> {
    let text = if t.text.len() == 0 {
        Seq::empty()
    } else {
        seq![Block::Text(t.text)]
    };
    text + Seq::new(t.uses.len(), |i: int| use_block(t.uses[i]))
}

impl Turn {
    /// The blocks of a turn that uses tools.
    pub fn to_blocks(&self) -> (res: Vec<ContentBlock>)
        ensures
            super::model::blocks(res@) == turn_blocks(self@),
    {
        let mut res: Vec<ContentBlock> = Vec::new();
        if !is_empty(self.text.as_str()) {
            res.push(ContentBlock::Text(self.text.clone()));
        }
        let ghost head = res@;
        let mut i: usize = 0;
        while i < self.uses.len()
            invariant
                i <= self.uses@.len(),
                res@.len() == head.len() + i,
                forall|k: int| 0 <= k < head.len() ==> res@[k] == head[k],
                forall|k: int|
                    0 <= k < i ==> (#[trigger] res@[head.len() + k])@ == use_block(
                        self.uses@[k]@,
                    ),
            decreases self.uses.len() - i,
        {
            let u = &self.uses[i];
            res.push(
                ContentBlock::ToolUse {
                    id: u.id.clone(),
                    name: u.name.clone(),
                    input: u.input.clone(),
                },
            );
            i += 1;
        }
        proof {
            let want = turn_blocks(self@);
            let got = super::model::blocks(res@);
            assert forall|k: int| 0 <= k < got.len() implies got[k] == want[k] by {
                if k >= head.len() {
                    let j = k - head.len();
                    assert(res@[head.len() + j]@ == use_block(self.uses@[j]@));
                    assert(self@.uses[j] == self.uses@[j]@);
                    assert(want[k] == use_block(self@.uses[j]));
                } else {
                    assert(res@[k] == head[k]);
                    assert(want[k] == Block::Text(self.text@));
                }
            }
            assert(got =~= want);
        }
        res
    }
}

// ---------------------------------------------------------------------------------
// Laws
// ---------------------------------------------------------------------------------
/// Whatever stands behind the event with which the work is done makes no difference.
pub proof fn law_nothing_after_completion(
    e: Seq<Result<Heard, Seq<char>>>,
    more: Seq<Result<Heard, Seq<char>>>,
    i: int,
    t: TurnView,
)
    requires
        0 <= i,
        turn(e, i, t) matches Ok(x) && x.completed,
    ensures
        turn(e + more, i, t) == turn(e, i, t),
    decreases e.len() - i,
{
    if i < e.len() && !t.completed {
        assert((e + more)[i] == e[i]);
        if let Ok(h) = e[i] {
            law_nothing_after_completion(e, more, i + 1, fed(t, h));
        }
    }
}

} // verus!

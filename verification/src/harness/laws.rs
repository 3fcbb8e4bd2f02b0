//! What holds of every conversation.

use vstd::prelude::*;
use vstd::utf8::*;

use super::adapters::{
    anthropic_asks, anthropic_heard, openai_asks, openai_heard, plain_text,
};
use super::bash::{command_in, printed};
use super::model::{
    history_view, tools_view, Asked, Block, ChatMessage, ContentBlock, Heard, ModelError,
    ModelEvent, Role, Said, ToolDef, ToolView,
};
use super::session::{
    answers, asked, is_last, outcomes_view, place, turn_said, Defaults, DEFAULT_MAX_TOKENS,
    MAX_TURNS,
};
use super::stream::{narration, told_view, StreamEvent, Told};
use super::turn::{fed, no_turn, sent, turn, uses_view, ToolUse, TurnView, Use};
use crate::anthropic;
use crate::json::{member_str, parsed};
use crate::openai;
use crate::text::{maybe, readable, signed_dec};
use crate::wire::scan::{find, lemma_find, stands_at};
use crate::wire::tag::tag_body;

verus! {

// ---------------------------------------------------------------------------------
// Turns
// ---------------------------------------------------------------------------------
/// The text in an event.
pub open spec fn delta(h: Result<Heard, Seq<char>>) -> Seq<char> {
    match h {
        Ok(Heard::TextDelta(s)) => s,
        _ => Seq::empty(),
    }
}

/// Whether an event is the beginning of a use of a tool.
pub open spec fn starts(h: Result<Heard, Seq<char>>) -> bool {
    h matches Ok(Heard::ToolUseStart { .. })
}

/// Whether a turn is what the first `n` events add up to: their texts, one behind the other, and
/// one use of a tool for each that begins one, in their order, with its id and its name.
pub open spec fn adds_up(e: Seq<Result<Heard, Seq<char>>>, n: int, t: TurnView) -> bool {
    let begun = e.take(n).filter(|h: Result<Heard, Seq<char>>| starts(h));
    &&& 0 <= n <= e.len()
    &&& forall|i: int| 0 <= i < n ==> (#[trigger] e[i]) is Ok
    &&& t.text == e.take(n).map_values(|h: Result<Heard, Seq<char>>| delta(h)).flatten()
    &&& t.uses.len() == begun.len()
    &&& forall|j: int|
        0 <= j < begun.len() ==> (#[trigger] begun[j] matches Ok(Heard::ToolUseStart { id, name })
            && t.uses[j].id == id && t.uses[j].name == name)
}

proof fn lemma_adds_up(e: Seq<Result<Heard, Seq<char>>>, i: int, t0: TurnView) -> (n: int)
    requires
        0 <= i,
        adds_up(e, i, t0),
        turn(e, i, t0) is Ok,
    ensures
        adds_up(e, n, turn(e, i, t0)->Ok_0),
        n == e.len() || (turn(e, i, t0)->Ok_0).completed,
    decreases e.len() - i,
{
    if i >= e.len() || t0.completed {
        i
    } else {
        let f = |h: Result<Heard, Seq<char>>| delta(h);
        let p = |h: Result<Heard, Seq<char>>| starts(h);
        let h = e[i]->Ok_0;
        let t1 = fed(t0, h);
        assert(e.take(i + 1) =~= e.take(i).push(e[i]));
        assert(e.take(i + 1).map_values(f) =~= e.take(i).map_values(f).push(delta(e[i])));
        e.take(i).map_values(f).lemma_flatten_push(delta(e[i]));
        assert(t0.text + Seq::<char>::empty() =~= t0.text);
        assert(e.take(i + 1).drop_last() =~= e.take(i));
        reveal(Seq::filter);
        let begun = e.take(i).filter(p);
        let more = e.take(i + 1).filter(p);
        assert(more == if starts(e[i]) {
            begun.push(e[i])
        } else {
            begun
        });
        assert forall|j: int| 0 <= j < more.len() implies (#[trigger] more[j] matches Ok(
            Heard::ToolUseStart { id, name },
        ) && t1.uses[j].id == id && t1.uses[j].name == name) by {
            if j < begun.len() {
                assert(begun[j] == more[j]);
            }
        }
        assert(adds_up(e, i + 1, t1));
        lemma_adds_up(e, i + 1, t1)
    }
}

/// A turn is what its events add up to, all of them unless the text says before that the work is
/// done.
pub proof fn law_turn_adds_up(e: Seq<Result<Heard, Seq<char>>>, t: TurnView)
    requires
        turn(e, 0, no_turn()) == Ok::<_, Seq<char>>(t),
    ensures
        exists|n: int| #[trigger] adds_up(e, n, t) && (n == e.len() || t.completed),
{
    let f = |h: Result<Heard, Seq<char>>| delta(h);
    let p = |h: Result<Heard, Seq<char>>| starts(h);
    assert(e.take(0) =~= Seq::empty());
    assert(e.take(0).map_values(f) =~= Seq::empty());
    reveal(Seq::filter);
    assert(adds_up(e, 0, no_turn()));
    let n = lemma_adds_up(e, 0, no_turn());
    assert(adds_up(e, n, t));
}

/// The input of a use of a tool is all the input that follows its beginning, up to the end of its
/// block; behind that end input belongs to no use, and is dropped.
pub proof fn law_input_belongs_to_the_open_use(
    e: Seq<Result<Heard, Seq<char>>>,
    i: int,
    t: TurnView,
    id: Seq<char>,
    name: Seq<char>,
    d: Seq<Seq<char>>,
)
    requires
        0 <= i,
        i + d.len() < e.len(),
        !t.completed,
        e[i] == Ok::<_, Seq<char>>(Heard::ToolUseStart { id, name }),
        forall|k: int|
            0 <= k < d.len() ==> #[trigger] e[i + 1 + k] == Ok::<_, Seq<char>>(
                Heard::ToolUseInputDelta(d[k]),
            ),
    ensures
        turn(e, i, t) == turn(
            e,
            i + 1 + d.len(),
            TurnView {
                uses: t.uses.push(Use { id, name, input: d.flatten() }),
                open: true,
                ..t
            },
        ),
        forall|s: Seq<char>|
            #[trigger] fed(fed(t, Heard::BlockStop), Heard::ToolUseInputDelta(s)) == fed(
                t,
                Heard::BlockStop,
            ),
{
    let first = fed(t, Heard::ToolUseStart { id, name });
    assert(d.take(0).flatten() =~= Seq::empty());
    lemma_input(e, i, t, id, name, d, 0);
    assert(first == (TurnView {
        uses: t.uses.push(Use { id, name, input: d.take(0).flatten() }),
        open: true,
        ..t
    }));
}

proof fn lemma_input(
    e: Seq<Result<Heard, Seq<char>>>,
    i: int,
    t: TurnView,
    id: Seq<char>,
    name: Seq<char>,
    d: Seq<Seq<char>>,
    k: int,
)
    requires
        0 <= i,
        0 <= k <= d.len(),
        i + d.len() < e.len(),
        !t.completed,
        forall|k: int|
            0 <= k < d.len() ==> #[trigger] e[i + 1 + k] == Ok::<_, Seq<char>>(
                Heard::ToolUseInputDelta(d[k]),
            ),
    ensures
        turn(
            e,
            i + 1 + k,
            TurnView {
                uses: t.uses.push(Use { id, name, input: d.take(k).flatten() }),
                open: true,
                ..t
            },
        ) == turn(
            e,
            i + 1 + d.len(),
            TurnView {
                uses: t.uses.push(Use { id, name, input: d.flatten() }),
                open: true,
                ..t
            },
        ),
    decreases d.len() - k,
{
    let uses = t.uses.push(Use { id, name, input: d.take(k).flatten() });
    let now = TurnView { uses, open: true, ..t };
    if k < d.len() {
        let next = TurnView {
            uses: t.uses.push(Use { id, name, input: d.take(k + 1).flatten() }),
            open: true,
            ..t
        };
        assert(e[i + 1 + k] == Ok::<_, Seq<char>>(Heard::ToolUseInputDelta(d[k])));
        assert(d.take(k + 1) =~= d.take(k).push(d[k]));
        d.take(k).lemma_flatten_push(d[k]);
        assert(fed(now, Heard::ToolUseInputDelta(d[k])).uses =~= next.uses);
        assert(fed(now, Heard::ToolUseInputDelta(d[k])) == next);
        lemma_input(e, i, t, id, name, d, k + 1);
    } else {
        assert(d.take(k) =~= d);
    }
}

/// A model that fails before the work is done fails the turn, with its error.
pub proof fn law_failure_fails_the_turn(
    e: Seq<Result<Heard, Seq<char>>>,
    i: int,
    t: TurnView,
    m: Seq<char>,
)
    requires
        0 <= i < e.len(),
        e[i] == Err::<Heard, Seq<char>>(m),
    ensures
        !t.completed ==> turn(e, i, t) == Err::<TurnView, Seq<char>>(m),
        t.completed ==> turn(e, i, t) == Ok::<_, Seq<char>>(t),
{
}

/// What stands between the first opening tag and the first closing tag behind it is the body, and
/// there is none where one of them is missing.
pub proof fn law_body_is_between_the_tags(b: Seq<u8>, tag: Seq<u8>, i: int, j: int)
    requires
        0 <= i,
        ({
            let open = seq![0x3cu8] + tag + seq![0x3eu8];
            let close = seq![0x3cu8, 0x2fu8] + tag + seq![0x3eu8];
            &&& i + open.len() <= j && j + close.len() <= b.len()
            &&& b.subrange(i, i + open.len()) == open
            &&& b.subrange(j, j + close.len()) == close
            &&& forall|k: int|
                0 <= k < i ==> #[trigger] b.subrange(k, k + open.len()) != open
            &&& forall|k: int|
                i + open.len() <= k < j ==> #[trigger] b.subrange(k, k + close.len()) != close
        }),
    ensures
        tag_body(b, tag) == Some(b.subrange(i + tag.len() + 2, j)),
{
    let open = seq![0x3cu8] + tag + seq![0x3eu8];
    let close = seq![0x3cu8, 0x2fu8] + tag + seq![0x3eu8];
    lemma_find(b, 0, open);
    assert(stands_at(b, i, open));
    let f = find(b, 0, open)->0;
    assert(f == i) by {
        if f < i {
            assert(b.subrange(f, f + open.len()) != open);
        }
    }
    lemma_find(b, i + open.len() as int, close);
    assert(stands_at(b, j, close));
    let g = find(b, i + open.len() as int, close)->0;
    assert(g == j) by {
        if g < j {
            assert(b.subrange(g, g + close.len()) != close);
        }
    }
}

/// The work is done with the text in which `<promise>COMPLETE</promise>` is first to be read, and
/// only a text can say so.
pub proof fn law_promise_completes(t: TurnView, h: Heard)
    ensures
        h matches Heard::TextDelta(s) ==> fed(t, h).completed == (tag_body(
            encode_utf8(t.text + s),
            encode_utf8("promise"@),
        ) == Some(encode_utf8("COMPLETE"@))),
        !(h is TextDelta) ==> fed(t, h).completed == t.completed && fed(t, h).text == t.text,
        h matches Heard::Stop { reason } ==> fed(t, h).stop_reason == reason,
        !(h is Stop) ==> fed(t, h).stop_reason == t.stop_reason,
{
}

// ---------------------------------------------------------------------------------
// Sessions
// ---------------------------------------------------------------------------------
/// A prompt is over with the first turn that says so or uses no tool; the history then keeps its
/// text. Any other turn is kept with its text, if there is any, and all its uses, in their order.
pub proof fn law_history_keeps_the_turn(t: TurnView)
    ensures
        is_last(t) <==> t.completed || t.uses.len() == 0,
        turn_said(t).role == Role::Assistant,
        is_last(t) ==> turn_said(t).content =~= seq![Block::Text(t.text)],
        !is_last(t) ==> {
            let c = turn_said(t).content;
            let skipped = if t.text.len() == 0 {
                0int
            } else {
                1
            };
            &&& c.len() == skipped + t.uses.len()
            &&& skipped == 1 ==> c[0] == Block::Text(t.text)
            &&& forall|i: int|
                0 <= i < t.uses.len() ==> #[trigger] c[skipped + i] == (Block::ToolUse {
                    id: t.uses[i].id,
                    name: t.uses[i].name,
                    input: t.uses[i].input,
                })
        },
{
}

/// A use of a tool is answered with what the tool gave: its output, or its error as an error. A
/// tool that is not there is an error that names it. The answers are the user's.
pub proof fn law_tools_are_answered(
    tools: Seq<ToolView>,
    uses: Seq<Use>,
    outcomes: Seq<Result<Seq<char>, Seq<char>>>,
    i: int,
)
    requires
        0 <= i < uses.len(),
        outcomes.len() == uses.len(),
    ensures
        ({
            let a = answers(tools, uses, outcomes);
            let there = exists|k: int|
                0 <= k < tools.len() && (#[trigger] tools[k]).name == uses[i].name;
            &&& a.role == Role::User
            &&& a.content.len() == uses.len()
            &&& a.content[i] matches Block::ToolResult { tool_use_id, content, is_error } && {
                &&& tool_use_id == uses[i].id
                &&& !there ==> is_error && content == "unknown tool: "@ + uses[i].name
                &&& there ==> match outcomes[i] {
                    Ok(t) => !is_error && content == t,
                    Err(m) => is_error && content == m,
                }
            }
        }),
{
    lemma_place(tools, uses[i].name, 0);
}

proof fn lemma_place(tools: Seq<ToolView>, name: Seq<char>, i: int)
    requires
        0 <= i <= tools.len(),
    ensures
        match place(tools, name, i) {
            Some(k) => i <= k < tools.len() && tools[k].name == name && forall|j: int|
                i <= j < k ==> (#[trigger] tools[j]).name != name,
            None => forall|j: int| i <= j < tools.len() ==> (#[trigger] tools[j]).name != name,
        },
    decreases tools.len() - i,
{
    if i < tools.len() && tools[i].name != name {
        lemma_place(tools, name, i + 1);
    }
}

/// The tool that a name stands for is the first that has it.
pub proof fn law_first_tool_counts(tools: Seq<ToolView>, name: Seq<char>)
    ensures
        match place(tools, name, 0) {
            Some(k) => 0 <= k < tools.len() && tools[k].name == name && forall|j: int|
                0 <= j < k ==> (#[trigger] tools[j]).name != name,
            None => forall|j: int| 0 <= j < tools.len() ==> (#[trigger] tools[j]).name != name,
        },
{
    lemma_place(tools, name, 0);
}

/// A model is asked with the whole history, and with the system prompt, the tools and the number
/// of tokens of its session; 16 times for one prompt, and for 4096 tokens where nothing else is
/// set.
pub proof fn law_model_is_asked_with_everything(d: Defaults, messages: Seq<Said>)
    ensures
        asked(d, messages).messages == messages,
        asked(d, messages).system == d.system,
        asked(d, messages).tools == d.tools,
        asked(d, messages).max_tokens == d.max_tokens,
        MAX_TURNS == 16,
        DEFAULT_MAX_TOKENS == 4096,
{
}

// ---------------------------------------------------------------------------------
// What is told
// ---------------------------------------------------------------------------------
/// Each event that counts is told as it is and in its order, but for the model's stopping, of
/// which the end of the turn tells; behind a failure nothing is told of the turn.
pub proof fn law_events_are_told_in_order(
    e: Seq<Result<Heard, Seq<char>>>,
    i: int,
    t: TurnView,
    turns: nat,
)
    requires
        0 <= i <= e.len(),
    ensures
        i == e.len() || t.completed ==> narration(e, i, t, turns) == seq![
            Told::TurnComplete { turn: turns, stop_reason: t.stop_reason },
        ],
        i < e.len() && !t.completed ==> match e[i] {
            Err(_) => narration(e, i, t, turns) == Seq::<Told>::empty(),
            Ok(h) => {
                let rest = narration(e, i + 1, fed(t, h), turns);
                narration(e, i, t, turns) == match h {
                    Heard::TextDelta(s) => seq![Told::TextDelta(s)] + rest,
                    Heard::ToolUseStart { id, name } => seq![Told::ToolUseStart { id, name }] + rest,
                    Heard::ToolUseInputDelta(s) => seq![Told::ToolUseInputDelta(s)] + rest,
                    Heard::BlockStop => seq![Told::BlockStop] + rest,
                    Heard::Stop { .. } => rest,
                }
            },
        },
{
}

// ---------------------------------------------------------------------------------
// Providers
// ---------------------------------------------------------------------------------
/// A request in OpenAI's form has every message of the history in its place, with its role and all
/// its blocks in their order, and every tool.
pub proof fn law_openai_gets_everything(a: Asked, model: Seq<char>, x: openai::Request, i: int, j: int)
    requires
        openai_asks(a, model, x),
    ensures
        x.model@ == model,
        x.max_tokens == a.max_tokens,
        x.messages@.len() == a.messages.len(),
        x.tools@.len() == a.tools.len(),
        x.system matches Some(s) ==> a.system == Some(s@),
        x.system is None <==> a.system is None,
        0 <= i < a.messages.len() ==> {
            &&& x.messages@[i].role == openai::Role::User <==> a.messages[i].role == Role::User
            &&& x.messages@[i].role == openai::Role::Assistant <==> a.messages[i].role
                == Role::Assistant
            &&& x.messages@[i].content@.len() == a.messages[i].content.len()
        },
        0 <= i < a.messages.len() && 0 <= j < a.messages[i].content.len() ==> match (
            a.messages[i].content[j]
        ) {
            Block::Text(t) => x.messages@[i].content@[j] matches openai::ContentBlock::Text(s) && s@
                == t,
            Block::ToolUse { id, name, input } => x.messages@[i].content@[j] matches openai::ContentBlock::ToolUse {
                id: d,
                name: n,
                input: p,
            } && d@ == id && n@ == name && p@ == input,
            Block::ToolResult { tool_use_id, content, .. } => x.messages@[i].content@[j] matches openai::ContentBlock::ToolResult {
                tool_use_id: d,
                content: c,
            } && d@ == tool_use_id && c@ == content,
        },
        0 <= i < a.tools.len() ==> x.tools@[i].name@ == a.tools[i].name
            && x.tools@[i].description@ == a.tools[i].description && x.tools@[i].input_schema@
            == a.tools[i].input_schema,
{
    if 0 <= i < a.messages.len() {
        let m = x.messages@[i];
        if 0 <= j < a.messages[i].content.len() {
            let b = m.content@[j];
        }
    }
    if 0 <= i < a.tools.len() {
        let t = x.tools@[i];
    }
}

/// The text of a block as Anthropic is told it.
pub open spec fn block_text(b: Block) -> Seq<char> {
    match b {
        Block::Text(t) => t,
        Block::ToolUse { .. } => Seq::empty(),
        Block::ToolResult { content, .. } => content,
    }
}

proof fn lemma_plain_text(b: Seq<Block>, n: int)
    requires
        0 <= n <= b.len(),
    ensures
        plain_text(b, n) == b.take(n).map_values(|x: Block| block_text(x)).flatten(),
    decreases n,
{
    let f = |x: Block| block_text(x);
    if n > 0 {
        lemma_plain_text(b, n - 1);
        assert(b.take(n) =~= b.take(n - 1).push(b[n - 1]));
        assert(b.take(n).map_values(f) =~= b.take(n - 1).map_values(f).push(block_text(b[n - 1])));
        b.take(n - 1).map_values(f).lemma_flatten_push(block_text(b[n - 1]));
    } else {
        assert(b.take(0).map_values(f) =~= Seq::empty());
    }
}

/// A request in Anthropic's form has every message of the history in its place, with its role and
/// all the text of its blocks, one behind the other, and every tool.
pub proof fn law_anthropic_gets_all_text(a: Asked, model: Seq<char>, x: anthropic::Request, i: int)
    requires
        anthropic_asks(a, model, x),
    ensures
        x.model@ == model,
        x.max_tokens == a.max_tokens,
        x.messages@.len() == a.messages.len(),
        x.tools@.len() == a.tools.len(),
        x.system matches Some(s) ==> a.system == Some(s@),
        x.system is None <==> a.system is None,
        0 <= i < a.messages.len() ==> {
            &&& x.messages@[i].role == anthropic::Role::User <==> a.messages[i].role == Role::User
            &&& x.messages@[i].role == anthropic::Role::Assistant <==> a.messages[i].role
                == Role::Assistant
            &&& x.messages@[i].content@ == a.messages[i].content.map_values(
                |b: Block| block_text(b),
            ).flatten()
        },
        0 <= i < a.tools.len() ==> x.tools@[i].name@ == a.tools[i].name
            && x.tools@[i].description@ == a.tools[i].description && x.tools@[i].input_schema@
            == a.tools[i].input_schema,
{
    if 0 <= i < a.messages.len() {
        let m = x.messages@[i];
        let c = a.messages[i].content;
        lemma_plain_text(c, c.len() as int);
        assert(c.take(c.len() as int) =~= c);
    }
    if 0 <= i < a.tools.len() {
        let t = x.tools@[i];
    }
}

/// What a provider's events say reaches the session as it is: text, the beginnings and the inputs
/// of uses of tools, the ends of blocks and why the model stopped.
pub proof fn law_events_reach_the_session(s: Seq<char>, id: Seq<char>, name: Seq<char>, why: Option<Seq<char>>)
    ensures
        openai_heard(openai::Sign::TextDelta(s)) == Some(Heard::TextDelta(s)),
        openai_heard(openai::Sign::ToolUseStart { id, name }) == Some(
            Heard::ToolUseStart { id, name },
        ),
        openai_heard(openai::Sign::ToolUseInputDelta(s)) == Some(Heard::ToolUseInputDelta(s)),
        openai_heard(openai::Sign::ContentBlockStop) == Some(Heard::BlockStop),
        openai_heard(openai::Sign::Stop { reason: why }) == Some(Heard::Stop { reason: why }),
        anthropic_heard(anthropic::Sign::TextDelta(s)) == Some(Heard::TextDelta(s)),
        anthropic_heard(anthropic::Sign::ToolUseStart { id, name }) == Some(
            Heard::ToolUseStart { id, name },
        ),
        anthropic_heard(anthropic::Sign::ToolUseInputDelta(s)) == Some(Heard::ToolUseInputDelta(s)),
        anthropic_heard(anthropic::Sign::ContentBlockStop) == Some(Heard::BlockStop),
        anthropic_heard(anthropic::Sign::MessageDelta { stop_reason: why }) == Some(
            Heard::Stop { reason: why },
        ),
{
}

/// What the shell tool gives is what the command printed, stdout before stderr, and the exit code
/// at the end if and only if it is not 0.
pub proof fn law_shell_output_is_reported(stdout: Seq<u8>, stderr: Seq<u8>, code: int)
    ensures
        code == 0 ==> printed(stdout, stderr, code) == readable(stdout) + readable(stderr),
        code != 0 ==> printed(stdout, stderr, code) == readable(stdout) + readable(stderr) + (
        "[exit "@ + signed_dec(code) + "]"@),
{
    assert(readable(stdout) + readable(stderr) + "[exit "@ + signed_dec(code) + "]"@ =~= readable(
        stdout,
    ) + readable(stderr) + ("[exit "@ + signed_dec(code) + "]"@));
}

/// The command in the input of the shell tool is its member `command`; without one there is none.
pub proof fn law_command_of_an_input(input: Seq<char>)
    ensures
        match parsed(encode_utf8(input)) {
            Some(v) => match member_str(v, "command"@) {
                Some(c) => command_in(input) == Ok::<Seq<char>, Seq<char>>(c),
                None => command_in(input) is Err,
            },
            None => command_in(input) is Err,
        },
{
}

// ---------------------------------------------------------------------------------
// Mathematical forms
// ---------------------------------------------------------------------------------
/// The mathematical form of a conversation has every message, block, tool, use, event and outcome of
/// it, each in its place and with all that it holds.
pub proof fn law_forms_are_faithful(
    h: Seq<ChatMessage>,
    t: Seq<ToolDef>,
    u: Seq<ToolUse>,
    e: Seq<Result<ModelEvent, ModelError>>,
    o: Seq<Result<String, String>>,
    s: Seq<StreamEvent>,
    i: int,
    k: int,
)
    ensures
        history_view(h).len() == h.len(),
        0 <= i < h.len() ==> history_view(h)[i].role == h[i].role && history_view(h)[i].content.len()
            == h[i].content@.len(),
        0 <= i < h.len() && 0 <= k < h[i].content@.len() ==> match h[i].content@[k] {
            ContentBlock::Text(x) => history_view(h)[i].content[k] == Block::Text(x@),
            ContentBlock::ToolUse { id, name, input } => history_view(h)[i].content[k] == (
            Block::ToolUse { id: id@, name: name@, input: input@ }),
            ContentBlock::ToolResult { tool_use_id, content, is_error } => history_view(
                h,
            )[i].content[k] == (Block::ToolResult {
                tool_use_id: tool_use_id@,
                content: content@,
                is_error,
            }),
        },
        tools_view(t).len() == t.len(),
        0 <= i < t.len() ==> tools_view(t)[i].name == t[i].name@ && tools_view(t)[i].description
            == t[i].description@ && tools_view(t)[i].input_schema == t[i].input_schema@,
        uses_view(u).len() == u.len(),
        0 <= i < u.len() ==> uses_view(u)[i].id == u[i].id@ && uses_view(u)[i].name == u[i].name@
            && uses_view(u)[i].input == u[i].input@,
        sent(e).len() == e.len(),
        0 <= i < e.len() ==> match e[i] {
            Ok(ModelEvent::TextDelta(x)) => sent(e)[i] == Ok::<_, Seq<char>>(Heard::TextDelta(x@)),
            Ok(ModelEvent::ToolUseStart { id, name }) => sent(e)[i] == Ok::<_, Seq<char>>(
                Heard::ToolUseStart { id: id@, name: name@ },
            ),
            Ok(ModelEvent::ToolUseInputDelta(x)) => sent(e)[i] == Ok::<_, Seq<char>>(
                Heard::ToolUseInputDelta(x@),
            ),
            Ok(ModelEvent::BlockStop) => sent(e)[i] == Ok::<_, Seq<char>>(Heard::BlockStop),
            Ok(ModelEvent::Stop { reason }) => sent(e)[i] == Ok::<_, Seq<char>>(
                Heard::Stop { reason: maybe(reason) },
            ),
            Err(m) => sent(e)[i] == Err::<Heard, _>(m.0@),
        },
        outcomes_view(o).len() == o.len(),
        0 <= i < o.len() ==> match o[i] {
            Ok(x) => outcomes_view(o)[i] == Ok::<_, Seq<char>>(x@),
            Err(m) => outcomes_view(o)[i] == Err::<Seq<char>, _>(m@),
        },
        told_view(s).len() == s.len(),
        0 <= i < s.len() ==> match s[i] {
            StreamEvent::TextDelta(x) => told_view(s)[i] == Told::TextDelta(x@),
            StreamEvent::ToolUseStart { id, name } => told_view(s)[i] == (Told::ToolUseStart {
                id: id@,
                name: name@,
            }),
            StreamEvent::ToolUseInputDelta(x) => told_view(s)[i] == Told::ToolUseInputDelta(x@),
            StreamEvent::BlockStop => told_view(s)[i] == Told::BlockStop,
            StreamEvent::ToolResult { tool_use_id, content, is_error } => told_view(s)[i] == (
            Told::ToolResult { tool_use_id: tool_use_id@, content: content@, is_error }),
            StreamEvent::TurnComplete { turn, stop_reason } => told_view(s)[i] == (
            Told::TurnComplete { turn: turn as nat, stop_reason: maybe(stop_reason) }),
            _ => told_view(s)[i] == Told::Last,
        },
{
}

} // verus!

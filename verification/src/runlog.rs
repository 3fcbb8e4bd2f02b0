//! Log of a run: one JSON record to a line.
//!
//! A record has the time in milliseconds since 1970, the run's id, the id of the request
//! that started the run where there is one, the kind of the record and its data. The clock
//! and the file are the caller's part.

use vstd::prelude::*;

use crate::harness::session::SessionError;
use crate::harness::stream::StreamEvent;
use crate::json::{
    bool_json, bool_text, document, lemma_false, lemma_null, lemma_number, lemma_object,
    lemma_signed_number, lemma_string, lemma_true, member, member_from, member_str, object_json, raw_members, raw_obj, str_json,
    str_text, Val,
};
use crate::paths::{path_for, path_in};
use crate::text::{dec, dec_string, maybe, unsigned_value};

verus! {

/// What a run came to.
#[derive(Debug)]
pub struct TerminalSummary {
    /// The last event that ended the run: `done`, `cancelled` or `error`.
    pub final_event: Option<&'static str>,
    pub turns: usize,
    pub completed: bool,
}

/// The text of an operating-system error.
#[derive(Debug)]
pub enum RunLogError {
    Io(String),
}

impl RunLogError {
    /// The text that describes the error.
    pub fn message(&self) -> (res: String)
        ensures
            res@ == "io: "@ + self->Io_0@,
    {
        match self {
            RunLogError::Io(m) => {
                let mut res = "io: ".to_owned();
                res.push_str(m.as_str());
                res
            },
        }
    }
}

#[derive(Debug)]
pub struct RunLog {
    pub run_id: String,
    pub request_id: Option<String>,
    /// When the run started, in milliseconds since 1970.
    pub started_ms: u128,
}

/// What opening a log takes.
#[derive(Debug)]
pub struct OpenPlan {
    /// The directory to make, with those above it.
    pub dir: String,
    /// The file to append to.
    pub path: String,
    /// The first record.
    pub line: String,
}

// ---------------------------------------------------------------------------------
// Records
// ---------------------------------------------------------------------------------
/// The request member, where there is a request.
pub open spec fn request_members(id: Option<Seq<char>>) -> Seq<(Seq<char>, Seq<char>)> {
    match id {
        Some(r) => seq![("request_id"@, str_text(r))],
        None => Seq::empty(),
    }
}

/// A record.
pub open spec fn record(
    ts: nat,
    run_id: Seq<char>,
    request_id: Option<Seq<char>>,
    kind: Seq<char>,
    data: Seq<char>,
) -> Seq<char> {
    raw_obj(
        seq![("ts_ms"@, dec(ts)), ("run_id"@, str_text(run_id))] + request_members(request_id)
            + seq![("kind"@, str_text(kind)), ("data"@, data)],
    )
}

/// The text of an error.
pub open spec fn error_text(e: SessionError) -> Seq<char> {
    match e {
        SessionError::Model(s) => "model: "@ + s@,
        SessionError::Mailbox => "mailbox closed"@,
        SessionError::TurnLimitExceeded => "turn limit exceeded"@,
    }
}

/// The kind of the record for an event.
pub open spec fn kind_of(ev: StreamEvent) -> Seq<char> {
    match ev {
        StreamEvent::TextDelta(_) => "text_delta"@,
        StreamEvent::ToolUseStart { .. } => "tool_use_start"@,
        StreamEvent::ToolUseInputDelta(_) => "tool_use_input_delta"@,
        StreamEvent::BlockStop => "block_stop"@,
        StreamEvent::ToolResult { .. } => "tool_result"@,
        StreamEvent::TurnComplete { .. } => "turn_complete"@,
        StreamEvent::Done(_) => "done"@,
        StreamEvent::Cancelled => "cancelled"@,
        StreamEvent::Error(_) => "error"@,
    }
}

/// The members of the data of the record for an event.
pub open spec fn data_of(ev: StreamEvent) -> Seq<(Seq<char>, Seq<char>)> {
    match ev {
        StreamEvent::TextDelta(s) => seq![("text"@, str_text(s@))],
        StreamEvent::ToolUseStart { id, name } => seq![
            ("id"@, str_text(id@)),
            ("name"@, str_text(name@)),
        ],
        StreamEvent::ToolUseInputDelta(s) => seq![("text"@, str_text(s@))],
        StreamEvent::BlockStop => Seq::empty(),
        StreamEvent::ToolResult { tool_use_id, content, is_error } => seq![
            ("tool_use_id"@, str_text(tool_use_id@)),
            ("is_error"@, bool_text(is_error)),
            ("content"@, str_text(content@)),
        ],
        StreamEvent::TurnComplete { turn, stop_reason } => seq![
            ("turn"@, dec(turn as nat)),
            (
                "stop_reason"@,
                match stop_reason {
                    Some(s) => str_text(s@),
                    None => "null"@,
                },
            ),
        ],
        StreamEvent::Done(r) => seq![
            ("text"@, str_text(r.text@)),
            ("turns"@, dec(r.turns as nat)),
            ("completed"@, bool_text(r.completed)),
        ],
        StreamEvent::Cancelled => Seq::empty(),
        StreamEvent::Error(e) => seq![("message"@, str_text(error_text(e)))],
    }
}

fn render_session_error(e: &SessionError) -> (res: String)
    ensures
        res@ == error_text(*e),
{
    match e {
        SessionError::Model(s) => {
            let mut res = "model: ".to_owned();
            res.push_str(s.as_str());
            res
        },
        SessionError::Mailbox => "mailbox closed".to_owned(),
        SessionError::TurnLimitExceeded => "turn limit exceeded".to_owned(),
    }
}

/// The kind and the data of the record for an event.
pub fn render_event(ev: &StreamEvent) -> (res: (&'static str, String))
    ensures
        res.0@ == kind_of(*ev),
        res.1@ == raw_obj(data_of(*ev)),
{
    let mut o: Vec<(&str, String)> = Vec::new();
    let kind: &'static str = match ev {
        StreamEvent::TextDelta(s) => {
            o.push(("text", str_json(s.as_str())));
            "text_delta"
        },
        StreamEvent::ToolUseStart { id, name } => {
            o.push(("id", str_json(id.as_str())));
            o.push(("name", str_json(name.as_str())));
            "tool_use_start"
        },
        StreamEvent::ToolUseInputDelta(s) => {
            o.push(("text", str_json(s.as_str())));
            "tool_use_input_delta"
        },
        StreamEvent::BlockStop => "block_stop",
        StreamEvent::ToolResult { tool_use_id, content, is_error } => {
            o.push(("tool_use_id", str_json(tool_use_id.as_str())));
            o.push(("is_error", bool_json(*is_error)));
            o.push(("content", str_json(content.as_str())));
            "tool_result"
        },
        StreamEvent::TurnComplete { turn, stop_reason } => {
            o.push(("turn", dec_string(*turn as u128)));
            let reason = match stop_reason {
                Some(s) => str_json(s.as_str()),
                None => "null".to_owned(),
            };
            o.push(("stop_reason", reason));
            "turn_complete"
        },
        StreamEvent::Done(r) => {
            o.push(("text", str_json(r.text.as_str())));
            o.push(("turns", dec_string(r.turns as u128)));
            o.push(("completed", bool_json(r.completed)));
            "done"
        },
        StreamEvent::Cancelled => "cancelled",
        StreamEvent::Error(e) => {
            o.push(("message", str_json(render_session_error(e).as_str())));
            "error"
        },
    };
    proof {
        assert(raw_members(o@) =~= data_of(*ev));
    }
    (kind, object_json(&o))
}

// ---------------------------------------------------------------------------------
// Summary
// ---------------------------------------------------------------------------------
/// The end that an event brings, if it brings one.
pub open spec fn ends(ev: StreamEvent) -> Option<Seq<char>> {
    match ev {
        StreamEvent::Done(_) => Some("done"@),
        StreamEvent::Cancelled => Some("cancelled"@),
        StreamEvent::Error(_) => Some("error"@),
        _ => None,
    }
}

/// The number of turns that an event tells of.
pub open spec fn turns_of(ev: StreamEvent) -> nat {
    match ev {
        StreamEvent::TurnComplete { turn, .. } => turn as nat,
        StreamEvent::Done(r) => r.turns as nat,
        _ => 0,
    }
}

/// Mathematical form of a `TerminalSummary`.
pub struct Summary {
    pub end: Option<Seq<char>>,
    pub turns: nat,
    pub completed: bool,
}

impl View for TerminalSummary {
    type V = Summary;

    open spec fn view(&self) -> Summary {
        Summary {
            end: match self.final_event {
                Some(s) => Some(s@),
                None => None,
            },
            turns: self.turns as nat,
            completed: self.completed,
        }
    }
}

/// A summary after one more event.
pub open spec fn noted(s: Summary, ev: StreamEvent) -> Summary {
    Summary {
        end: match ends(ev) {
            Some(e) => Some(e),
            None => s.end,
        },
        turns: if turns_of(ev) > s.turns {
            turns_of(ev)
        } else {
            s.turns
        },
        completed: match ev {
            StreamEvent::Done(r) => r.completed,
            _ => s.completed,
        },
    }
}

/// The summary of a run.
pub open spec fn summary(evs: Seq<StreamEvent>) -> Summary
    decreases evs.len(),
{
    if evs.len() == 0 {
        Summary { end: None, turns: 0, completed: false }
    } else {
        noted(summary(evs.drop_last()), evs.last())
    }
}

impl TerminalSummary {
    /// Nothing happened yet.
    pub fn new() -> (res: Self)
        ensures
            res@ == summary(Seq::empty()),
    {
        TerminalSummary { final_event: None, turns: 0, completed: false }
    }

    /// Takes in one more event.
    pub fn note(&mut self, ev: &StreamEvent)
        ensures
            final(self)@ == noted(old(self)@, *ev),
    {
        match ev {
            StreamEvent::TurnComplete { turn, .. } => {
                if *turn > self.turns {
                    self.turns = *turn;
                }
            },
            StreamEvent::Done(r) => {
                self.final_event = Some("done");
                if r.turns > self.turns {
                    self.turns = r.turns;
                }
                self.completed = r.completed;
            },
            StreamEvent::Cancelled => {
                self.final_event = Some("cancelled");
            },
            StreamEvent::Error(_) => {
                self.final_event = Some("error");
            },
            _ => {},
        }
    }
}

impl RunLog {
    /// A record of this log, with the newline behind it.
    pub open spec fn line(&self, ts: u128, kind: Seq<char>, data: Seq<char>) -> Seq<char> {
        record(ts as nat, self.run_id@, maybe(self.request_id), kind, data).push('\n')
    }

    /// Opens the log of a run in a directory.
    pub fn open(dir: &str, run_id: &str, now_ms: u128) -> (res: (Self, OpenPlan))
        ensures
            res.0.run_id@ == run_id@,
            res.0.request_id is None,
            res.0.opens(dir@, now_ms, res.1),
    {
        Self::open_inner(dir, run_id, None, now_ms)
    }

    /// Opens the log of a run that a request started.
    pub fn open_with_request_id(dir: &str, run_id: &str, request_id: &str, now_ms: u128) -> (res: (
        Self,
        OpenPlan,
    ))
        ensures
            res.0.run_id@ == run_id@,
            maybe(res.0.request_id) == Some(request_id@),
            res.0.opens(dir@, now_ms, res.1),
    {
        Self::open_inner(dir, run_id, Some(request_id.to_owned()), now_ms)
    }

    /// What opening the log takes: the first record tells when the run started.
    pub open spec fn opens(&self, dir: Seq<char>, now_ms: u128, plan: OpenPlan) -> bool {
        &&& self.started_ms == now_ms
        &&& plan.dir@ == dir
        &&& plan.path@ == path_in(dir, self.run_id@ + ".jsonl"@)
        &&& plan.line@ == self.line(
            now_ms,
            "start"@,
            raw_obj(seq![("started_at_unix_ms"@, dec(now_ms as nat))]),
        )
    }

    fn open_inner(dir: &str, run_id: &str, request_id: Option<String>, now_ms: u128) -> (res: (
        Self,
        OpenPlan,
    ))
        ensures
            res.0.run_id@ == run_id@,
            res.0.request_id == request_id,
            res.0.opens(dir@, now_ms, res.1),
    {
        let log = RunLog { run_id: run_id.to_owned(), request_id, started_ms: now_ms };
        let mut name = run_id.to_owned();
        name.push_str(".jsonl");
        let mut o: Vec<(&str, String)> = Vec::new();
        o.push(("started_at_unix_ms", dec_string(now_ms)));
        proof {
            assert(raw_members(o@) =~= seq![("started_at_unix_ms"@, dec(now_ms as nat))]);
        }
        let line = log.write_record(now_ms, "start", object_json(&o).as_str());
        let plan = OpenPlan { dir: dir.to_owned(), path: path_for(dir, name.as_str()), line };
        (log, plan)
    }

    pub fn run_id(&self) -> (res: &str)
        ensures
            res@ == self.run_id@,
    {
        self.run_id.as_str()
    }

    pub fn request_id(&self) -> (res: Option<&str>)
        ensures
            match res {
                Some(r) => maybe(self.request_id) == Some(r@),
                None => self.request_id is None,
            },
    {
        match &self.request_id {
            Some(r) => Some(r.as_str()),
            None => None,
        }
    }

    /// When the run started, in milliseconds since 1970.
    pub fn started_at(&self) -> (res: u128)
        ensures
            res == self.started_ms,
    {
        self.started_ms
    }

    /// A record, with the newline behind it. The payload is a JSON text.
    pub fn write_record(&self, now_ms: u128, kind: &str, payload: &str) -> (res: String)
        ensures
            res@ == self.line(now_ms, kind@, payload@),
    {
        let mut o: Vec<(&str, String)> = Vec::new();
        o.push(("ts_ms", dec_string(now_ms)));
        o.push(("run_id", str_json(self.run_id.as_str())));
        let ghost head = seq![("ts_ms"@, dec(now_ms as nat)), ("run_id"@, str_text(self.run_id@))];
        if let Some(r) = &self.request_id {
            o.push(("request_id", str_json(r.as_str())));
        }
        proof {
            assert(raw_members(o@) =~= head + request_members(maybe(self.request_id)));
        }
        o.push(("kind", str_json(kind)));
        o.push(("data", payload.to_owned()));
        proof {
            assert(raw_members(o@) =~= head + request_members(maybe(self.request_id)) + seq![
                ("kind"@, str_text(kind@)),
                ("data"@, payload@),
            ]);
        }
        let mut line = object_json(&o);
        line.push('\n');
        line
    }

    /// Takes in one event of a run: its record, and its part in the summary.
    pub fn drain(&self, so_far: &mut TerminalSummary, now_ms: u128, ev: &StreamEvent) -> (res:
        String)
        ensures
            res@ == self.line(now_ms, kind_of(*ev), raw_obj(data_of(*ev))),
            final(so_far)@ == noted(old(so_far)@, *ev),
    {
        let (kind, payload) = render_event(ev);
        so_far.note(ev);
        self.write_record(now_ms, kind, payload.as_str())
    }
}

// ---------------------------------------------------------------------------------
// Laws
// ---------------------------------------------------------------------------------
/// The last event that ends a run decides how the summary says that it ended; a run
/// without such an event has no end.
pub proof fn law_last_end_decides(evs: Seq<StreamEvent>)
    ensures
        match summary(evs).end {
            Some(e) => exists|i: int|
                0 <= i < evs.len() && #[trigger] ends(evs[i]) == Some(e) && forall|j: int|
                    i < j < evs.len() ==> #[trigger] ends(evs[j]) is None,
            None => forall|i: int| 0 <= i < evs.len() ==> #[trigger] ends(evs[i]) is None,
        },
    decreases evs.len(),
{
    if evs.len() > 0 {
        let n = evs.len() - 1;
        let p = evs.drop_last();
        law_last_end_decides(p);
        assert forall|i: int| 0 <= i < n implies ends(evs[i]) == ends(p[i]) by {
            assert(evs[i] == p[i]);
        }
        if ends(evs[n]) is Some {
            assert(ends(evs[n]) == summary(evs).end);
        } else if summary(p).end is Some {
            let e = summary(p).end->0;
            let i = choose|i: int|
                0 <= i < p.len() && #[trigger] ends(p[i]) == Some(e) && forall|j: int|
                    i < j < p.len() ==> #[trigger] ends(p[j]) is None;
            assert(ends(evs[i]) == Some(e));
        }
    }
}

/// The summary tells of the largest number of turns that an event told of.
pub proof fn law_turns_are_the_most(evs: Seq<StreamEvent>)
    ensures
        forall|i: int| 0 <= i < evs.len() ==> #[trigger] turns_of(evs[i]) <= summary(evs).turns,
        summary(evs).turns > 0 ==> exists|i: int|
            0 <= i < evs.len() && #[trigger] turns_of(evs[i]) == summary(evs).turns,
    decreases evs.len(),
{
    if evs.len() > 0 {
        let n = evs.len() - 1;
        let p = evs.drop_last();
        law_turns_are_the_most(p);
        assert forall|i: int| 0 <= i < evs.len() implies #[trigger] turns_of(evs[i]) <= summary(
            evs,
        ).turns by {
            if i < n {
                assert(turns_of(p[i]) <= summary(p).turns);
            }
        }
        if summary(evs).turns > 0 {
            if turns_of(evs[n]) > summary(p).turns {
                assert(turns_of(evs[n]) == summary(evs).turns);
            } else {
                let i = choose|i: int|
                    0 <= i < p.len() && #[trigger] turns_of(p[i]) == summary(p).turns;
                assert(turns_of(evs[i]) == summary(evs).turns);
            }
        }
    }
}

/// Every record is a JSON text that tells the time, the run, the request, the kind and the
/// data.
pub proof fn law_records_read_back(
    ts: u128,
    run_id: Seq<char>,
    request_id: Option<Seq<char>>,
    kind: Seq<char>,
    data: Seq<char>,
)
    requires
        document(data) is Some,
    ensures
        document(record(ts as nat, run_id, request_id, kind, data)) matches Some(v) && {
            &&& member(v, "ts_ms"@) == Some(Val::Num(dec(ts as nat)))
            &&& member_str(v, "run_id"@) == Some(run_id)
            &&& member_str(v, "request_id"@) == request_id
            &&& member_str(v, "kind"@) == Some(kind)
            &&& member(v, "data"@) == document(data)
        },
        unsigned_value(dec(ts as nat), u128::MAX as nat) == Some(ts as nat),
{
    let m = seq![("ts_ms"@, dec(ts as nat)), ("run_id"@, str_text(run_id))] + request_members(
        request_id,
    ) + seq![("kind"@, str_text(kind)), ("data"@, data)];
    let head = seq![("ts_ms"@, Val::Num(dec(ts as nat))), ("run_id"@, Val::Str(run_id))];
    let tail = seq![("kind"@, Val::Str(kind)), ("data"@, document(data)->0)];
    let o = match request_id {
        Some(r) => head.push(("request_id"@, Val::Str(r))) + tail,
        None => head + tail,
    };
    lemma_signed_number(ts as int, 0, u128::MAX as int);
    lemma_number(dec(ts as nat));
    lemma_string(run_id);
    lemma_string(kind);
    if let Some(r) = request_id {
        lemma_string(r);
    }
    assert forall|i: int| 0 <= i < o.len() implies (#[trigger] m[i]).0 == o[i].0 && document(m[i].1)
        == Some(o[i].1) by {}
    lemma_object(m, o);
    reveal_strlit("ts_ms");
    reveal_strlit("run_id");
    reveal_strlit("request_id");
    reveal_strlit("kind");
    reveal_strlit("data");
    assert("ts_ms"@.len() == 5 && "run_id"@.len() == 6 && "request_id"@.len() == 10
        && "kind"@.len() == 4 && "data"@.len() == 4);
    assert("kind"@[0] == 'k' && "data"@[0] == 'd');
    reveal_with_fuel(member_from, 6);
}

proof fn lemma_keys()
    ensures
        "text"@.len() == 4,
        "id"@.len() == 2,
        "name"@.len() == 4,
        "tool_use_id"@.len() == 11 && "tool_use_id"@[0] == 't',
        "is_error"@.len() == 8,
        "content"@.len() == 7,
        "turn"@.len() == 4,
        "stop_reason"@.len() == 11,
        "turns"@.len() == 5,
        "completed"@.len() == 9,
{
    reveal_strlit("text");
    reveal_strlit("id");
    reveal_strlit("name");
    reveal_strlit("tool_use_id");
    reveal_strlit("is_error");
    reveal_strlit("content");
    reveal_strlit("turn");
    reveal_strlit("stop_reason");
    reveal_strlit("turns");
    reveal_strlit("completed");
}

/// The record of an event tells all of it: its kind, and in its data the text, the id, the name,
/// the outcome of a tool, the number of turns and why the model stopped, where it has them.
pub proof fn law_event_reads_back(ev: StreamEvent)
    ensures
        document(raw_obj(data_of(ev))) matches Some(v) && match ev {
            StreamEvent::TextDelta(s) => kind_of(ev) == "text_delta"@ && member_str(v, "text"@) == Some(
                s@,
            ),
            StreamEvent::ToolUseStart { id, name } => kind_of(ev) == "tool_use_start"@ && member_str(
                v,
                "id"@,
            ) == Some(id@) && member_str(v, "name"@) == Some(name@),
            StreamEvent::ToolUseInputDelta(s) => kind_of(ev) == "tool_use_input_delta"@ && member_str(
                v,
                "text"@,
            ) == Some(s@),
            StreamEvent::BlockStop => kind_of(ev) == "block_stop"@,
            StreamEvent::ToolResult { tool_use_id, content, is_error } => {
                &&& kind_of(ev) == "tool_result"@
                &&& member_str(v, "tool_use_id"@) == Some(tool_use_id@)
                &&& member_str(v, "content"@) == Some(content@)
                &&& member(v, "is_error"@) == Some(Val::Bool(is_error))
            },
            StreamEvent::TurnComplete { turn, stop_reason } => {
                &&& kind_of(ev) == "turn_complete"@
                &&& member(v, "turn"@) == Some(Val::Num(dec(turn as nat)))
                &&& member(v, "stop_reason"@) == (match stop_reason {
                    Some(s) => Some(Val::Str(s@)),
                    None => Some(Val::Null),
                })
            },
            StreamEvent::Done(r) => {
                &&& kind_of(ev) == "done"@
                &&& member_str(v, "text"@) == Some(r.text@)
                &&& member(v, "turns"@) == Some(Val::Num(dec(r.turns as nat)))
                &&& member(v, "completed"@) == Some(Val::Bool(r.completed))
            },
            StreamEvent::Cancelled => kind_of(ev) == "cancelled"@,
            StreamEvent::Error(e) => {
                &&& kind_of(ev) == "error"@
                &&& e matches SessionError::Model(m) ==> member_str(v, "message"@) == Some(
                    "model: "@ + m@,
                )
                &&& e is Mailbox ==> member_str(v, "message"@) == Some("mailbox closed"@)
                &&& e is TurnLimitExceeded ==> member_str(v, "message"@) == Some(
                    "turn limit exceeded"@,
                )
            },
        },
{
    lemma_keys();
    lemma_true();
    lemma_false();
    lemma_null();
    reveal_with_fuel(member_from, 4);
    let m = data_of(ev);
    let o: Seq<(Seq<char>, Val)> = match ev {
        StreamEvent::TextDelta(s) => {
            lemma_string(s@);
            seq![("text"@, Val::Str(s@))]
        },
        StreamEvent::ToolUseStart { id, name } => {
            lemma_string(id@);
            lemma_string(name@);
            seq![("id"@, Val::Str(id@)), ("name"@, Val::Str(name@))]
        },
        StreamEvent::ToolUseInputDelta(s) => {
            lemma_string(s@);
            seq![("text"@, Val::Str(s@))]
        },
        StreamEvent::BlockStop => Seq::empty(),
        StreamEvent::ToolResult { tool_use_id, content, is_error } => {
            lemma_string(tool_use_id@);
            lemma_string(content@);
            seq![
                ("tool_use_id"@, Val::Str(tool_use_id@)),
                ("is_error"@, Val::Bool(is_error)),
                ("content"@, Val::Str(content@)),
            ]
        },
        StreamEvent::TurnComplete { turn, stop_reason } => {
            lemma_signed_number(turn as int, 0, usize::MAX as int);
            lemma_number(dec(turn as nat));
            let why = match stop_reason {
                Some(s) => {
                    lemma_string(s@);
                    Val::Str(s@)
                },
                None => Val::Null,
            };
            seq![("turn"@, Val::Num(dec(turn as nat))), ("stop_reason"@, why)]
        },
        StreamEvent::Done(r) => {
            lemma_string(r.text@);
            lemma_signed_number(r.turns as int, 0, usize::MAX as int);
            lemma_number(dec(r.turns as nat));
            seq![
                ("text"@, Val::Str(r.text@)),
                ("turns"@, Val::Num(dec(r.turns as nat))),
                ("completed"@, Val::Bool(r.completed)),
            ]
        },
        StreamEvent::Cancelled => Seq::empty(),
        StreamEvent::Error(e) => {
            lemma_string(error_text(e));
            seq![("message"@, Val::Str(error_text(e)))]
        },
    };
    assert forall|i: int| 0 <= i < o.len() implies (#[trigger] m[i]).0 == o[i].0 && document(m[i].1)
        == Some(o[i].1) by {}
    lemma_object(m, o);
}

/// Only an event that tells the end of a run ends it: that it is done, cancelled or failed. The one
/// that it is done says whether it is completed, and every turn that is told of counts.
pub proof fn law_summary_by_event(s: Summary, ev: StreamEvent)
    ensures
        noted(s, ev).end == (match ev {
            StreamEvent::Done(_) => Some("done"@),
            StreamEvent::Cancelled => Some("cancelled"@),
            StreamEvent::Error(_) => Some("error"@),
            _ => s.end,
        }),
        ev matches StreamEvent::Done(r) ==> noted(s, ev).completed == r.completed && noted(s, ev).turns
            >= r.turns,
        ev matches StreamEvent::TurnComplete { turn, stop_reason: _ } ==> noted(s, ev).turns >= turn,
        !(ev is Done) ==> noted(s, ev).completed == s.completed,
        !(ev is Done || ev is TurnComplete) ==> noted(s, ev).turns == s.turns,
{
}

/// The log of a run is the file with the run's id in its directory, and its first record tells when
/// the run started.
pub proof fn law_log_of_a_run(log: RunLog, dir: Seq<char>, now_ms: u128, plan: OpenPlan)
    requires
        log.opens(dir, now_ms, plan),
    ensures
        log.started_ms == now_ms,
        plan.dir@ == dir,
        plan.path@ == path_in(dir, log.run_id@ + ".jsonl"@),
        plan.line@.len() > 0 && plan.line@.last() == '\n',
        document(plan.line@.drop_last()) matches Some(v) && member_str(v, "run_id"@) == Some(log.run_id@)
            && member_str(v, "kind"@) == Some("start"@) && member(v, "ts_ms"@) == Some(
            Val::Num(dec(now_ms as nat)),
        ) && (member(v, "data"@) matches Some(d) && member(d, "started_at_unix_ms"@) == Some(
            Val::Num(dec(now_ms as nat)),
        )),
{
    let m = seq![("started_at_unix_ms"@, dec(now_ms as nat))];
    let o = seq![("started_at_unix_ms"@, Val::Num(dec(now_ms as nat)))];
    lemma_signed_number(now_ms as int, 0, u128::MAX as int);
    lemma_number(dec(now_ms as nat));
    lemma_object(m, o);
    reveal_with_fuel(member_from, 2);
    law_records_read_back(now_ms, log.run_id@, maybe(log.request_id), "start"@, raw_obj(m));
    let line = record(now_ms as nat, log.run_id@, maybe(log.request_id), "start"@, raw_obj(m));
    assert(line.push('\n').drop_last() =~= line);
}

/// Each record is one line: the JSON text of it with a newline behind it.
pub proof fn law_a_record_is_a_line(log: RunLog, ts: u128, kind: Seq<char>, data: Seq<char>)
    ensures
        log.line(ts, kind, data) == record(
            ts as nat,
            log.run_id@,
            maybe(log.request_id),
            kind,
            data,
        ) + seq!['\n'],
{
    let r = record(ts as nat, log.run_id@, maybe(log.request_id), kind, data);
    assert(r.push('\n') =~= r + seq!['\n']);
}

} // verus!

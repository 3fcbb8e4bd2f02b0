//! Subagents: a session for one prompt, with the parent's defaults and a history of its own.
//! Running it beside the parent is the caller's part.

use vstd::prelude::*;

use crate::harness::model::{copy_tools, history_view, said, Role};
use crate::harness::session::{
    asked, Defaults, HarnessState, PromptResult, Session, SessionError, SessionMsg,
};
use crate::text::maybe;

verus! {

/// The defaults of a subagent: the parent's, with a system prompt of its own if it is given
/// one.
pub open spec fn child_defaults(parent: Defaults, role: Option<Seq<char>>) -> Defaults {
    Defaults {
        name: parent.name,
        system: match role {
            Some(s) => Some(s),
            None => parent.system,
        },
        max_tokens: parent.max_tokens,
        tools: parent.tools,
    }
}

/// The defaults of a subagent.
pub fn child_state(parent: &HarnessState, role_system: Option<String>) -> (res: HarnessState)
    ensures
        res@ == child_defaults(parent@, maybe(role_system)),
{
    let default_system = match role_system {
        Some(s) => Some(s),
        None => match &parent.default_system {
            Some(s) => Some(s.clone()),
            None => None,
        },
    };
    HarnessState {
        name: parent.name.clone(),
        default_system,
        default_max_tokens: parent.default_max_tokens,
        tools: copy_tools(&parent.tools),
    }
}

/// Begins a task: a session without a history, and the message that it gets.
pub fn spawn_task(parent: &HarnessState, prompt: String, role_system: Option<String>) -> (res: (
    Session,
    SessionMsg,
))
    ensures
        res.0.name@ == "subagent"@,
        res.0.history@.len() == 0,
        res.0.harness@ == child_defaults(parent@, maybe(role_system)),
        res.1 == (SessionMsg::Prompt { text: prompt, structured_output_tag: None }),
{
    let session = Session::new("subagent", child_state(parent, role_system));
    (session, SessionMsg::Prompt { text: prompt, structured_output_tag: None })
}

/// Begins a task of which is told while it runs.
pub fn spawn_task_streaming(
    parent: &HarnessState,
    prompt: String,
    role_system: Option<String>,
) -> (res: (Session, SessionMsg))
    ensures
        res.0.name@ == "subagent"@,
        res.0.history@.len() == 0,
        res.0.harness@ == child_defaults(parent@, maybe(role_system)),
        res.1 == (SessionMsg::PromptStream { text: prompt, structured_output_tag: None }),
{
    let session = Session::new("subagent", child_state(parent, role_system));
    (session, SessionMsg::PromptStream { text: prompt, structured_output_tag: None })
}

/// What a task came to. A worker that ended without an outcome closed its mailbox.
#[derive(Debug)]
pub struct TaskHandle {
    pub outcome: Option<Result<PromptResult, SessionError>>,
}

impl TaskHandle {
    pub fn join(self) -> (res: Result<PromptResult, SessionError>)
        ensures
            res == (match self.outcome {
                Some(r) => r,
                None => Err(SessionError::Mailbox),
            }),
    {
        match self.outcome {
            Some(r) => r,
            None => Err(SessionError::Mailbox),
        }
    }
}

// ---------------------------------------------------------------------------------
// Laws
// ---------------------------------------------------------------------------------
/// A subagent starts afresh: what the model is asked first is the prompt alone, whatever
/// the parent said before, with the parent's tools and number of tokens, and with the
/// parent's system prompt unless it has one of its own.
pub proof fn law_child_starts_afresh(
    parent: Defaults,
    role: Option<Seq<char>>,
    prompt: Seq<char>,
)
    ensures
        ({
            let a = asked(
                child_defaults(parent, role),
                history_view(Seq::empty()).push(said(Role::User, prompt)),
            );
            &&& a.messages == seq![said(Role::User, prompt)]
            &&& a.tools == parent.tools
            &&& a.max_tokens == parent.max_tokens
            &&& role matches Some(s) ==> a.system == Some(s)
            &&& role is None ==> a.system == parent.system
        }),
{
    assert(history_view(Seq::empty()).push(said(Role::User, prompt)) =~= seq![
        said(Role::User, prompt),
    ]);
}

} // verus!

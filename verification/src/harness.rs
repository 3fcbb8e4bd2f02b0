//! Orchestration of an agent: the conversation with a model, and the session that owns
//! its history.

use vstd::prelude::*;

pub mod adapters;
pub mod bash;
pub mod laws;
pub mod model;
pub mod session;
pub mod store;
pub mod stream;
pub mod turn;

pub use model::{
    ChatMessage, ContentBlock, MockModel, ModelError, ModelEvent, ModelRequest, Role, ToolDef,
};
pub use session::{HarnessState, PromptResult, PromptStep, Session, SessionError, SessionMsg};
pub use store::{SessionStore, StoreError};
pub use bash::{AuditedShell, BashTool};
pub use stream::StreamEvent;
pub use turn::ToolUse;

verus! {

} // verus!

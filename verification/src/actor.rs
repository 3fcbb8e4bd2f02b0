//! Asking an actor. Mailboxes and threads are the caller's part.

use vstd::prelude::*;

verus! {

/// Why there is no reply.
#[derive(Debug, Clone, Copy, PartialEq, Eq, Structural)]
pub enum AskError {
    /// The actor takes no more messages.
    MailboxClosed,
    /// The actor dropped the question.
    NoReply,
}

/// What asking comes to: `sent` says whether the actor got the question, `reply` is what it
/// answered.
pub fn ask<R>(sent: bool, reply: Option<R>) -> (res: Result<R, AskError>)
    ensures
        res == (if !sent {
            Err(AskError::MailboxClosed)
        } else {
            match reply {
                Some(r) => Ok(r),
                None => Err(AskError::NoReply),
            }
        }),
{
    if !sent {
        return Err(AskError::MailboxClosed);
    }
    match reply {
        Some(r) => Ok(r),
        None => Err(AskError::NoReply),
    }
}

} // verus!

//! What asking an actor comes to.

use sandcastle::actor::{ask, AskError};

#[test]
fn an_answered_question() {
    assert_eq!(ask(true, Some(7)), Ok(7));
}

#[test]
fn a_question_without_answer() {
    assert_eq!(ask::<u8>(true, None), Err(AskError::NoReply));
    assert_eq!(ask::<u8>(false, None), Err(AskError::MailboxClosed));
    assert_eq!(ask(false, Some(7)), Err(AskError::MailboxClosed));
}

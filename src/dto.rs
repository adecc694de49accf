//! Messages exchanged between the site and its assistant.
use vstd::prelude::*;

verus! {

/// One message of a conversation.
#[derive(Clone, PartialEq, Eq, Debug)]
pub struct Message {
    pub content: String,
    pub is_assistant: bool,
    pub is_response: bool,
    pub is_question: bool,
    pub topic: Option<String>,
}

/// A user's question, with the conversation so far and the page it was
/// asked from.
#[derive(Clone, PartialEq, Eq, Debug)]
pub struct UserQuestion {
    pub question: String,
    pub messages: Vec<Message>,
    pub from_page: String,
}

} // verus!

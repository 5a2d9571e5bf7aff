use crate::types::refs::{ChatId, MessageId, ToMessageId, ToSourceChat};
use vstd::prelude::*;

verus! {

/// What a request needs to know of a message that came in: its id, and the
/// chat it was posted in.
#[derive(Debug, Clone, Copy, PartialEq, Eq, Structural, PartialOrd, Ord, Hash)]
pub struct Message {
    pub id: MessageId,
    pub chat: ChatId,
}

impl Message {
    pub fn new(id: MessageId, chat: ChatId) -> (r: Message)
        ensures
            r == (Message { id, chat }),
    {
        Message { id, chat }
    }
}

impl ToMessageId for Message {
    open spec fn message_id(&self) -> MessageId {
        self.id
    }

    fn to_message_id(&self) -> (r: MessageId) {
        self.id
    }
}

impl ToSourceChat for Message {
    open spec fn source_chat(&self) -> ChatId {
        self.chat
    }

    fn to_source_chat(&self) -> (r: ChatId) {
        self.chat
    }
}

} // verus!

use crate::json::value::{Json, JsonValue};
use vstd::prelude::*;

verus! {

/// The numeric identifier of a chat.
#[derive(Debug, Clone, Copy, PartialEq, Eq, Structural, PartialOrd, Ord, Hash)]
pub struct ChatId(pub i64);

/// The identifier of a message within its chat.
#[derive(Debug, Clone, Copy, PartialEq, Eq, Structural, PartialOrd, Ord, Hash)]
pub struct MessageId(pub i64);

/// Where a request is sent: a chat by its number, or a channel by its
/// public name.
#[derive(Debug, Clone, PartialEq, Eq, PartialOrd, Ord, Hash)]
pub enum ChatRef {
    Id(ChatId),
    ChannelUsername(String),
}

impl View for MessageId {
    type V = MessageId;

    open spec fn view(&self) -> MessageId {
        *self
    }
}

impl ChatId {
    pub fn new(id: i64) -> (r: ChatId)
        ensures
            r == ChatId(id),
    {
        ChatId(id)
    }
}

impl MessageId {
    pub fn new(id: i64) -> (r: MessageId)
        ensures
            r == MessageId(id),
    {
        MessageId(id)
    }

    /// A message id on the wire is its number.
    pub open spec fn json(self) -> JsonValue {
        JsonValue::Int(self.0 as int)
    }

    pub fn to_json(&self) -> (j: Json)
        ensures
            j@ == self.json(),
    {
        Json::Int(self.0)
    }
}

impl ChatRef {
    /// The chat with the given number.
    pub fn from_chat_id(chat_id: ChatId) -> (r: ChatRef)
        ensures
            r == ChatRef::Id(chat_id),
    {
        ChatRef::Id(chat_id)
    }

    /// The channel with the given public name.
    pub fn channel(username: &str) -> (r: ChatRef)
        ensures
            r matches ChatRef::ChannelUsername(name) && name@ == username@,
    {
        ChatRef::ChannelUsername(username.to_owned())
    }

    /// A chat reference on the wire: the number of the chat, or the name of
    /// the channel as a string.
    pub open spec fn json(self) -> JsonValue {
        match self {
            ChatRef::Id(chat_id) => JsonValue::Int(chat_id.0 as int),
            ChatRef::ChannelUsername(name) => JsonValue::Str(name@),
        }
    }

    pub fn to_json(&self) -> (j: Json)
        ensures
            j@ == self.json(),
    {
        match self {
            ChatRef::Id(chat_id) => Json::Int(chat_id.0),
            ChatRef::ChannelUsername(name) => Json::Str(name.clone()),
        }
    }
}

/// Anything that names the chat to send to.
pub trait ToChatRef {
    /// The chat that this value names.
    spec fn chat_ref(&self) -> ChatRef;

    fn to_chat_ref(&self) -> (r: ChatRef)
        ensures
            r == self.chat_ref(),
    ;
}

/// Anything that names a message to reply to.
pub trait ToMessageId {
    /// The message that this value names.
    spec fn message_id(&self) -> MessageId;

    fn to_message_id(&self) -> (r: MessageId)
        ensures
            r == self.message_id(),
    ;
}

/// Anything that knows the chat it came from.
pub trait ToSourceChat {
    /// The chat that this value came from.
    spec fn source_chat(&self) -> ChatId;

    fn to_source_chat(&self) -> (r: ChatId)
        ensures
            r == self.source_chat(),
    ;
}

impl<'a, S: ToChatRef> ToChatRef for &'a S {
    open spec fn chat_ref(&self) -> ChatRef {
        (**self).chat_ref()
    }

    fn to_chat_ref(&self) -> (r: ChatRef) {
        (**self).to_chat_ref()
    }
}

impl<'a, S: ToMessageId> ToMessageId for &'a S {
    open spec fn message_id(&self) -> MessageId {
        (**self).message_id()
    }

    fn to_message_id(&self) -> (r: MessageId) {
        (**self).to_message_id()
    }
}

impl<'a, S: ToSourceChat> ToSourceChat for &'a S {
    open spec fn source_chat(&self) -> ChatId {
        (**self).source_chat()
    }

    fn to_source_chat(&self) -> (r: ChatId) {
        (**self).to_source_chat()
    }
}

impl ToChatRef for ChatRef {
    open spec fn chat_ref(&self) -> ChatRef {
        *self
    }

    fn to_chat_ref(&self) -> (r: ChatRef) {
        match self {
            ChatRef::Id(chat_id) => ChatRef::Id(*chat_id),
            ChatRef::ChannelUsername(name) => ChatRef::ChannelUsername(name.clone()),
        }
    }
}

impl ToChatRef for ChatId {
    open spec fn chat_ref(&self) -> ChatRef {
        ChatRef::Id(*self)
    }

    fn to_chat_ref(&self) -> (r: ChatRef) {
        ChatRef::Id(*self)
    }
}

impl ToMessageId for MessageId {
    open spec fn message_id(&self) -> MessageId {
        *self
    }

    fn to_message_id(&self) -> (r: MessageId) {
        *self
    }
}

} // verus!

//! What a request refers to: chats, messages, and how text and keyboards
//! are presented.

pub mod message;
pub mod parse_mode;
pub mod refs;
pub mod reply_markup;

pub use message::Message;
pub use parse_mode::ParseMode;
pub use refs::{ChatId, ChatRef, MessageId, ToChatRef, ToMessageId, ToSourceChat};
pub use reply_markup::ReplyMarkup;

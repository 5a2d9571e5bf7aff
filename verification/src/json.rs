//! JSON values, their compact text form, and the reading of JSON text.
//!
//! [`Json::to_text`] writes a value, [`Json::parse`] reads one, and
//! [`roundtrip`] proves that they agree: what was written is read back as
//! it was, and what was read can be written and read again without change.

pub mod encode;
pub mod grammar;
pub mod object;
pub mod parse;
pub mod roundtrip;
pub mod value;

pub use grammar::MAX_DEPTH;
pub use value::{Json, JsonValue, Member};

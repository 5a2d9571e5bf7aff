use crate::json::value::{Json, JsonValue};
use vstd::prelude::*;

verus! {

/// How the remote end reads the marks in a text.
#[derive(Debug, Clone, Copy, PartialEq, Eq, Structural, PartialOrd, Ord, Hash)]
pub enum ParseMode {
    Markdown,
    MarkdownV2,
    Html,
}

impl ParseMode {
    /// The name of the mode on the wire.
    pub open spec fn name(self) -> Seq<char> {
        match self {
            ParseMode::Markdown => "Markdown"@,
            ParseMode::MarkdownV2 => "MarkdownV2"@,
            ParseMode::Html => "HTML"@,
        }
    }

    pub fn as_str(&self) -> (r: &'static str)
        ensures
            r@ == self.name(),
    {
        match self {
            ParseMode::Markdown => "Markdown",
            ParseMode::MarkdownV2 => "MarkdownV2",
            ParseMode::Html => "HTML",
        }
    }

    /// A parse mode on the wire is its name as a string.
    pub open spec fn json(self) -> JsonValue {
        JsonValue::Str(self.name())
    }

    pub fn to_json(&self) -> (j: Json)
        ensures
            j@ == self.json(),
    {
        Json::Str(self.as_str().to_owned())
    }
}

} // verus!

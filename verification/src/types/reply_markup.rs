use crate::json::object::{flag_member, push_flag, push_item, push_member};
use crate::json::roundtrip::{fits, lemma_items_fit_all, lemma_members_fit_all};
use crate::json::value::{items_view, members_view, Json, JsonValue, Member};
use vstd::prelude::*;

verus! {

/// What the client shows with a message in place of its usual keyboard.
#[derive(Debug, Clone, PartialEq, Eq, PartialOrd, Ord, Hash)]
pub enum ReplyMarkup {
    /// A keyboard of text buttons, row by row.
    Keyboard { rows: Vec<Vec<String>>, resize: bool, one_time: bool, selective: bool },
    /// Takes the keyboard away.
    RemoveKeyboard { selective: bool },
    /// Opens a reply to the message.
    ForceReply { selective: bool },
}

/// One button on the wire: an object with the text it shows.
pub open spec fn button_json(text: Seq<char>) -> JsonValue {
    JsonValue::Object(seq![Member { key: "text"@, value: JsonValue::Str(text) }])
}

/// One row of buttons on the wire: the array of its buttons.
pub open spec fn row_json(row: Seq<String>) -> JsonValue {
    JsonValue::Array(Seq::new(row.len(), |i: int| button_json(row[i]@)))
}

/// A keyboard on the wire: the array of its rows.
pub open spec fn keyboard_json(rows: Seq<Vec<String>>) -> JsonValue {
    JsonValue::Array(Seq::new(rows.len(), |i: int| row_json(rows[i]@)))
}

impl ReplyMarkup {
    /// A reply markup on the wire: an object whose first member says what
    /// it is, followed by `true` for each flag that is set. A flag that is
    /// not set is left out.
    pub open spec fn json(self) -> JsonValue {
        match self {
            ReplyMarkup::Keyboard { rows, resize, one_time, selective } => JsonValue::Object(
                seq![Member { key: "keyboard"@, value: keyboard_json(rows@) }] + flag_member(
                    "resize_keyboard"@,
                    resize,
                ) + flag_member("one_time_keyboard"@, one_time) + flag_member(
                    "selective"@,
                    selective,
                ),
            ),
            ReplyMarkup::RemoveKeyboard { selective } => JsonValue::Object(
                seq![Member { key: "remove_keyboard"@, value: JsonValue::Bool(true) }]
                    + flag_member("selective"@, selective),
            ),
            ReplyMarkup::ForceReply { selective } => JsonValue::Object(
                seq![Member { key: "force_reply"@, value: JsonValue::Bool(true) }] + flag_member(
                    "selective"@,
                    selective,
                ),
            ),
        }
    }

    pub fn to_json(&self) -> (j: Json)
        ensures
            j@ == self.json(),
    {
        let mut members: Vec<(String, Json)> = Vec::new();
        assert(members_view(members@) =~= Seq::<Member>::empty());
        match self {
            ReplyMarkup::Keyboard { rows, resize, one_time, selective } => {
                push_member(&mut members, "keyboard", keyboard_to_json(rows));
                push_flag(&mut members, "resize_keyboard", *resize);
                push_flag(&mut members, "one_time_keyboard", *one_time);
                push_flag(&mut members, "selective", *selective);
            },
            ReplyMarkup::RemoveKeyboard { selective } => {
                push_member(&mut members, "remove_keyboard", Json::Bool(true));
                push_flag(&mut members, "selective", *selective);
            },
            ReplyMarkup::ForceReply { selective } => {
                push_member(&mut members, "force_reply", Json::Bool(true));
                push_flag(&mut members, "selective", *selective);
            },
        }
        assert(members_view(members@) =~= self.json()->Object_0);
        Json::object(members)
    }
}

fn button_to_json(text: &String) -> (j: Json)
    ensures
        j@ == button_json(text@),
{
    let mut members: Vec<(String, Json)> = Vec::new();
    assert(members_view(members@) =~= Seq::<Member>::empty());
    push_member(&mut members, "text", Json::Str(text.clone()));
    assert(members_view(members@) =~= button_json(text@)->Object_0);
    Json::object(members)
}

fn row_to_json(row: &Vec<String>) -> (j: Json)
    ensures
        j@ == row_json(row@),
{
    let mut items: Vec<Json> = Vec::new();
    let mut i: usize = 0;
    while i < row.len()
        invariant
            i <= row.len(),
            items_view(items@) =~= Seq::new(i as nat, |k: int| button_json(row@[k]@)),
        decreases row.len() - i,
    {
        push_item(&mut items, button_to_json(&row[i]));
        i += 1;
    }
    assert(items_view(items@) =~= row_json(row@)->Array_0);
    Json::array(items)
}

fn keyboard_to_json(rows: &Vec<Vec<String>>) -> (j: Json)
    ensures
        j@ == keyboard_json(rows@),
{
    let mut items: Vec<Json> = Vec::new();
    let mut i: usize = 0;
    while i < rows.len()
        invariant
            i <= rows.len(),
            items_view(items@) =~= Seq::new(i as nat, |k: int| row_json(rows@[k]@)),
        decreases rows.len() - i,
    {
        push_item(&mut items, row_to_json(&rows[i]));
        i += 1;
    }
    assert(items_view(items@) =~= keyboard_json(rows@)->Array_0);
    Json::array(items)
}

/// The wire form of a reply markup holds nothing that its text would not
/// give back, and is nested four deep at most.
pub proof fn lemma_reply_markup_fits(reply_markup: ReplyMarkup, depth: nat)
    requires
        depth >= 4,
    ensures
        fits(reply_markup.json(), depth),
{
    let members = reply_markup.json()->Object_0;
    assert forall|k: int| 0 <= k < members.len() implies fits(
        (#[trigger] members[k]).value,
        (depth - 1) as nat,
    ) by {
        if k == 0 {
            if let ReplyMarkup::Keyboard { rows, .. } = reply_markup {
                lemma_keyboard_fits(rows@, (depth - 1) as nat);
            }
        }
    }
    lemma_members_fit_all(members, members.len(), (depth - 1) as nat);
}

proof fn lemma_keyboard_fits(rows: Seq<Vec<String>>, depth: nat)
    requires
        depth >= 3,
    ensures
        fits(keyboard_json(rows), depth),
{
    let items = keyboard_json(rows)->Array_0;
    assert forall|k: int| 0 <= k < items.len() implies fits(
        #[trigger] items[k],
        (depth - 1) as nat,
    ) by {
        lemma_row_fits(rows[k]@, (depth - 1) as nat);
    }
    lemma_items_fit_all(items, items.len(), (depth - 1) as nat);
}

proof fn lemma_row_fits(row: Seq<String>, depth: nat)
    requires
        depth >= 2,
    ensures
        fits(row_json(row), depth),
{
    let items = row_json(row)->Array_0;
    assert forall|k: int| 0 <= k < items.len() implies fits(
        #[trigger] items[k],
        (depth - 1) as nat,
    ) by {
        let members = button_json(row[k]@)->Object_0;
        lemma_members_fit_all(members, members.len(), (depth - 2) as nat);
    }
    lemma_items_fit_all(items, items.len(), (depth - 1) as nat);
}

} // verus!

use crate::json::value::{
    first_index, items_view, lemma_array_view, lemma_object_view, lookup, members_view, Json,
    JsonValue, Member,
};
use vstd::prelude::*;

verus! {

/// The members that an optional field contributes to an object: one when
/// the field has a value, none when it has not.
pub open spec fn optional_member(key: Seq<char>, value: Option<JsonValue>) -> Seq<Member> {
    match value {
        Some(value) => seq![Member { key, value }],
        None => Seq::empty(),
    }
}

/// The members that a flag contributes to an object: `true` under its key
/// when the flag is set, nothing when it is not.
pub open spec fn flag_member(key: Seq<char>, on: bool) -> Seq<Member> {
    if on {
        seq![Member { key, value: JsonValue::Bool(true) }]
    } else {
        Seq::empty()
    }
}

impl Json {
    /// The array of the given items.
    pub fn array(items: Vec<Json>) -> (j: Json)
        ensures
            j@ == JsonValue::Array(items_view(items@)),
    {
        proof {
            lemma_array_view(items);
        }
        Json::Array(items)
    }

    /// The object of the given members, in their order.
    pub fn object(members: Vec<(String, Json)>) -> (j: Json)
        ensures
            j@ == JsonValue::Object(members_view(members@)),
    {
        proof {
            lemma_object_view(members);
        }
        Json::Object(members)
    }
}

impl Clone for Json {
    /// A copy of this value.
    fn clone(&self) -> (copy: Json)
        ensures
            copy@ == self@,
        decreases self,
    {
        match self {
            Json::Null => Json::Null,
            Json::Bool(b) => Json::Bool(*b),
            Json::Int(n) => Json::Int(*n),
            Json::Decimal(text) => Json::Decimal(text.clone()),
            Json::Str(text) => Json::Str(text.clone()),
            Json::Array(items) => {
                proof {
                    lemma_array_view(*items);
                }
                let mut copies: Vec<Json> = Vec::new();
                let mut i: usize = 0;
                while i < items.len()
                    invariant
                        i <= items.len(),
                        *self == Json::Array(*items),
                        items_view(copies@) =~= items_view(items@).take(i as int),
                    decreases items.len() - i,
                {
                    proof {
                        vstd::std_specs::vec::axiom_vec_index_decreases(*items, i as int);
                        assert(decreases_to!(*self => self->Array_0));
                    }
                    push_item(&mut copies, items[i].clone());
                    i += 1;
                }
                assert(items_view(items@).take(items.len() as int) =~= items_view(items@));
                Json::array(copies)
            },
            Json::Object(members) => {
                proof {
                    lemma_object_view(*members);
                }
                let mut copies: Vec<(String, Json)> = Vec::new();
                let mut i: usize = 0;
                while i < members.len()
                    invariant
                        i <= members.len(),
                        *self == Json::Object(*members),
                        members_view(copies@) =~= members_view(members@).take(i as int),
                    decreases members.len() - i,
                {
                    proof {
                        vstd::std_specs::vec::axiom_vec_index_decreases(*members, i as int);
                        assert(decreases_to!(*self => self->Object_0));
                    }
                    push_member(&mut copies, members[i].0.as_str(), members[i].1.clone());
                    i += 1;
                }
                assert(members_view(members@).take(members.len() as int) =~= members_view(
                    members@,
                ));
                Json::object(copies)
            },
        }
    }
}

/// Appends one item to the items of an array under construction.
pub fn push_item(items: &mut Vec<Json>, item: Json)
    ensures
        items_view(final(items)@) == items_view(old(items)@).push(item@),
{
    items.push(item);
    assert(items_view(items@) =~= items_view(old(items)@).push(item@));
}

/// Appends the member `key: value` to the members of an object under
/// construction.
pub fn push_member(members: &mut Vec<(String, Json)>, key: &str, value: Json)
    ensures
        members_view(final(members)@) == members_view(old(members)@).push(
            Member { key: key@, value: value@ },
        ),
{
    let ghost member = Member { key: key@, value: value@ };
    members.push((key.to_owned(), value));
    assert(members_view(members@) =~= members_view(old(members)@).push(member));
}

/// Appends the member `key: value` where there is a value, and nothing
/// where there is none.
pub fn push_optional(members: &mut Vec<(String, Json)>, key: &str, value: Option<Json>)
    ensures
        members_view(final(members)@) == members_view(old(members)@) + optional_member(
            key@,
            match value {
                Some(j) => Some(j@),
                None => None,
            },
        ),
{
    match value {
        Some(j) => {
            let ghost member = Member { key: key@, value: j@ };
            push_member(members, key, j);
            assert(members_view(old(members)@).push(member) =~= members_view(old(members)@)
                + seq![member]);
        },
        None => {
            assert(members_view(old(members)@) + Seq::<Member>::empty() =~= members_view(
                old(members)@,
            ));
        },
    }
}

/// Appends the member `key: true` where the flag is set, and nothing where
/// it is not.
pub fn push_flag(members: &mut Vec<(String, Json)>, key: &str, on: bool)
    ensures
        members_view(final(members)@) == members_view(old(members)@) + flag_member(key@, on),
{
    push_optional(
        members,
        key,
        if on {
            Some(Json::Bool(true))
        } else {
            None
        },
    );
}

/// The position of the first member whose key is `key`.
pub fn find_member(members: &Vec<(String, Json)>, key: &str) -> (found: Option<usize>)
    ensures
        match found {
            Some(i) => i < members.len() && first_index(members_view(members@), key@, 0) == Some(
                i as int,
            ),
            None => first_index(members_view(members@), key@, 0) is None,
        },
{
    let wanted = key.to_owned();
    let mut i: usize = 0;
    while i < members.len()
        invariant
            i <= members.len(),
            wanted@ == key@,
            first_index(members_view(members@), key@, 0) == first_index(
                members_view(members@),
                key@,
                i as int,
            ),
        decreases members.len() - i,
    {
        if members[i].0 == wanted {
            return Some(i);
        }
        i += 1;
    }
    None
}

impl Json {
    /// The value of the first member with the given key, where this value
    /// is an object that has one.
    pub fn get(&self, key: &str) -> (found: Option<&Json>)
        ensures
            match found {
                Some(j) => self@ matches JsonValue::Object(members) && lookup(members, key@)
                    == Some(j@),
                None => self@ matches JsonValue::Object(members) ==> lookup(members, key@)
                    is None,
            },
    {
        match self {
            Json::Object(members) => {
                proof {
                    lemma_object_view(*members);
                }
                match find_member(members, key) {
                    Some(i) => Some(&members[i].1),
                    None => None,
                }
            },
            _ => None,
        }
    }
}

/// Looking a key up in two runs of members, one after the other: the
/// first run decides where it has the key, and the second where it has not.
pub proof fn lemma_lookup_concat(a: Seq<Member>, b: Seq<Member>, key: Seq<char>)
    ensures
        lookup(a + b, key) == match lookup(a, key) {
            Some(value) => Some(value),
            None => lookup(b, key),
        },
{
    lemma_first_index_concat(a, b, key, 0);
    lemma_first_index_in_range(a, key, 0);
    lemma_first_index_in_range(b, key, 0);
}

/// An optional field is found under its own key exactly where it has a
/// value, and never under another key.
pub proof fn lemma_lookup_optional(field: Seq<char>, value: Option<JsonValue>, key: Seq<char>)
    ensures
        lookup(optional_member(field, value), key) == if field == key {
            value
        } else {
            None
        },
{
    reveal_with_fuel(first_index, 2);
}

/// A flag is found under its own key exactly where it is set, and never
/// under another key.
pub proof fn lemma_lookup_flag(field: Seq<char>, on: bool, key: Seq<char>)
    ensures
        lookup(flag_member(field, on), key) == if field == key && on {
            Some(JsonValue::Bool(true))
        } else {
            None
        },
{
    reveal_with_fuel(first_index, 2);
}

proof fn lemma_first_index_in_range(members: Seq<Member>, key: Seq<char>, from: int)
    ensures
        first_index(members, key, from) matches Some(i) ==> from <= i < members.len()
            && members[i].key == key,
    decreases members.len() - from,
{
    if 0 <= from < members.len() && members[from].key != key {
        lemma_first_index_in_range(members, key, from + 1);
    }
}

proof fn lemma_first_index_shift(a: Seq<Member>, b: Seq<Member>, key: Seq<char>, from: int)
    requires
        0 <= from,
    ensures
        first_index(a + b, key, a.len() + from) == match first_index(b, key, from) {
            Some(i) => Some(a.len() + i),
            None => None,
        },
    decreases b.len() - from,
{
    if from < b.len() {
        assert((a + b)[a.len() + from] == b[from]);
        if b[from].key != key {
            lemma_first_index_shift(a, b, key, from + 1);
        }
    }
}

proof fn lemma_first_index_concat(a: Seq<Member>, b: Seq<Member>, key: Seq<char>, from: int)
    requires
        0 <= from <= a.len(),
    ensures
        first_index(a + b, key, from) == match first_index(a, key, from) {
            Some(i) => Some(i),
            None => match first_index(b, key, 0) {
                Some(i) => Some(a.len() + i),
                None => None,
            },
        },
    decreases a.len() - from,
{
    if from < a.len() {
        assert((a + b)[from] == a[from]);
        if a[from].key != key {
            lemma_first_index_concat(a, b, key, from + 1);
        }
    } else {
        lemma_first_index_shift(a, b, key, 0);
    }
}

} // verus!

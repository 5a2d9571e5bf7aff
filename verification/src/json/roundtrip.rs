use crate::json::encode::{
    decimal, digit_char, digits, encode, encode_elements, encode_members, escape, escape_char,
    hex_char, quote,
};
use crate::json::grammar::{
    char_of, digit_value, digits_value, elements_at, escape_at, exponent_end, fraction_end,
    hex4_at, hex_value, is_digit, is_space, members_at, number_at, parse, skip_digits, skip_space,
    string_at, string_body_at, value_at, Parsed, MAX_DEPTH,
};
use crate::json::value::{lookup, JsonValue, Member};
use vstd::prelude::*;

verus! {

/// What a JSON text holds under a key: the value of the first member of
/// that name, where the text is an object that has one.
pub open spec fn text_member(text: Seq<char>, key: Seq<char>) -> Option<JsonValue> {
    match parse(text) {
        Some(JsonValue::Object(members)) => lookup(members, key),
        _ => None,
    }
}

/// Whether the characters of `text` stand in `s` from the place `i` on.
spec fn occurs_at(s: Seq<char>, i: int, text: Seq<char>) -> bool {
    &&& 0 <= i
    &&& i + text.len() <= s.len()
    &&& forall|k: int| 0 <= k < text.len() ==> s[i + k] == #[trigger] text[k]
}

/// Whether a value that ends before the place `i` is over there: the text
/// ends, or a comma or a closing bracket or brace follows.
spec fn ends_value(s: Seq<char>, i: int) -> bool {
    i == s.len() || (0 <= i < s.len() && (s[i] == ',' || s[i] == ']' || s[i] == '}'))
}

proof fn lemma_occurs_split(s: Seq<char>, i: int, a: Seq<char>, b: Seq<char>)
    ensures
        occurs_at(s, i, a + b) <==> occurs_at(s, i, a) && occurs_at(s, i + a.len(), b),
{
    if occurs_at(s, i, a + b) {
        assert forall|k: int| 0 <= k < a.len() implies s[i + k] == #[trigger] a[k] by {
            assert((a + b)[k] == a[k]);
        }
        assert forall|k: int| 0 <= k < b.len() implies s[i + a.len() + k] == #[trigger] b[k] by {
            assert((a + b)[a.len() + k] == b[k]);
        }
    }
    if occurs_at(s, i, a) && occurs_at(s, i + a.len(), b) {
        assert forall|k: int| 0 <= k < (a + b).len() implies s[i + k] == #[trigger] (a + b)[k] by {
            if k < a.len() {
                assert(a[k] == (a + b)[k]);
            } else {
                assert(b[k - a.len()] == (a + b)[k]);
                assert(s[i + a.len() + (k - a.len())] == b[k - a.len()]);
            }
        }
    }
}

proof fn lemma_digit_chars(d: int)
    requires
        0 <= d < 10,
    ensures
        is_digit(digit_char(d)),
        digit_value(digit_char(d)) == d,
        digit_char(d) == '0' <==> d == 0,
        hex_value(digit_char(d)) == Some(d),
{
}

proof fn lemma_hex_chars(d: int)
    requires
        0 <= d < 16,
    ensures
        hex_value(hex_char(d)) == Some(d),
{
}

/// The digits of a number are digits, with no zero in front unless the
/// number is zero.
proof fn lemma_digits_shape(n: nat)
    ensures
        digits(n).len() >= 1,
        forall|k: int| 0 <= k < digits(n).len() ==> is_digit(#[trigger] digits(n)[k]),
        digits(n)[0] == '0' <==> n == 0,
        n == 0 ==> digits(n).len() == 1,
    decreases n,
{
    if n < 10 {
        lemma_digit_chars(n as int);
    } else {
        lemma_digits_shape(n / 10);
        lemma_digit_chars((n % 10) as int);
        assert(digits(n)[0] == digits(n / 10)[0]);
        assert forall|k: int| 0 <= k < digits(n).len() implies is_digit(
            #[trigger] digits(n)[k],
        ) by {
            if k < digits(n / 10).len() {
                assert(digits(n)[k] == digits(n / 10)[k]);
            }
        }
    }
}

/// Where the digits of `n` stand at `i`, they are read as `n`.
proof fn lemma_digits_value(s: Seq<char>, i: int, n: nat)
    requires
        occurs_at(s, i, digits(n)),
    ensures
        digits_value(s, i, i + digits(n).len()) == n,
    decreases n,
{
    let text = digits(n);
    if n < 10 {
        lemma_digit_chars(n as int);
        assert(s[i + 0] == text[0]);
        assert(digits_value(s, i, i) == 0);
        assert(digits_value(s, i, i + 1) == digits_value(s, i, i) * 10 + digit_value(s[i]));
    } else {
        let front = digits(n / 10);
        lemma_digit_chars((n % 10) as int);
        assert(text == front + seq![digit_char((n % 10) as int)]);
        lemma_occurs_split(s, i, front, seq![digit_char((n % 10) as int)]);
        lemma_digits_value(s, i, n / 10);
        assert(s[i + front.len() + 0] == seq![digit_char((n % 10) as int)][0]);
        assert(text.len() == front.len() + 1);
    }
}

/// A run of digits that something else follows is skipped as a whole.
proof fn lemma_skip_digits_run(s: Seq<char>, i: int, len: int)
    requires
        0 <= i,
        0 <= len,
        i + len <= s.len(),
        forall|k: int| i <= k < i + len ==> is_digit(#[trigger] s[k]),
        i + len == s.len() || !is_digit(s[i + len]),
    ensures
        skip_digits(s, i) == i + len,
    decreases len,
{
    if len > 0 {
        assert(is_digit(s[i]));
        lemma_skip_digits_run(s, i + 1, len - 1);
    }
}

/// Where the text of an integer within `i64` stands at `i` and the value
/// is over after it, it is read as that integer.
proof fn lemma_number_at_decimal(s: Seq<char>, i: int, n: int)
    requires
        i64::MIN <= n <= i64::MAX,
        occurs_at(s, i, decimal(n)),
        ends_value(s, i + decimal(n).len()),
    ensures
        number_at(s, i) == Some(Parsed { value: JsonValue::Int(n), next: i + decimal(n).len() }),
{
    let m: nat = if n < 0 {
        (-n) as nat
    } else {
        n as nat
    };
    let first = if n < 0 {
        i + 1
    } else {
        i
    };
    lemma_digits_shape(m);
    if n < 0 {
        lemma_occurs_split(s, i, seq!['-'], digits(m));
        assert(s[i + 0] == seq!['-'][0]);
    } else {
        assert(s[i + 0] == digits(m)[0]);
        assert(is_digit(digits(m)[0]));
    }
    assert(occurs_at(s, first, digits(m)));
    let end = first + digits(m).len();
    assert(end == i + decimal(n).len());
    assert(s[first + 0] == digits(m)[0]);
    assert forall|k: int| first <= k < end implies is_digit(#[trigger] s[k]) by {
        assert(s[first + (k - first)] == digits(m)[k - first]);
    }
    lemma_skip_digits_run(s, first, digits(m).len() as int);
    lemma_digits_value(s, first, m);
    let whole = if s[first] == '0' {
        first + 1
    } else {
        skip_digits(s, first)
    };
    assert(whole == end);
    assert(fraction_end(s, whole) == Some(whole));
    assert(exponent_end(s, whole) == Some(whole));
}

/// Whether a text is a number that is read as a `Decimal`: a number as
/// JSON writes it, with a fraction or an exponent or beyond `i64`.
pub open spec fn number_text(text: Seq<char>) -> bool {
    number_at(text, 0) == Some(
        Parsed { value: JsonValue::Decimal(text), next: text.len() as int },
    )
}

/// Whether the character at `i`, if there is one, is none that a number
/// goes on with.
spec fn ends_number(s: Seq<char>, i: int) -> bool {
    i >= s.len() || (0 <= i && !is_digit(s[i]) && s[i] != '.' && s[i] != 'e' && s[i] != 'E'
        && s[i] != '+' && s[i] != '-')
}

proof fn lemma_skip_digits_shift(t: Seq<char>, s: Seq<char>, i: int, k: int)
    requires
        occurs_at(s, i, t),
        ends_number(s, i + t.len()),
        0 <= k <= t.len(),
    ensures
        skip_digits(s, i + k) == i + skip_digits(t, k),
        k <= skip_digits(t, k) <= t.len(),
    decreases t.len() - k,
{
    if k < t.len() {
        assert(s[i + k] == t[k]);
        if is_digit(t[k]) {
            lemma_skip_digits_shift(t, s, i, k + 1);
        }
    }
}

proof fn lemma_digits_value_shift(t: Seq<char>, s: Seq<char>, i: int, from: int, to: int)
    requires
        occurs_at(s, i, t),
        0 <= from <= to <= t.len(),
    ensures
        digits_value(s, i + from, i + to) == digits_value(t, from, to),
    decreases to - from,
{
    if from < to {
        lemma_digits_value_shift(t, s, i, from, to - 1);
        assert(s[i + (to - 1)] == t[to - 1]);
    }
}

/// Where a number text stands at `i` and nothing follows that a number goes
/// on with, it is read as the `Decimal` of that text.
proof fn lemma_number_at_text(s: Seq<char>, i: int, t: Seq<char>)
    requires
        number_text(t),
        occurs_at(s, i, t),
        ends_number(s, i + t.len()),
    ensures
        number_at(s, i) == Some(
            Parsed { value: JsonValue::Decimal(t), next: i + t.len() },
        ),
        t.len() >= 1,
        starts_value(t[0]),
{
    let n = t.len() as int;
    assert(s[i + 0] == t[0]);
    let negative = t[0] == '-';
    let first = if negative {
        1int
    } else {
        0int
    };
    assert(s[i + first] == t[first]);
    lemma_skip_digits_shift(t, s, i, first);
    let whole = if t[first] == '0' {
        first + 1
    } else {
        skip_digits(t, first)
    };
    assert(first < whole <= n) by {
        assert(is_digit(t[first]));
        lemma_skip_digits_shift(t, s, i, first + 1);
    }
    lemma_digits_value_shift(t, s, i, first, whole);
    if whole < n {
        assert(s[i + whole] == t[whole]);
    }
    if whole + 1 < n {
        assert(s[i + (whole + 1)] == t[whole + 1]);
    }
    if whole + 1 <= n {
        lemma_skip_digits_shift(t, s, i, whole + 1);
    }
    let fraction = fraction_end(t, whole)->0;
    assert(fraction_end(s, i + whole) == Some(i + fraction));
    assert(whole <= fraction <= n);
    if fraction < n {
        assert(s[i + fraction] == t[fraction]);
    }
    if fraction + 1 < n {
        assert(s[i + (fraction + 1)] == t[fraction + 1]);
    }
    if fraction + 2 < n {
        assert(s[i + (fraction + 2)] == t[fraction + 2]);
    }
    if fraction + 1 <= n {
        lemma_skip_digits_shift(t, s, i, fraction + 1);
    }
    if fraction + 2 <= n {
        lemma_skip_digits_shift(t, s, i, fraction + 2);
    }
    let end = exponent_end(t, fraction)->0;
    assert(exponent_end(s, i + fraction) == Some(i + end));
    assert(end == n);
    assert(s.subrange(i, i + n) =~= t);
    assert(t.subrange(0, n) =~= t);
}

proof fn lemma_escape_concat(a: Seq<char>, b: Seq<char>)
    ensures
        escape(a + b) == escape(a) + escape(b),
    decreases b.len(),
{
    if b.len() == 0 {
        assert(a + b =~= a);
        assert(escape(a) + escape(b) =~= escape(a));
    } else {
        assert((a + b).drop_last() =~= a + b.drop_last());
        assert((a + b).last() == b.last());
        lemma_escape_concat(a, b.drop_last());
        assert(escape(a + b) =~= escape(a) + escape(b));
    }
}

proof fn lemma_escape_push(t: Seq<char>, c: char)
    ensures
        escape(t.push(c)) == escape(t) + escape_char(c),
{
    assert(t.push(c).drop_last() =~= t);
}

/// Where the escaped form of `c` stands at `p` inside a string, reading on
/// from `p` is reading on after it with `c` read.
proof fn lemma_escape_char_read(s: Seq<char>, p: int, c: char, acc: Seq<char>)
    requires
        occurs_at(s, p, escape_char(c)),
    ensures
        string_body_at(s, p, acc) == string_body_at(
            s,
            p + escape_char(c).len(),
            acc.push(c),
        ),
{
    let text = escape_char(c);
    assert(s[p + 0] == text[0]);
    if c == '"' || c == '\\' || c == '\u{8}' || c == '\u{c}' || c == '\n' || c == '\r' || c
        == '\t' {
        assert(s[p + 1] == text[1]);
    } else if (c as u32) < 0x20 {
        let code = (c as u32) as int;
        assert(s[p + 1] == text[1]);
        assert(s[p + 2] == text[2]);
        assert(s[p + 3] == text[3]);
        assert(s[p + 4] == text[4]);
        assert(s[p + 5] == text[5]);
        lemma_hex_chars(0);
        lemma_hex_chars(code / 16);
        lemma_hex_chars(code % 16);
        assert(hex_value('0') == Some(0int));
        assert(hex4_at(s, p + 2) == Some(code));
        vstd::utf8::char_u32_cast(c, c as u32);
        assert(char_of(code) == c);
        assert(escape_at(s, p + 1) == Some(Parsed { value: c, next: p + 6 }));
    } else {
    }
}

/// Where an escaped string and its closing quote stand at `start`, reading
/// on after the first `k` characters of the string gives the whole string.
proof fn lemma_string_body_read(s: Seq<char>, start: int, t: Seq<char>, k: int)
    requires
        0 <= k <= t.len(),
        occurs_at(s, start, escape(t) + seq!['"']),
    ensures
        string_body_at(s, start + escape(t.take(k)).len(), t.take(k)) == Some(
            Parsed { value: t, next: start + escape(t).len() + 1 },
        ),
    decreases t.len() - k,
{
    lemma_occurs_split(s, start, escape(t), seq!['"']);
    if k == t.len() {
        assert(t.take(k) =~= t);
        assert(s[start + escape(t).len() + 0] == seq!['"'][0]);
    } else {
        let before = t.take(k);
        let c = t[k];
        let rest = t.skip(k + 1);
        assert(t.take(k + 1) =~= before.push(c));
        assert(t =~= t.take(k + 1) + rest);
        lemma_escape_concat(t.take(k + 1), rest);
        lemma_escape_push(before, c);
        assert(escape(t) == (escape(before) + escape_char(c)) + escape(rest));
        lemma_occurs_split(s, start, escape(before) + escape_char(c), escape(rest));
        lemma_occurs_split(s, start, escape(before), escape_char(c));
        lemma_escape_char_read(s, start + escape(before).len(), c, before);
        lemma_string_body_read(s, start, t, k + 1);
    }
}

/// Where a quoted string stands at `i`, it is read as that string.
proof fn lemma_string_read(s: Seq<char>, i: int, t: Seq<char>)
    requires
        occurs_at(s, i, quote(t)),
    ensures
        string_at(s, i) == Some(Parsed { value: t, next: i + quote(t).len() }),
{
    assert(quote(t) == seq!['"'] + (escape(t) + seq!['"'])) by {
        assert(quote(t) =~= seq!['"'] + (escape(t) + seq!['"']));
    }
    lemma_occurs_split(s, i, seq!['"'], escape(t) + seq!['"']);
    assert(s[i + 0] == seq!['"'][0]);
    lemma_string_body_read(s, i + 1, t, 0);
    assert(t.take(0) =~= Seq::<char>::empty());
}

/// Whether a value is one that its text is read back to: its integers are
/// within `i64`, each `Decimal` holds a number text, and its arrays and
/// objects are nested no deeper than `depth`.
pub open spec fn fits(v: JsonValue, depth: nat) -> bool
    decreases v, 0nat,
{
    match v {
        JsonValue::Null => true,
        JsonValue::Bool(_) => true,
        JsonValue::Int(n) => i64::MIN <= n <= i64::MAX,
        JsonValue::Decimal(text) => number_text(text),
        JsonValue::Str(_) => true,
        JsonValue::Array(items) => depth > 0 && items_fit(items, items.len(), (depth - 1) as nat),
        JsonValue::Object(members) => depth > 0 && members_fit(
            members,
            members.len(),
            (depth - 1) as nat,
        ),
    }
}

/// Whether each of the first `n` items fits.
pub open spec fn items_fit(items: Seq<JsonValue>, n: nat, depth: nat) -> bool
    decreases items, n,
{
    if n == 0 {
        true
    } else if n > items.len() {
        false
    } else {
        items_fit(items, (n - 1) as nat, depth) && fits(items[n - 1], depth)
    }
}

/// Whether the value of each of the first `n` members fits.
pub open spec fn members_fit(members: Seq<Member>, n: nat, depth: nat) -> bool
    decreases members, n,
{
    if n == 0 {
        true
    } else if n > members.len() {
        false
    } else {
        members_fit(members, (n - 1) as nat, depth) && fits(members[n - 1].value, depth)
    }
}

/// Items that fit one by one fit together.
pub proof fn lemma_items_fit_all(items: Seq<JsonValue>, n: nat, depth: nat)
    requires
        n <= items.len(),
        forall|k: int| 0 <= k < n ==> fits(#[trigger] items[k], depth),
    ensures
        items_fit(items, n, depth),
    decreases n,
{
    if n > 0 {
        lemma_items_fit_all(items, (n - 1) as nat, depth);
    }
}

/// Members whose values fit one by one fit together.
pub proof fn lemma_members_fit_all(members: Seq<Member>, n: nat, depth: nat)
    requires
        n <= members.len(),
        forall|k: int| 0 <= k < n ==> fits((#[trigger] members[k]).value, depth),
    ensures
        members_fit(members, n, depth),
    decreases n,
{
    if n > 0 {
        lemma_members_fit_all(members, (n - 1) as nat, depth);
    }
}

proof fn lemma_items_fit_each(items: Seq<JsonValue>, n: nat, depth: nat, k: int)
    requires
        items_fit(items, n, depth),
        0 <= k < n,
    ensures
        n <= items.len(),
        fits(items[k], depth),
    decreases n,
{
    if k < n - 1 {
        lemma_items_fit_each(items, (n - 1) as nat, depth, k);
    }
}

proof fn lemma_members_fit_each(members: Seq<Member>, n: nat, depth: nat, k: int)
    requires
        members_fit(members, n, depth),
        0 <= k < n,
    ensures
        n <= members.len(),
        fits(members[k].value, depth),
    decreases n,
{
    if k < n - 1 {
        lemma_members_fit_each(members, (n - 1) as nat, depth, k);
    }
}

/// The characters that the text of a value can begin with.
spec fn starts_value(c: char) -> bool {
    c == 'n' || c == 't' || c == 'f' || c == '"' || c == '[' || c == '{' || c == '-' || is_digit(
        c,
    )
}

proof fn lemma_first_char(v: JsonValue, depth: nat)
    requires
        fits(v, depth),
    ensures
        encode(v).len() >= 1,
        starts_value(encode(v)[0]),
{
    match v {
        JsonValue::Int(n) => {
            if n < 0 {
                lemma_digits_shape((-n) as nat);
            } else {
                lemma_digits_shape(n as nat);
            }
        },
        JsonValue::Decimal(text) => {
            lemma_number_at_text(text, 0, text);
        },
        _ => {},
    }
}

/// Where in the text of the first items of an array the item `k` begins.
spec fn element_start(items: Seq<JsonValue>, k: nat) -> int {
    if k == 0 {
        0
    } else {
        encode_elements(items, k).len() as int + 1
    }
}

/// Where in the text of the first members of an object the member `k`
/// begins.
spec fn member_start(members: Seq<Member>, k: nat) -> int {
    if k == 0 {
        0
    } else {
        encode_members(members, k).len() as int + 1
    }
}

/// The text of one member: its quoted key, a colon and its value.
spec fn encode_member(member: Member) -> Seq<char> {
    quote(member.key) + seq![':'] + encode(member.value)
}

proof fn lemma_element_occurs(s: Seq<char>, base: int, items: Seq<JsonValue>, n: nat, k: nat)
    requires
        k < n <= items.len(),
        occurs_at(s, base, encode_elements(items, n)),
    ensures
        occurs_at(s, base + element_start(items, k), encode(items[k as int])),
        element_start(items, k) + encode(items[k as int]).len() == encode_elements(
            items,
            (k + 1) as nat,
        ).len(),
        encode_elements(items, (k + 1) as nat).len() <= encode_elements(items, n).len(),
        k + 1 < n ==> s[base + encode_elements(items, (k + 1) as nat).len()] == ',',
        k + 1 == n ==> encode_elements(items, (k + 1) as nat) == encode_elements(items, n),
    decreases n,
{
    let whole = encode_elements(items, n);
    if n == 1 {
    } else {
        let front = encode_elements(items, (n - 1) as nat);
        let last = encode(items[n - 1]);
        assert(whole == (front + seq![',']) + last);
        lemma_occurs_split(s, base, front + seq![','], last);
        lemma_occurs_split(s, base, front, seq![',']);
        assert(s[base + front.len() + 0] == seq![','][0]);
        if k + 1 < n {
            lemma_element_occurs(s, base, items, (n - 1) as nat, k);
        }
    }
}

proof fn lemma_member_occurs(s: Seq<char>, base: int, members: Seq<Member>, n: nat, k: nat)
    requires
        k < n <= members.len(),
        occurs_at(s, base, encode_members(members, n)),
    ensures
        occurs_at(s, base + member_start(members, k), encode_member(members[k as int])),
        member_start(members, k) + encode_member(members[k as int]).len() == encode_members(
            members,
            (k + 1) as nat,
        ).len(),
        encode_members(members, (k + 1) as nat).len() <= encode_members(members, n).len(),
        k + 1 < n ==> s[base + encode_members(members, (k + 1) as nat).len()] == ',',
        k + 1 == n ==> encode_members(members, (k + 1) as nat) == encode_members(members, n),
    decreases n,
{
    let whole = encode_members(members, n);
    if n == 1 {
        assert(whole =~= encode_member(members[0]));
    } else {
        let front = encode_members(members, (n - 1) as nat);
        let last = encode_member(members[n - 1]);
        assert(whole =~= (front + seq![',']) + last);
        lemma_occurs_split(s, base, front + seq![','], last);
        lemma_occurs_split(s, base, front, seq![',']);
        assert(s[base + front.len() + 0] == seq![','][0]);
        if k + 1 < n {
            lemma_member_occurs(s, base, members, (n - 1) as nat, k);
        }
    }
}

/// Where the compact text of a value that fits stands at `i` and the value
/// is over after it, it is read as that value.
proof fn lemma_value_read(s: Seq<char>, i: int, v: JsonValue, depth: nat)
    requires
        fits(v, depth),
        occurs_at(s, i, encode(v)),
        ends_value(s, i + encode(v).len()),
    ensures
        value_at(s, i, depth) == Some(Parsed { value: v, next: i + encode(v).len() }),
    decreases v, 0nat,
{
    let text = encode(v);
    lemma_first_char(v, depth);
    assert(s[i + 0] == text[0]);
    match v {
        JsonValue::Null => {
            assert(s.subrange(i, i + 4) =~= seq!['n', 'u', 'l', 'l']) by {
                assert(s[i + 1] == text[1]);
                assert(s[i + 2] == text[2]);
                assert(s[i + 3] == text[3]);
            }
        },
        JsonValue::Bool(b) => {
            if b {
                assert(s.subrange(i, i + 4) =~= seq!['t', 'r', 'u', 'e']) by {
                    assert(s[i + 1] == text[1]);
                    assert(s[i + 2] == text[2]);
                    assert(s[i + 3] == text[3]);
                }
            } else {
                assert(s.subrange(i, i + 5) =~= seq!['f', 'a', 'l', 's', 'e']) by {
                    assert(s[i + 1] == text[1]);
                    assert(s[i + 2] == text[2]);
                    assert(s[i + 3] == text[3]);
                    assert(s[i + 4] == text[4]);
                }
            }
        },
        JsonValue::Int(n) => {
            lemma_number_at_decimal(s, i, n);
        },
        JsonValue::Decimal(t) => {
            lemma_number_at_text(s, i, t);
        },
        JsonValue::Str(t) => {
            lemma_string_read(s, i, t);
        },
        JsonValue::Array(items) => {
            let inner = encode_elements(items, items.len());
            assert(text == (seq!['['] + inner) + seq![']']);
            lemma_occurs_split(s, i, seq!['['] + inner, seq![']']);
            lemma_occurs_split(s, i, seq!['['], inner);
            assert(s[i + 1 + inner.len() + 0] == seq![']'][0]);
            if items.len() == 0 {
                assert(items =~= Seq::<JsonValue>::empty());
            } else {
                lemma_element_occurs(s, i + 1, items, items.len(), 0);
                lemma_items_fit_each(items, items.len(), (depth - 1) as nat, 0);
                lemma_first_char(items[0], (depth - 1) as nat);
                assert(s[i + 1 + 0] == encode(items[0])[0]);
                lemma_elements_read(s, i + 1, items, 0, (depth - 1) as nat);
                assert(items.take(0) =~= Seq::<JsonValue>::empty());
            }
        },
        JsonValue::Object(members) => {
            let inner = encode_members(members, members.len());
            assert(text == (seq!['{'] + inner) + seq!['}']);
            lemma_occurs_split(s, i, seq!['{'] + inner, seq!['}']);
            lemma_occurs_split(s, i, seq!['{'], inner);
            assert(s[i + 1 + inner.len() + 0] == seq!['}'][0]);
            if members.len() == 0 {
                assert(members =~= Seq::<Member>::empty());
            } else {
                lemma_member_occurs(s, i + 1, members, members.len(), 0);
                let first = encode_member(members[0]);
                assert(first[0] == '"');
                assert(s[i + 1 + 0] == first[0]);
                lemma_members_read(s, i + 1, members, 0, (depth - 1) as nat);
                assert(members.take(0) =~= Seq::<Member>::empty());
            }
        },
    }
}

proof fn lemma_elements_read(s: Seq<char>, base: int, items: Seq<JsonValue>, k: nat, depth: nat)
    requires
        k < items.len(),
        items_fit(items, items.len(), depth),
        occurs_at(s, base, encode_elements(items, items.len())),
        base + encode_elements(items, items.len()).len() < s.len(),
        s[base + encode_elements(items, items.len()).len()] == ']',
    ensures
        elements_at(s, base + element_start(items, k), depth, items.take(k as int)) == Some(
            Parsed { value: items, next: base + encode_elements(items, items.len()).len() + 1 },
        ),
    decreases items, items.len() - k,
{
    let n = items.len();
    let item = items[k as int];
    let p = base + element_start(items, k);
    lemma_element_occurs(s, base, items, n, k);
    lemma_items_fit_each(items, n, depth, k as int);
    let after = p + encode(item).len();
    assert(after == base + encode_elements(items, (k + 1) as nat).len());
    assert(ends_value(s, after));
    lemma_value_read(s, p, item, depth);
    assert(items.take(k as int).push(item) =~= items.take(k as int + 1));
    if k + 1 < n {
        lemma_element_occurs(s, base, items, n, (k + 1) as nat);
        lemma_items_fit_each(items, n, depth, k as int + 1);
        lemma_first_char(items[k as int + 1], depth);
        assert(s[after + 1 + 0] == encode(items[k as int + 1])[0]);
        assert(after + 1 == base + element_start(items, (k + 1) as nat));
        lemma_elements_read(s, base, items, (k + 1) as nat, depth);
    } else {
        assert(items.take(n as int) =~= items);
    }
}

proof fn lemma_members_read(s: Seq<char>, base: int, members: Seq<Member>, k: nat, depth: nat)
    requires
        k < members.len(),
        members_fit(members, members.len(), depth),
        occurs_at(s, base, encode_members(members, members.len())),
        base + encode_members(members, members.len()).len() < s.len(),
        s[base + encode_members(members, members.len()).len()] == '}',
    ensures
        members_at(s, base + member_start(members, k), depth, members.take(k as int)) == Some(
            Parsed {
                value: members,
                next: base + encode_members(members, members.len()).len() + 1,
            },
        ),
    decreases members, members.len() - k,
{
    let n = members.len();
    let member = members[k as int];
    let p = base + member_start(members, k);
    lemma_member_occurs(s, base, members, n, k);
    lemma_members_fit_each(members, n, depth, k as int);
    let key_text = quote(member.key);
    let value_text = encode(member.value);
    assert(encode_member(member) == (key_text + seq![':']) + value_text);
    lemma_occurs_split(s, p, key_text + seq![':'], value_text);
    lemma_occurs_split(s, p, key_text, seq![':']);
    lemma_string_read(s, p, member.key);
    let colon = p + key_text.len();
    assert(s[colon + 0] == seq![':'][0]);
    lemma_first_char(member.value, depth);
    assert(s[colon + 1 + 0] == value_text[0]);
    let after = colon + 1 + value_text.len();
    assert(after == base + encode_members(members, (k + 1) as nat).len());
    assert(ends_value(s, after));
    lemma_value_read(s, colon + 1, member.value, depth);
    assert(members.take(k as int).push(member) =~= members.take(k as int + 1));
    if k + 1 < n {
        lemma_member_occurs(s, base, members, n, (k + 1) as nat);
        let next_text = encode_member(members[k as int + 1]);
        assert(next_text[0] == '"');
        assert(s[after + 1 + 0] == next_text[0]);
        assert(after + 1 == base + member_start(members, (k + 1) as nat));
        lemma_members_read(s, base, members, (k + 1) as nat, depth);
    } else {
        assert(members.take(n as int) =~= members);
    }
}

/// Reading the compact text of a value gives the value back, for every
/// value whose integers are within `i64`, whose `Decimal`s hold number
/// texts and whose nesting is within [`MAX_DEPTH`].
pub proof fn lemma_parse_encode(v: JsonValue)
    requires
        fits(v, MAX_DEPTH as nat),
    ensures
        parse(encode(v)) == Some(v),
{
    let s = encode(v);
    lemma_first_char(v, MAX_DEPTH as nat);
    lemma_value_read(s, 0, v, MAX_DEPTH as nat);
}

proof fn lemma_skip_digits_bounds(s: Seq<char>, k: int)
    requires
        0 <= k <= s.len(),
    ensures
        k <= skip_digits(s, k) <= s.len(),
        k < s.len() && is_digit(s[k]) ==> k < skip_digits(s, k),
    decreases s.len() - k,
{
    if k < s.len() && is_digit(s[k]) {
        lemma_skip_digits_bounds(s, k + 1);
    }
}

/// A run of digits that ends before `end` is the same run in the text cut
/// off at `end`.
proof fn lemma_skip_digits_cut(s: Seq<char>, i: int, end: int, k: int)
    requires
        0 <= i <= k <= end <= s.len(),
        skip_digits(s, k) <= end,
    ensures
        skip_digits(s.subrange(i, end), k - i) == skip_digits(s, k) - i,
    decreases end - k,
{
    let t = s.subrange(i, end);
    lemma_skip_digits_bounds(s, k);
    if k < end {
        assert(t[k - i] == s[k]);
        if is_digit(s[k]) {
            lemma_skip_digits_cut(s, i, end, k + 1);
        }
    }
}

proof fn lemma_fraction_end_cut(s: Seq<char>, i: int, end: int, k: int)
    requires
        0 <= i <= k <= end <= s.len(),
        fraction_end(s, k) matches Some(fraction) && fraction <= end,
    ensures
        fraction_end(s.subrange(i, end), k - i) == Some(fraction_end(s, k)->0 - i),
        k <= fraction_end(s, k)->0,
{
    let t = s.subrange(i, end);
    if k < s.len() && s[k] == '.' {
        lemma_skip_digits_bounds(s, k + 1);
        assert(t[k - i] == s[k]);
        assert(t[k + 1 - i] == s[k + 1]);
        lemma_skip_digits_cut(s, i, end, k + 1);
    } else if k < end {
        assert(t[k - i] == s[k]);
    }
}

proof fn lemma_exponent_end_cut(s: Seq<char>, i: int, end: int, k: int)
    requires
        0 <= i <= k <= end <= s.len(),
        exponent_end(s, k) matches Some(exponent) && exponent <= end,
    ensures
        exponent_end(s.subrange(i, end), k - i) == Some(exponent_end(s, k)->0 - i),
        k <= exponent_end(s, k)->0,
{
    let t = s.subrange(i, end);
    if k < s.len() && (s[k] == 'e' || s[k] == 'E') {
        let digits = if k + 1 < s.len() && (s[k + 1] == '+' || s[k + 1] == '-') {
            k + 2
        } else {
            k + 1
        };
        lemma_skip_digits_bounds(s, digits);
        assert(t[k - i] == s[k]);
        assert(t[k + 1 - i] == s[k + 1]);
        assert(t[digits - i] == s[digits]);
        lemma_skip_digits_cut(s, i, end, digits);
    } else if k < end {
        assert(t[k - i] == s[k]);
    }
}

/// The places that the reading of a number passes: after the sign, after
/// the whole part, after the fraction, and after the exponent.
spec fn number_places(s: Seq<char>, i: int) -> (int, int, int, int) {
    let first = if s[i] == '-' {
        i + 1
    } else {
        i
    };
    let whole = if s[first] == '0' {
        first + 1
    } else {
        skip_digits(s, first)
    };
    let fraction = fraction_end(s, whole)->0;
    (first, whole, fraction, exponent_end(s, fraction)->0)
}

proof fn lemma_number_places(s: Seq<char>, i: int)
    requires
        number_at(s, i) is Some,
    ensures
        ({
            let (first, whole, fraction, end) = number_places(s, i);
            &&& 0 <= i <= first < whole <= fraction <= end <= s.len()
            &&& is_digit(s[first])
            &&& fraction_end(s, whole) is Some
            &&& exponent_end(s, fraction) is Some
            &&& number_at(s, i)->0.next == end
        }),
{
    let (first, whole, fraction, end) = number_places(s, i);
    lemma_skip_digits_bounds(s, first);
    if whole < s.len() && s[whole] == '.' {
        lemma_skip_digits_bounds(s, whole + 1);
    }
    if fraction < s.len() && (s[fraction] == 'e' || s[fraction] == 'E') {
        let digits = if fraction + 1 < s.len() && (s[fraction + 1] == '+' || s[fraction + 1]
            == '-') {
            fraction + 2
        } else {
            fraction + 1
        };
        lemma_skip_digits_bounds(s, digits);
    }
}

/// What is read as a number fits: an `Int` is within `i64`, and a `Decimal`
/// holds a number text.
proof fn lemma_number_at_fits(s: Seq<char>, i: int, depth: nat)
    requires
        number_at(s, i) is Some,
    ensures
        fits(number_at(s, i)->0.value, depth),
        i < number_at(s, i)->0.next <= s.len(),
{
    let read = number_at(s, i)->0;
    lemma_number_places(s, i);
    let (first, whole, fraction, end) = number_places(s, i);
    if read.value is Decimal {
        let t = s.subrange(i, end);
        assert(read.value == JsonValue::Decimal(t));
        assert(t[0] == s[i]);
        assert(t[first - i] == s[first]);
        if s[first] == '0' {
            assert(digits_value(s, first, first + 1) == 0) by {
                reveal_with_fuel(digits_value, 2);
            }
            assert(whole < end);
            assert(!is_digit(s[whole]));
            assert(skip_digits(s, first) == whole) by {
                reveal_with_fuel(skip_digits, 2);
            }
        }
        lemma_skip_digits_cut(s, i, end, first);
        lemma_digits_value_shift(t, s, i, first - i, whole - i);
        lemma_fraction_end_cut(s, i, end, whole);
        lemma_exponent_end_cut(s, i, end, fraction);
        assert(t.subrange(0, end - i) =~= t);
        assert(number_text(t));
    }
}

proof fn lemma_string_at_next(s: Seq<char>, i: int)
    requires
        string_at(s, i) is Some,
    ensures
        i < string_at(s, i)->0.next <= s.len(),
{
    lemma_string_body_next(s, i + 1, Seq::empty());
}

proof fn lemma_string_body_next(s: Seq<char>, i: int, acc: Seq<char>)
    requires
        string_body_at(s, i, acc) is Some,
    ensures
        i < string_body_at(s, i, acc)->0.next <= s.len(),
    decreases s.len() - i,
{
    if s[i] == '"' {
    } else if s[i] == '\\' {
        let escape = escape_at(s, i + 1)->0;
        lemma_string_body_next(s, escape.next, acc.push(escape.value));
    } else {
        lemma_string_body_next(s, i + 1, acc.push(s[i]));
    }
}

/// What is read as a value fits the depth that it was read within, and
/// ends after the place where it starts.
proof fn lemma_value_at_fits(s: Seq<char>, i: int, depth: nat)
    requires
        value_at(s, i, depth) is Some,
    ensures
        fits(value_at(s, i, depth)->0.value, depth),
        i < value_at(s, i, depth)->0.next <= s.len(),
    decreases depth, 0nat, 0nat,
{
    if s[i] == 'n' || s[i] == 't' || s[i] == 'f' {
    } else if s[i] == '"' {
        lemma_string_at_next(s, i);
    } else if s[i] == '[' {
        lemma_skip_space_bounds(s, i + 1);
        let first = skip_space(s, i + 1);
        if first < s.len() && s[first] == ']' {
        } else {
            lemma_elements_at_fit(s, first, (depth - 1) as nat, Seq::empty());
        }
    } else if s[i] == '{' {
        lemma_skip_space_bounds(s, i + 1);
        let first = skip_space(s, i + 1);
        if first < s.len() && s[first] == '}' {
        } else {
            lemma_members_at_fit(s, first, (depth - 1) as nat, Seq::empty());
        }
    } else {
        lemma_number_at_fits(s, i, depth);
    }
}

proof fn lemma_skip_space_bounds(s: Seq<char>, i: int)
    requires
        0 <= i <= s.len(),
    ensures
        i <= skip_space(s, i) <= s.len(),
    decreases s.len() - i,
{
    if i < s.len() && is_space(s[i]) {
        lemma_skip_space_bounds(s, i + 1);
    }
}

proof fn lemma_elements_at_fit(s: Seq<char>, i: int, depth: nat, acc: Seq<JsonValue>)
    requires
        elements_at(s, i, depth, acc) is Some,
        0 <= i <= s.len(),
        items_fit(acc, acc.len(), depth),
    ensures
        ({
            let read = elements_at(s, i, depth, acc)->0;
            &&& items_fit(read.value, read.value.len(), depth)
            &&& i < read.next <= s.len()
        }),
    decreases depth, 1nat, s.len() - i,
{
    lemma_value_at_fits(s, i, depth);
    let item = value_at(s, i, depth)->0;
    let longer = acc.push(item.value);
    assert(items_fit(longer, longer.len(), depth)) by {
        assert forall|k: int| 0 <= k < longer.len() implies fits(#[trigger] longer[k], depth) by {
            if k < acc.len() {
                lemma_items_fit_each(acc, acc.len(), depth, k);
                assert(longer[k] == acc[k]);
            }
        }
        lemma_items_fit_all(longer, longer.len(), depth);
    }
    lemma_skip_space_bounds(s, item.next);
    let after = skip_space(s, item.next);
    if after < s.len() && s[after] == ',' {
        lemma_skip_space_bounds(s, after + 1);
        lemma_elements_at_fit(s, skip_space(s, after + 1), depth, longer);
    }
}

proof fn lemma_members_at_fit(s: Seq<char>, i: int, depth: nat, acc: Seq<Member>)
    requires
        members_at(s, i, depth, acc) is Some,
        0 <= i <= s.len(),
        members_fit(acc, acc.len(), depth),
    ensures
        ({
            let read = members_at(s, i, depth, acc)->0;
            &&& members_fit(read.value, read.value.len(), depth)
            &&& i < read.next <= s.len()
        }),
    decreases depth, 1nat, s.len() - i,
{
    lemma_string_at_next(s, i);
    let key = string_at(s, i)->0;
    lemma_skip_space_bounds(s, key.next);
    let colon = skip_space(s, key.next);
    lemma_skip_space_bounds(s, colon + 1);
    let start = skip_space(s, colon + 1);
    lemma_value_at_fits(s, start, depth);
    let value = value_at(s, start, depth)->0;
    let longer = acc.push(Member { key: key.value, value: value.value });
    assert(members_fit(longer, longer.len(), depth)) by {
        assert forall|k: int| 0 <= k < longer.len() implies fits(
            (#[trigger] longer[k]).value,
            depth,
        ) by {
            if k < acc.len() {
                lemma_members_fit_each(acc, acc.len(), depth, k);
                assert(longer[k] == acc[k]);
            }
        }
        lemma_members_fit_all(longer, longer.len(), depth);
    }
    lemma_skip_space_bounds(s, value.next);
    let after = skip_space(s, value.next);
    if after < s.len() && s[after] == ',' {
        lemma_skip_space_bounds(s, after + 1);
        lemma_members_at_fit(s, skip_space(s, after + 1), depth, longer);
    }
}

/// What a text is read as is a value that its own compact text is read
/// back to: writing what was read and reading it again changes nothing.
pub proof fn lemma_parse_fits(s: Seq<char>)
    requires
        parse(s) is Some,
    ensures
        fits(parse(s)->0, MAX_DEPTH as nat),
        parse(encode(parse(s)->0)) == parse(s),
{
    lemma_skip_space_bounds(s, 0);
    lemma_value_at_fits(s, skip_space(s, 0), MAX_DEPTH as nat);
    lemma_parse_encode(parse(s)->0);
}

} // verus!

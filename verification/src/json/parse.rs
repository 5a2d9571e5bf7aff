use crate::json::grammar;
use crate::json::grammar::{Parsed, MAX_DEPTH};
use crate::json::object::push_item;
use crate::json::value::{items_view, members_view, Json, JsonValue, Member};
use vstd::prelude::*;
use vstd::utf8::is_scalar;

verus! {

/// `char::from_u32` gives the character with the given code, and `None`
/// where the code is none of a character: a surrogate, or above 10FFFF.
pub assume_specification[ char::from_u32 ](i: u32) -> (c: Option<char>)
    ensures
        c == if is_scalar(i) {
            Some(i as char)
        } else {
            None
        },
;

fn chars_of(text: &str) -> (chars: Vec<char>)
    ensures
        chars@ == text@,
{
    let mut out: Vec<char> = Vec::new();
    let chars = text.chars();
    proof {
        vstd::string::axiom_spec_iter(text);
    }
    for c in it: chars
        invariant
            it.seq() == text@,
            out@ == text@.take(it.index() as int),
    {
        out.push(c);
        assert(text@.take(it.index() + 1) =~= text@.take(it.index() as int).push(c));
    }
    assert(text@.take(text@.len() as int) =~= text@);
    out
}

fn text_between(s: &Vec<char>, from: usize, to: usize) -> (text: String)
    requires
        from <= to <= s.len(),
    ensures
        text@ == s@.subrange(from as int, to as int),
{
    let mut out = String::new();
    let mut k = from;
    while k < to
        invariant
            from <= k <= to <= s.len(),
            out@ == s@.subrange(from as int, k as int),
        decreases to - k,
    {
        out.push(s[k]);
        assert(s@.subrange(from as int, k + 1) =~= s@.subrange(from as int, k as int).push(
            s@[k as int],
        ));
        k += 1;
    }
    out
}

fn skip_space(s: &Vec<char>, i: usize) -> (next: usize)
    requires
        i <= s.len(),
    ensures
        next == grammar::skip_space(s@, i as int),
        i <= next <= s.len(),
{
    let mut k = i;
    while k < s.len() && (s[k] == ' ' || s[k] == '\t' || s[k] == '\n' || s[k] == '\r')
        invariant
            i <= k <= s.len(),
            grammar::skip_space(s@, i as int) == grammar::skip_space(s@, k as int),
        decreases s.len() - k,
    {
        k += 1;
    }
    k
}

fn is_digit(c: char) -> (yes: bool)
    ensures
        yes == grammar::is_digit(c),
{
    '0' <= c && c <= '9'
}

fn skip_digits(s: &Vec<char>, i: usize) -> (next: usize)
    requires
        i <= s.len(),
    ensures
        next == grammar::skip_digits(s@, i as int),
        i <= next <= s.len(),
{
    let mut k = i;
    while k < s.len() && is_digit(s[k])
        invariant
            i <= k <= s.len(),
            grammar::skip_digits(s@, i as int) == grammar::skip_digits(s@, k as int),
        decreases s.len() - k,
    {
        k += 1;
    }
    k
}

/// The number that the digits from `from` up to `to` write, where it fits.
fn magnitude(s: &Vec<char>, from: usize, to: usize) -> (m: Option<u64>)
    requires
        from <= to <= s.len(),
        forall|k: int| from <= k < to ==> grammar::is_digit(#[trigger] s@[k]),
    ensures
        match m {
            Some(m) => m == grammar::digits_value(s@, from as int, to as int),
            None => grammar::digits_value(s@, from as int, to as int) > u64::MAX,
        },
{
    let mut acc: u64 = 0;
    let mut k = from;
    while k < to
        invariant
            from <= k <= to <= s.len(),
            forall|j: int| from <= j < to ==> grammar::is_digit(#[trigger] s@[j]),
            acc == grammar::digits_value(s@, from as int, k as int),
        decreases to - k,
    {
        let digit = (s[k] as u32 - '0' as u32) as u64;
        assert(digit == grammar::digit_value(s@[k as int]));
        let next = match acc.checked_mul(10) {
            Some(tens) => tens.checked_add(digit),
            None => None,
        };
        match next {
            Some(next) => {
                acc = next;
                k += 1;
            },
            None => {
                proof {
                    lemma_digits_value_grows(s@, from as int, k + 1, to as int);
                }
                return None;
            },
        }
    }
    Some(acc)
}

proof fn lemma_digits_value_grows(s: Seq<char>, from: int, mid: int, to: int)
    requires
        from <= mid <= to <= s.len(),
        forall|k: int| from <= k < to ==> grammar::is_digit(#[trigger] s[k]),
    ensures
        grammar::digits_value(s, from, mid) <= grammar::digits_value(s, from, to),
    decreases to - mid,
{
    if mid < to {
        lemma_digits_value_grows(s, from, mid, to - 1);
        assert(grammar::is_digit(s[to - 1]));
    }
}

proof fn lemma_skip_digits_are_digits(s: Seq<char>, i: int)
    requires
        0 <= i <= s.len(),
    ensures
        i <= grammar::skip_digits(s, i) <= s.len(),
        i < s.len() && grammar::is_digit(s[i]) ==> i < grammar::skip_digits(s, i),
        forall|k: int| i <= k < grammar::skip_digits(s, i) ==> grammar::is_digit(#[trigger] s[k]),
    decreases s.len() - i,
{
    if i < s.len() && grammar::is_digit(s[i]) {
        lemma_skip_digits_are_digits(s, i + 1);
    }
}

fn fraction_end(s: &Vec<char>, i: usize) -> (end: Option<usize>)
    requires
        i <= s.len(),
    ensures
        match end {
            Some(end) => grammar::fraction_end(s@, i as int) == Some(end as int) && i <= end
                <= s.len(),
            None => grammar::fraction_end(s@, i as int) is None,
        },
{
    if i < s.len() && s[i] == '.' {
        if i + 1 < s.len() && is_digit(s[i + 1]) {
            Some(skip_digits(s, i + 1))
        } else {
            None
        }
    } else {
        Some(i)
    }
}

fn exponent_end(s: &Vec<char>, i: usize) -> (end: Option<usize>)
    requires
        i <= s.len(),
    ensures
        match end {
            Some(end) => grammar::exponent_end(s@, i as int) == Some(end as int) && i <= end
                <= s.len(),
            None => grammar::exponent_end(s@, i as int) is None,
        },
{
    if i < s.len() && (s[i] == 'e' || s[i] == 'E') {
        let digits = if i + 1 < s.len() && (s[i + 1] == '+' || s[i + 1] == '-') {
            i + 2
        } else {
            i + 1
        };
        if digits < s.len() && is_digit(s[digits]) {
            Some(skip_digits(s, digits))
        } else {
            None
        }
    } else {
        Some(i)
    }
}

fn number(s: &Vec<char>, i: usize) -> (r: Option<(Json, usize)>)
    requires
        i <= s.len(),
    ensures
        match r {
            Some((value, next)) => grammar::number_at(s@, i as int) == Some(
                Parsed { value: value@, next: next as int },
            ) && i < next <= s.len(),
            None => grammar::number_at(s@, i as int) is None,
        },
{
    if i >= s.len() {
        return None;
    }
    let negative = s[i] == '-';
    let first = if negative {
        i + 1
    } else {
        i
    };
    if first >= s.len() || !is_digit(s[first]) {
        return None;
    }
    let whole = if s[first] == '0' {
        first + 1
    } else {
        skip_digits(s, first)
    };
    proof {
        lemma_skip_digits_are_digits(s@, first as int);
    }
    let fraction = match fraction_end(s, whole) {
        Some(fraction) => fraction,
        None => {
            return None;
        },
    };
    let end = match exponent_end(s, fraction) {
        Some(end) => end,
        None => {
            return None;
        },
    };
    if end == whole {
        match magnitude(s, first, whole) {
            Some(m) => {
                if negative {
                    if m <= 0x8000_0000_0000_0000u64 {
                        let n: i128 = -(m as i128);
                        return Some((Json::Int(n as i64), end));
                    }
                } else if m <= 0x7fff_ffff_ffff_ffffu64 {
                    return Some((Json::Int(m as i64), end));
                }
            },
            None => {},
        }
    }
    Some((Json::Decimal(text_between(s, i, end)), end))
}

fn hex_value(c: char) -> (v: Option<u32>)
    ensures
        match v {
            Some(v) => grammar::hex_value(c) == Some(v as int) && v < 16,
            None => grammar::hex_value(c) is None,
        },
{
    if '0' <= c && c <= '9' {
        Some(c as u32 - '0' as u32)
    } else if 'a' <= c && c <= 'f' {
        Some(c as u32 - 'a' as u32 + 10)
    } else if 'A' <= c && c <= 'F' {
        Some(c as u32 - 'A' as u32 + 10)
    } else {
        None
    }
}

fn hex4(s: &Vec<char>, i: usize) -> (v: Option<u32>)
    requires
        i <= s.len(),
    ensures
        match v {
            Some(v) => grammar::hex4_at(s@, i as int) == Some(v as int) && v <= 0xFFFF,
            None => grammar::hex4_at(s@, i as int) is None,
        },
{
    if s.len() - i < 4 {
        return None;
    }
    match (hex_value(s[i]), hex_value(s[i + 1]), hex_value(s[i + 2]), hex_value(s[i + 3])) {
        (Some(a), Some(b), Some(c), Some(d)) => Some(((a * 16 + b) * 16 + c) * 16 + d),
        _ => None,
    }
}

fn escape(s: &Vec<char>, i: usize) -> (r: Option<(char, usize)>)
    requires
        i <= s.len(),
    ensures
        match r {
            Some((c, next)) => grammar::escape_at(s@, i as int) == Some(
                Parsed { value: c, next: next as int },
            ) && i < next <= s.len(),
            None => grammar::escape_at(s@, i as int) is None,
        },
{
    if i >= s.len() {
        return None;
    }
    let c = s[i];
    if c == '"' || c == '\\' || c == '/' {
        Some((c, i + 1))
    } else if c == 'b' {
        Some(('\u{8}', i + 1))
    } else if c == 'f' {
        Some(('\u{c}', i + 1))
    } else if c == 'n' {
        Some(('\n', i + 1))
    } else if c == 'r' {
        Some(('\r', i + 1))
    } else if c == 't' {
        Some(('\t', i + 1))
    } else if c == 'u' {
        let high = match hex4(s, i + 1) {
            Some(high) => high,
            None => {
                return None;
            },
        };
        if 0xD800 <= high && high <= 0xDBFF {
            if s.len() - i > 6 && s[i + 5] == '\\' && s[i + 6] == 'u' {
                let low = match hex4(s, i + 7) {
                    Some(low) => low,
                    None => {
                        return None;
                    },
                };
                if 0xDC00 <= low && low <= 0xDFFF {
                    let code: u32 = 0x10000 + (high - 0xD800) * 0x400 + (low - 0xDC00);
                    match char::from_u32(code) {
                        Some(c) => Some((c, i + 11)),
                        None => None,
                    }
                } else {
                    None
                }
            } else {
                None
            }
        } else if 0xDC00 <= high && high <= 0xDFFF {
            None
        } else {
            match char::from_u32(high) {
                Some(c) => Some((c, i + 5)),
                None => None,
            }
        }
    } else {
        None
    }
}

fn string(s: &Vec<char>, i: usize) -> (r: Option<(String, usize)>)
    requires
        i <= s.len(),
    ensures
        match r {
            Some((text, next)) => grammar::string_at(s@, i as int) == Some(
                Parsed { value: text@, next: next as int },
            ) && i < next <= s.len(),
            None => grammar::string_at(s@, i as int) is None,
        },
{
    if i >= s.len() || s[i] != '"' {
        return None;
    }
    let mut out = String::new();
    let mut k = i + 1;
    loop
        invariant
            i < k <= s.len(),
            grammar::string_at(s@, i as int) == grammar::string_body_at(s@, k as int, out@),
        decreases s.len() - k,
    {
        if k >= s.len() {
            return None;
        }
        let c = s[k];
        if c == '"' {
            return Some((out, k + 1));
        } else if c == '\\' {
            match escape(s, k + 1) {
                Some((c, next)) => {
                    out.push(c);
                    k = next;
                },
                None => {
                    return None;
                },
            }
        } else if (c as u32) < 0x20 {
            return None;
        } else {
            out.push(c);
            k += 1;
        }
    }
}

fn word(s: &Vec<char>, i: usize, letters: &Vec<char>) -> (yes: bool)
    requires
        i <= s.len(),
    ensures
        yes == grammar::word_at(s@, i as int, letters@),
{
    if s.len() - i < letters.len() {
        return false;
    }
    let mut k: usize = 0;
    while k < letters.len()
        invariant
            k <= letters.len(),
            i + letters.len() <= s.len(),
            s@.subrange(i as int, i + k) == letters@.subrange(0, k as int),
        decreases letters.len() - k,
    {
        if s[i + k] != letters[k] {
            assert(s@.subrange(i as int, i + letters.len())[k as int] != letters@[k as int]);
            return false;
        }
        assert(s@.subrange(i as int, i + k + 1) =~= s@.subrange(i as int, i + k).push(
            s@[i + k],
        ));
        assert(letters@.subrange(0, k + 1) =~= letters@.subrange(0, k as int).push(letters@[k as int]));
        k += 1;
    }
    assert(letters@.subrange(0, letters.len() as int) =~= letters@);
    true
}

fn value(s: &Vec<char>, i: usize, depth: usize) -> (r: Option<(Json, usize)>)
    requires
        i <= s.len(),
    ensures
        match r {
            Some((value, next)) => grammar::value_at(s@, i as int, depth as nat) == Some(
                Parsed { value: value@, next: next as int },
            ) && i < next <= s.len(),
            None => grammar::value_at(s@, i as int, depth as nat) is None,
        },
    decreases depth, 0nat,
{
    if i >= s.len() {
        return None;
    }
    let c = s[i];
    if c == 'n' {
        if word(s, i, &vec!['n', 'u', 'l', 'l']) {
            Some((Json::Null, i + 4))
        } else {
            None
        }
    } else if c == 't' {
        if word(s, i, &vec!['t', 'r', 'u', 'e']) {
            Some((Json::Bool(true), i + 4))
        } else {
            None
        }
    } else if c == 'f' {
        if word(s, i, &vec!['f', 'a', 'l', 's', 'e']) {
            Some((Json::Bool(false), i + 5))
        } else {
            None
        }
    } else if c == '"' {
        match string(s, i) {
            Some((text, next)) => Some((Json::Str(text), next)),
            None => None,
        }
    } else if c == '[' {
        if depth == 0 {
            return None;
        }
        let first = skip_space(s, i + 1);
        if first < s.len() && s[first] == ']' {
            let items: Vec<Json> = Vec::new();
            assert(items_view(items@) =~= Seq::<JsonValue>::empty());
            Some((Json::array(items), first + 1))
        } else {
            match elements(s, first, depth - 1) {
                Some((items, next)) => Some((Json::array(items), next)),
                None => None,
            }
        }
    } else if c == '{' {
        if depth == 0 {
            return None;
        }
        let first = skip_space(s, i + 1);
        if first < s.len() && s[first] == '}' {
            let members: Vec<(String, Json)> = Vec::new();
            assert(members_view(members@) =~= Seq::<Member>::empty());
            Some((Json::object(members), first + 1))
        } else {
            match members(s, first, depth - 1) {
                Some((members, next)) => Some((Json::object(members), next)),
                None => None,
            }
        }
    } else {
        number(s, i)
    }
}

fn elements(s: &Vec<char>, i: usize, depth: usize) -> (r: Option<(Vec<Json>, usize)>)
    requires
        i <= s.len(),
    ensures
        match r {
            Some((items, next)) => grammar::elements_at(
                s@,
                i as int,
                depth as nat,
                Seq::empty(),
            ) == Some(Parsed { value: items_view(items@), next: next as int }) && i < next
                <= s.len(),
            None => grammar::elements_at(s@, i as int, depth as nat, Seq::empty()) is None,
        },
    decreases depth, 1nat,
{
    let mut items: Vec<Json> = Vec::new();
    let mut k = i;
    assert(items_view(items@) =~= Seq::<JsonValue>::empty());
    loop
        invariant
            i <= k <= s.len(),
            grammar::elements_at(s@, i as int, depth as nat, Seq::empty())
                == grammar::elements_at(s@, k as int, depth as nat, items_view(items@)),
        decreases s.len() - k,
    {
        match value(s, k, depth) {
            None => {
                return None;
            },
            Some((item, next)) => {
                let after = skip_space(s, next);
                if after < s.len() && s[after] == ',' {
                    push_item(&mut items, item);
                    k = skip_space(s, after + 1);
                } else if after < s.len() && s[after] == ']' {
                    push_item(&mut items, item);
                    return Some((items, after + 1));
                } else {
                    return None;
                }
            },
        }
    }
}

fn members(s: &Vec<char>, i: usize, depth: usize) -> (r: Option<(Vec<(String, Json)>, usize)>)
    requires
        i <= s.len(),
    ensures
        match r {
            Some((members, next)) => grammar::members_at(
                s@,
                i as int,
                depth as nat,
                Seq::empty(),
            ) == Some(Parsed { value: members_view(members@), next: next as int }) && i < next
                <= s.len(),
            None => grammar::members_at(s@, i as int, depth as nat, Seq::empty()) is None,
        },
    decreases depth, 1nat,
{
    let mut members: Vec<(String, Json)> = Vec::new();
    let mut k = i;
    assert(members_view(members@) =~= Seq::<Member>::empty());
    loop
        invariant
            i <= k <= s.len(),
            grammar::members_at(s@, i as int, depth as nat, Seq::empty()) == grammar::members_at(
                s@,
                k as int,
                depth as nat,
                members_view(members@),
            ),
        decreases s.len() - k,
    {
        let (key, after_key) = match string(s, k) {
            Some(key) => key,
            None => {
                return None;
            },
        };
        let colon = skip_space(s, after_key);
        if colon >= s.len() || s[colon] != ':' {
            return None;
        }
        let start = skip_space(s, colon + 1);
        match value(s, start, depth) {
            None => {
                return None;
            },
            Some((item, next)) => {
                let ghost before = members_view(members@);
                let ghost member = Member { key: key@, value: item@ };
                let after = skip_space(s, next);
                if after < s.len() && s[after] == ',' {
                    members.push((key, item));
                    assert(members_view(members@) =~= before.push(member));
                    k = skip_space(s, after + 1);
                } else if after < s.len() && s[after] == '}' {
                    members.push((key, item));
                    assert(members_view(members@) =~= before.push(member));
                    return Some((members, after + 1));
                } else {
                    return None;
                }
            },
        }
    }
}

impl Json {
    /// Reads a text as JSON: the value that it is, or `None` where it is
    /// none.
    pub fn parse(text: &str) -> (r: Option<Json>)
        ensures
            match r {
                Some(value) => grammar::parse(text@) == Some(value@),
                None => grammar::parse(text@) is None,
            },
    {
        let s = chars_of(text);
        let start = skip_space(&s, 0);
        match value(&s, start, MAX_DEPTH) {
            None => None,
            Some((value, next)) => {
                if skip_space(&s, next) == s.len() {
                    Some(value)
                } else {
                    None
                }
            },
        }
    }
}

} // verus!

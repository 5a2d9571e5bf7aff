use crate::json::value::{JsonValue, Member};
use vstd::prelude::*;

verus! {

/// How deep arrays and objects may be nested in a text that is read.
pub const MAX_DEPTH: usize = 128;

/// What was read at some place of a text, and the place after it.
pub ghost struct Parsed<T> {
    pub value: T,
    pub next: int,
}

/// White space between the tokens of a text: space, tab, line feed and
/// carriage return.
pub open spec fn is_space(c: char) -> bool {
    c == ' ' || c == '\t' || c == '\n' || c == '\r'
}

/// The first place at or after `i` that holds no white space.
pub open spec fn skip_space(s: Seq<char>, i: int) -> int
    decreases s.len() - i,
{
    if 0 <= i < s.len() && is_space(s[i]) {
        skip_space(s, i + 1)
    } else {
        i
    }
}

pub open spec fn is_digit(c: char) -> bool {
    '0' <= c && c <= '9'
}

/// The number that a decimal digit stands for.
pub open spec fn digit_value(c: char) -> int {
    c as int - '0' as int
}

/// The number that a hexadecimal digit stands for, in either case.
pub open spec fn hex_value(c: char) -> Option<int> {
    if is_digit(c) {
        Some(digit_value(c))
    } else if 'a' <= c && c <= 'f' {
        Some(c as int - 'a' as int + 10)
    } else if 'A' <= c && c <= 'F' {
        Some(c as int - 'A' as int + 10)
    } else {
        None
    }
}

/// The first place at or after `i` that holds no decimal digit.
pub open spec fn skip_digits(s: Seq<char>, i: int) -> int
    decreases s.len() - i,
{
    if 0 <= i < s.len() && is_digit(s[i]) {
        skip_digits(s, i + 1)
    } else {
        i
    }
}

/// The number written by the decimal digits from `from` up to `to`.
pub open spec fn digits_value(s: Seq<char>, from: int, to: int) -> nat
    decreases to - from,
{
    if to <= from {
        0
    } else {
        (digits_value(s, from, to - 1) * 10 + digit_value(s[to - 1])) as nat
    }
}

/// The place after the fraction that starts at `i`, where one starts there:
/// a point and at least one digit. Without a point the place is `i` itself.
pub open spec fn fraction_end(s: Seq<char>, i: int) -> Option<int> {
    if 0 <= i < s.len() && s[i] == '.' {
        if i + 1 < s.len() && is_digit(s[i + 1]) {
            Some(skip_digits(s, i + 1))
        } else {
            None
        }
    } else {
        Some(i)
    }
}

/// The place after the exponent that starts at `i`, where one starts there:
/// `e` or `E`, a sign or none, and at least one digit. Without the letter
/// the place is `i` itself.
pub open spec fn exponent_end(s: Seq<char>, i: int) -> Option<int> {
    if 0 <= i < s.len() && (s[i] == 'e' || s[i] == 'E') {
        let digits = if i + 1 < s.len() && (s[i + 1] == '+' || s[i + 1] == '-') {
            i + 2
        } else {
            i + 1
        };
        if digits < s.len() && is_digit(s[digits]) {
            Some(skip_digits(s, digits))
        } else {
            None
        }
    } else {
        Some(i)
    }
}

/// The number that starts at `i`.
///
/// A number is a minus sign or none, then `0` or a run of digits, then a
/// fraction or none, then an exponent or none. Written without fraction and
/// exponent and within `i64` it is an `Int`; otherwise it is a `Decimal`
/// that holds its text.
pub open spec fn number_at(s: Seq<char>, i: int) -> Option<Parsed<JsonValue>> {
    if i < 0 || i >= s.len() {
        None
    } else {
        let negative = s[i] == '-';
        let first = if negative {
            i + 1
        } else {
            i
        };
        if first >= s.len() || !is_digit(s[first]) {
            None
        } else {
            let whole = if s[first] == '0' {
                first + 1
            } else {
                skip_digits(s, first)
            };
            match fraction_end(s, whole) {
                None => None,
                Some(fraction) => match exponent_end(s, fraction) {
                    None => None,
                    Some(end) => {
                        let magnitude = digits_value(s, first, whole) as int;
                        let n = if negative {
                            -magnitude
                        } else {
                            magnitude
                        };
                        if end == whole && i64::MIN <= n <= i64::MAX {
                            Some(Parsed { value: JsonValue::Int(n), next: end })
                        } else {
                            Some(Parsed { value: JsonValue::Decimal(s.subrange(i, end)), next: end })
                        }
                    },
                },
            }
        }
    }
}

/// The number written by the four hexadecimal digits that start at `i`.
pub open spec fn hex4_at(s: Seq<char>, i: int) -> Option<int> {
    if i < 0 || i + 4 > s.len() {
        None
    } else {
        match (hex_value(s[i]), hex_value(s[i + 1]), hex_value(s[i + 2]), hex_value(s[i + 3])) {
            (Some(a), Some(b), Some(c), Some(d)) => Some(((a * 16 + b) * 16 + c) * 16 + d),
            _ => None,
        }
    }
}

/// The character with the given code.
pub open spec fn char_of(code: int) -> char {
    (code as u32) as char
}

/// The character that the escape stands for whose letter is at `i`, right
/// after the backslash.
///
/// `\uXXXX` stands for the character with that code. A code from D800 to
/// DBFF has to be followed by a second `\uXXXX` with a code from DC00 to
/// DFFF, and the two together stand for one character beyond FFFF; a code
/// from DC00 to DFFF on its own stands for nothing.
pub open spec fn escape_at(s: Seq<char>, i: int) -> Option<Parsed<char>> {
    if i < 0 || i >= s.len() {
        None
    } else if s[i] == '"' || s[i] == '\\' || s[i] == '/' {
        Some(Parsed { value: s[i], next: i + 1 })
    } else if s[i] == 'b' {
        Some(Parsed { value: '\u{8}', next: i + 1 })
    } else if s[i] == 'f' {
        Some(Parsed { value: '\u{c}', next: i + 1 })
    } else if s[i] == 'n' {
        Some(Parsed { value: '\n', next: i + 1 })
    } else if s[i] == 'r' {
        Some(Parsed { value: '\r', next: i + 1 })
    } else if s[i] == 't' {
        Some(Parsed { value: '\t', next: i + 1 })
    } else if s[i] == 'u' {
        match hex4_at(s, i + 1) {
            None => None,
            Some(high) => if 0xD800 <= high <= 0xDBFF {
                if i + 6 < s.len() && s[i + 5] == '\\' && s[i + 6] == 'u' {
                    match hex4_at(s, i + 7) {
                        None => None,
                        Some(low) => if 0xDC00 <= low <= 0xDFFF {
                            Some(
                                Parsed {
                                    value: char_of(
                                        0x10000 + (high - 0xD800) * 0x400 + (low - 0xDC00),
                                    ),
                                    next: i + 11,
                                },
                            )
                        } else {
                            None
                        },
                    }
                } else {
                    None
                }
            } else if 0xDC00 <= high <= 0xDFFF {
                None
            } else {
                Some(Parsed { value: char_of(high), next: i + 5 })
            },
        }
    } else {
        None
    }
}

/// The rest of a string from `i` up to its closing quote, after the
/// characters `acc` that were read before.
///
/// A backslash starts an escape; a control character below U+0020 may not
/// stand in a string as it is; every other character stands for itself.
pub open spec fn string_body_at(s: Seq<char>, i: int, acc: Seq<char>) -> Option<Parsed<Seq<char>>>
    decreases s.len() - i,
{
    if i < 0 || i >= s.len() {
        None
    } else if s[i] == '"' {
        Some(Parsed { value: acc, next: i + 1 })
    } else if s[i] == '\\' {
        match escape_at(s, i + 1) {
            None => None,
            Some(escape) => if i < escape.next <= s.len() {
                string_body_at(s, escape.next, acc.push(escape.value))
            } else {
                None
            },
        }
    } else if (s[i] as u32) < 0x20 {
        None
    } else {
        string_body_at(s, i + 1, acc.push(s[i]))
    }
}

/// The string that starts at `i` with its opening quote.
pub open spec fn string_at(s: Seq<char>, i: int) -> Option<Parsed<Seq<char>>> {
    if 0 <= i < s.len() && s[i] == '"' {
        string_body_at(s, i + 1, Seq::empty())
    } else {
        None
    }
}

/// Whether the characters of `word` stand at `i`.
pub open spec fn word_at(s: Seq<char>, i: int, word: Seq<char>) -> bool {
    0 <= i && i + word.len() <= s.len() && s.subrange(i, i + word.len()) == word
}

/// The value that starts at `i`, nested no deeper than `depth` allows.
pub open spec fn value_at(s: Seq<char>, i: int, depth: nat) -> Option<Parsed<JsonValue>>
    decreases depth, 0nat, 0nat,
{
    if i < 0 || i >= s.len() {
        None
    } else if s[i] == 'n' {
        if word_at(s, i, seq!['n', 'u', 'l', 'l']) {
            Some(Parsed { value: JsonValue::Null, next: i + 4 })
        } else {
            None
        }
    } else if s[i] == 't' {
        if word_at(s, i, seq!['t', 'r', 'u', 'e']) {
            Some(Parsed { value: JsonValue::Bool(true), next: i + 4 })
        } else {
            None
        }
    } else if s[i] == 'f' {
        if word_at(s, i, seq!['f', 'a', 'l', 's', 'e']) {
            Some(Parsed { value: JsonValue::Bool(false), next: i + 5 })
        } else {
            None
        }
    } else if s[i] == '"' {
        match string_at(s, i) {
            None => None,
            Some(text) => Some(Parsed { value: JsonValue::Str(text.value), next: text.next }),
        }
    } else if s[i] == '[' {
        if depth == 0 {
            None
        } else {
            let first = skip_space(s, i + 1);
            if 0 <= first < s.len() && s[first] == ']' {
                Some(Parsed { value: JsonValue::Array(Seq::empty()), next: first + 1 })
            } else {
                match elements_at(s, first, (depth - 1) as nat, Seq::empty()) {
                    None => None,
                    Some(items) => Some(
                        Parsed { value: JsonValue::Array(items.value), next: items.next },
                    ),
                }
            }
        }
    } else if s[i] == '{' {
        if depth == 0 {
            None
        } else {
            let first = skip_space(s, i + 1);
            if 0 <= first < s.len() && s[first] == '}' {
                Some(Parsed { value: JsonValue::Object(Seq::empty()), next: first + 1 })
            } else {
                match members_at(s, first, (depth - 1) as nat, Seq::empty()) {
                    None => None,
                    Some(members) => Some(
                        Parsed { value: JsonValue::Object(members.value), next: members.next },
                    ),
                }
            }
        }
    } else {
        number_at(s, i)
    }
}

/// The items of an array from the item that starts at `i` up to the closing
/// bracket, after the items `acc` that were read before. Items are
/// separated by a comma, with white space at will around it.
pub open spec fn elements_at(s: Seq<char>, i: int, depth: nat, acc: Seq<JsonValue>) -> Option<
    Parsed<Seq<JsonValue>>,
>
    decreases depth, 1nat, s.len() - i,
{
    match value_at(s, i, depth) {
        None => None,
        Some(item) => {
            let after = skip_space(s, item.next);
            if 0 <= after < s.len() && s[after] == ',' {
                let next = skip_space(s, after + 1);
                if i < next <= s.len() {
                    elements_at(s, next, depth, acc.push(item.value))
                } else {
                    None
                }
            } else if 0 <= after < s.len() && s[after] == ']' {
                Some(Parsed { value: acc.push(item.value), next: after + 1 })
            } else {
                None
            }
        },
    }
}

/// The members of an object from the key that starts at `i` up to the
/// closing brace, after the members `acc` that were read before. A member
/// is a string, a colon and a value; members are separated by a comma, with
/// white space at will around colon and comma.
pub open spec fn members_at(s: Seq<char>, i: int, depth: nat, acc: Seq<Member>) -> Option<
    Parsed<Seq<Member>>,
>
    decreases depth, 1nat, s.len() - i,
{
    match string_at(s, i) {
        None => None,
        Some(key) => {
            let colon = skip_space(s, key.next);
            if 0 <= colon < s.len() && s[colon] == ':' {
                match value_at(s, skip_space(s, colon + 1), depth) {
                    None => None,
                    Some(value) => {
                        let member = Member { key: key.value, value: value.value };
                        let after = skip_space(s, value.next);
                        if 0 <= after < s.len() && s[after] == ',' {
                            let next = skip_space(s, after + 1);
                            if i < next <= s.len() {
                                members_at(s, next, depth, acc.push(member))
                            } else {
                                None
                            }
                        } else if 0 <= after < s.len() && s[after] == '}' {
                            Some(Parsed { value: acc.push(member), next: after + 1 })
                        } else {
                            None
                        }
                    },
                }
            } else {
                None
            }
        },
    }
}

/// The value that a text is, where it is JSON: one value, with white space
/// at will before and after it, nested no deeper than [`MAX_DEPTH`].
pub open spec fn parse(s: Seq<char>) -> Option<JsonValue> {
    match value_at(s, skip_space(s, 0), MAX_DEPTH as nat) {
        None => None,
        Some(value) => if skip_space(s, value.next) == s.len() {
            Some(value.value)
        } else {
            None
        },
    }
}

} // verus!

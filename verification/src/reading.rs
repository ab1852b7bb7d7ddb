//! What a compact JSON text says.

use vstd::prelude::*;
use vstd::utf8::{decode_utf8, valid_utf8};

use crate::json::{number_int, whole_numbers, JsonView};

verus! {

/// A JSON value as it is read from a text. Numbers are integers: a text with any
/// other number in it is not read.
pub enum Reading {
    Null,
    Bool(bool),
    Integer(int),
    Text(Seq<char>),
    List(Seq<Reading>),
    Members(Seq<(Seq<char>, Reading)>),
}

/// Whether `b` is a decimal digit.
pub open spec fn is_digit(b: u8) -> bool {
    '0' as u8 <= b <= '9' as u8
}

/// How many digits `text` begins with.
pub open spec fn digit_run(text: Seq<u8>) -> nat
    decreases text.len(),
{
    if text.len() > 0 && is_digit(text[0]) {
        1 + digit_run(text.skip(1))
    } else {
        0
    }
}

/// The number that decimal digits stand for.
pub open spec fn digits_value(digits: Seq<u8>) -> int
    decreases digits.len(),
{
    if digits.len() == 0 {
        0
    } else {
        10 * digits_value(digits.drop_last()) + (digits.last() - '0' as u8)
    }
}

/// The natural number that `text` begins with, written without leading zeros, and
/// what follows it.
pub open spec fn read_natural(text: Seq<u8>) -> Option<(int, Seq<u8>)> {
    let n = digit_run(text) as int;
    if n == 0 || (n > 1 && text[0] == '0' as u8) {
        None
    } else {
        Some((digits_value(text.take(n)), text.skip(n)))
    }
}

/// The integer that `text` begins with, and what follows it.
pub open spec fn read_integer(text: Seq<u8>) -> Option<(int, Seq<u8>)> {
    if text.len() > 0 && text[0] == '-' as u8 {
        match read_natural(text.skip(1)) {
            Some((n, rest)) => Some((-n, rest)),
            None => None,
        }
    } else {
        read_natural(text)
    }
}

/// What a hexadecimal digit stands for.
pub open spec fn hex_value(b: u8) -> Option<int> {
    if is_digit(b) {
        Some(b - '0' as u8)
    } else if 'a' as u8 <= b <= 'f' as u8 {
        Some(b - 'a' as u8 + 10)
    } else if 'A' as u8 <= b <= 'F' as u8 {
        Some(b - 'A' as u8 + 10)
    } else {
        None
    }
}

/// The byte that the escape at the front of `text` stands for, and how many bytes the
/// escape has. Escapes of characters beyond ASCII are not read.
pub open spec fn read_escape(text: Seq<u8>) -> Option<(u8, int)> {
    if text.len() < 2 {
        None
    } else if text[1] == '"' as u8 || text[1] == '\\' as u8 || text[1] == '/' as u8 {
        Some((text[1], 2))
    } else if text[1] == 'b' as u8 {
        Some((8, 2))
    } else if text[1] == 't' as u8 {
        Some((9, 2))
    } else if text[1] == 'n' as u8 {
        Some((10, 2))
    } else if text[1] == 'f' as u8 {
        Some((12, 2))
    } else if text[1] == 'r' as u8 {
        Some((13, 2))
    } else if text[1] == 'u' as u8 && text.len() >= 6 && text[2] == '0' as u8 && text[3]
        == '0' as u8 {
        match (hex_value(text[4]), hex_value(text[5])) {
            (Some(high), Some(low)) => if high < 8 {
                Some(((16 * high + low) as u8, 6))
            } else {
                None
            },
            _ => None,
        }
    } else {
        None
    }
}

/// The bytes of a string up to its closing quote, escapes resolved, and what follows
/// the quote.
pub open spec fn read_bytes(text: Seq<u8>) -> Option<(Seq<u8>, Seq<u8>)>
    decreases text.len(),
{
    if text.len() == 0 || text[0] < 32 {
        None
    } else if text[0] == '"' as u8 {
        Some((Seq::empty(), text.skip(1)))
    } else {
        let first = if text[0] == '\\' as u8 {
            read_escape(text)
        } else {
            Some((text[0], 1))
        };
        match first {
            None => None,
            Some((byte, length)) => match read_bytes(text.skip(length)) {
                None => None,
                Some((bytes, rest)) => Some((seq![byte] + bytes, rest)),
            },
        }
    }
}

/// The string that `text` begins with, and what follows it.
pub open spec fn read_string(text: Seq<u8>) -> Option<(Seq<char>, Seq<u8>)> {
    if text.len() == 0 || text[0] != '"' as u8 {
        None
    } else {
        match read_bytes(text.skip(1)) {
            None => None,
            Some((bytes, rest)) => if valid_utf8(bytes) {
                Some((decode_utf8(bytes), rest))
            } else {
                None
            },
        }
    }
}

/// Whether `text` begins with `word`.
pub open spec fn begins(text: Seq<u8>, word: Seq<u8>) -> bool {
    word.len() <= text.len() && text.take(word.len() as int) == word
}

/// `null`.
pub open spec fn null_word() -> Seq<u8> {
    seq!['n' as u8, 'u' as u8, 'l' as u8, 'l' as u8]
}

/// `true`.
pub open spec fn true_word() -> Seq<u8> {
    seq!['t' as u8, 'r' as u8, 'u' as u8, 'e' as u8]
}

/// `false`.
pub open spec fn false_word() -> Seq<u8> {
    seq!['f' as u8, 'a' as u8, 'l' as u8, 's' as u8, 'e' as u8]
}

/// The value that `text` begins with, and what follows it.
pub open spec fn read_value(text: Seq<u8>) -> Option<(Reading, Seq<u8>)>
    decreases text.len(), 0int,
{
    if text.len() == 0 {
        None
    } else if begins(text, null_word()) {
        Some((Reading::Null, text.skip(4)))
    } else if begins(text, true_word()) {
        Some((Reading::Bool(true), text.skip(4)))
    } else if begins(text, false_word()) {
        Some((Reading::Bool(false), text.skip(5)))
    } else if text[0] == '"' as u8 {
        match read_string(text) {
            Some((chars, rest)) => Some((Reading::Text(chars), rest)),
            None => None,
        }
    } else if text[0] == '[' as u8 {
        if text.len() > 1 && text[1] == ']' as u8 {
            Some((Reading::List(Seq::empty()), text.skip(2)))
        } else {
            match read_items(text.skip(1)) {
                Some((items, rest)) => Some((Reading::List(items), rest)),
                None => None,
            }
        }
    } else if text[0] == '{' as u8 {
        if text.len() > 1 && text[1] == '}' as u8 {
            Some((Reading::Members(Seq::empty()), text.skip(2)))
        } else {
            match read_members(text.skip(1)) {
                Some((members, rest)) => Some((Reading::Members(members), rest)),
                None => None,
            }
        }
    } else {
        match read_integer(text) {
            Some((i, rest)) => Some((Reading::Integer(i), rest)),
            None => None,
        }
    }
}

/// The items of an array up to its closing bracket, and what follows the bracket.
pub open spec fn read_items(text: Seq<u8>) -> Option<(Seq<Reading>, Seq<u8>)>
    decreases text.len(), 1int,
{
    match read_value(text) {
        None => None,
        Some((item, rest)) => if rest.len() == 0 || rest.len() >= text.len() {
            None
        } else if rest[0] == ']' as u8 {
            Some((seq![item], rest.skip(1)))
        } else if rest[0] == ',' as u8 {
            match read_items(rest.skip(1)) {
                None => None,
                Some((items, end)) => Some((seq![item] + items, end)),
            }
        } else {
            None
        },
    }
}

/// The members of an object up to its closing brace, and what follows the brace.
pub open spec fn read_members(text: Seq<u8>) -> Option<(Seq<(Seq<char>, Reading)>, Seq<u8>)>
    decreases text.len(), 1int,
{
    match read_string(text) {
        None => None,
        Some((key, after_key)) => if after_key.len() == 0 || after_key.len() >= text.len()
            || after_key[0] != ':' as u8 {
            None
        } else {
            match read_value(after_key.skip(1)) {
                None => None,
                Some((value, rest)) => if rest.len() == 0 || rest.len() >= text.len() {
                    None
                } else if rest[0] == '}' as u8 {
                    Some((seq![(key, value)], rest.skip(1)))
                } else if rest[0] == ',' as u8 {
                    match read_members(rest.skip(1)) {
                        None => None,
                        Some((members, end)) => Some((seq![(key, value)] + members, end)),
                    }
                } else {
                    None
                },
            }
        },
    }
}

/// Whether `text` is a compact JSON text that says `reading`. A text says at most one
/// thing.
pub open spec fn reads_as(text: Seq<u8>, reading: Reading) -> bool {
    read_value(text) == Some((reading, Seq::<u8>::empty()))
}

/// What a text of `value`, which holds whole numbers only, must say.
pub open spec fn said(value: JsonView) -> Reading
    recommends
        whole_numbers(value),
    decreases value,
{
    match value {
        JsonView::Null => Reading::Null,
        JsonView::Bool(b) => Reading::Bool(b),
        JsonView::Number(n) => Reading::Integer(number_int(n)->0),
        JsonView::String(chars) => Reading::Text(chars),
        JsonView::Array(items) => Reading::List(
            Seq::new(
                items.len(),
                |i: int|
                    if 0 <= i < items.len() {
                        said(items[i])
                    } else {
                        Reading::Null
                    },
            ),
        ),
        JsonView::Object(members) => Reading::Members(
            Seq::new(
                members.len(),
                |i: int|
                    if 0 <= i < members.len() {
                        (members[i].0, said(members[i].1))
                    } else {
                        (Seq::empty(), Reading::Null)
                    },
            ),
        ),
    }
}

/// Whether two readings say the same, the order of an object's members aside.
pub open spec fn says_the_same(a: Reading, b: Reading) -> bool
    decreases a,
{
    match (a, b) {
        (Reading::List(x), Reading::List(y)) => x.len() == y.len() && forall|i: int|
            0 <= i < x.len() ==> says_the_same(#[trigger] x[i], y[i]),
        (Reading::Members(x), Reading::Members(y)) => x.len() == y.len() && forall|i: int|
            0 <= i < x.len() ==> holds_key(y, (#[trigger] x[i]).0) && exists|j: int|
                0 <= j < y.len() && x[i].0 == (#[trigger] y[j]).0 && says_the_same(x[i].1, y[j].1),
        _ => a == b,
    }
}

/// Whether some member is filed under `key`.
pub open spec fn holds_key(members: Seq<(Seq<char>, Reading)>, key: Seq<char>) -> bool {
    exists|i: int| 0 <= i < members.len() && (#[trigger] members[i]).0 == key
}

} // verus!

//! Where the tail of an input starts: reading a signed count and turning it
//! into a starting offset.

use crate::decimal::{all_digits, decimal_value, parse_decimal};
use crate::lossy::{decode_lossy, utf8_lossy};
use crate::lines::{bytes_of, lemma_occurrences_bound, line_count, occurrences};
use crate::text::chars_of;
use vstd::prelude::*;
use vstd::string::StringExecFns;
use vstd::utf8::{decode_utf8, valid_utf8};

verus! {

/// How much of an input to take.
#[derive(Debug, Clone, Copy, PartialEq, Eq, Structural)]
pub enum TakeValue {
    /// Everything, written `+0`.
    PlusZero,
    /// A positive number counts from the start, a negative one from the end.
    TakeNum(i64),
}

/// What a count denotes. With a sign the number is taken as written, and
/// `+0` stands for everything. Without a sign it counts from the end, so it
/// is negated. The digits must be ASCII, at least one, and the number must
/// fit 64 bits with its sign.
pub open spec fn take_value_of(text: Seq<char>) -> Option<TakeValue> {
    if text.len() > 0 && text[0] == '+' {
        let digits = text.skip(1);
        if digits.len() > 0 && all_digits(digits) && decimal_value(digits) <= i64::MAX {
            if decimal_value(digits) == 0 {
                Some(TakeValue::PlusZero)
            } else {
                Some(TakeValue::TakeNum(decimal_value(digits) as i64))
            }
        } else {
            None
        }
    } else if text.len() > 0 && text[0] == '-' {
        let digits = text.skip(1);
        if digits.len() > 0 && all_digits(digits) && decimal_value(digits) <= i64::MAX + 1 {
            Some(TakeValue::TakeNum((-decimal_value(digits)) as i64))
        } else {
            None
        }
    } else {
        if text.len() > 0 && all_digits(text) && decimal_value(text) <= i64::MAX {
            Some(TakeValue::TakeNum((-decimal_value(text)) as i64))
        } else {
            None
        }
    }
}

/// Reads a count. What is no count is handed back as the error.
pub fn parse_num(val: &str) -> (r: Result<TakeValue, String>)
    ensures
        match r {
            Ok(take) => take_value_of(val@) == Some(take),
            Err(text) => take_value_of(val@) is None && text@ == val@,
        },
{
    let chars = chars_of(val);
    let len = chars.len();
    let signed = len > 0 && (chars[0] == '+' || chars[0] == '-');
    let from: usize = if signed {
        1
    } else {
        0
    };
    proof {
        assert(chars@.subrange(from as int, len as int) == val@.skip(from as int));
        assert(val@.skip(0) == val@);
    }
    let magnitude = match parse_decimal(&chars, from, len) {
        Some(n) => n,
        None => {
            return Err(String::from_str(val));
        },
    };
    if signed && chars[0] == '+' {
        if magnitude > i64::MAX as u64 {
            Err(String::from_str(val))
        } else if magnitude == 0 {
            Ok(TakeValue::PlusZero)
        } else {
            Ok(TakeValue::TakeNum(magnitude as i64))
        }
    } else if magnitude <= i64::MAX as u64 {
        Ok(TakeValue::TakeNum(-(magnitude as i64)))
    } else if signed && magnitude == i64::MAX as u64 + 1 {
        Ok(TakeValue::TakeNum(i64::MIN))
    } else {
        Err(String::from_str(val))
    }
}

/// The zero-based offset at which the tail starts, for an input of `total`
/// units. A positive number `n` starts at unit `n`, counted from one; a
/// negative number `-n` starts `n` units before the end, or at the start
/// where the input is shorter. Nothing is taken of an empty input, for a
/// count of zero, or from beyond the end.
pub open spec fn start_index(take: TakeValue, total: int) -> Option<int> {
    match take {
        TakeValue::PlusZero => if total > 0 {
            Some(0)
        } else {
            None
        },
        TakeValue::TakeNum(num) => if num == 0 || total == 0 || num > total {
            None
        } else {
            let start = if num < 0 {
                total + num
            } else {
                num - 1
            };
            Some(
                if start < 0 {
                    0
                } else {
                    start
                },
            )
        },
    }
}

/// The zero-based offset at which the tail of an input of `total` units
/// starts, or `None` where nothing is to be taken.
pub fn get_start_index(take_val: &TakeValue, total: i64) -> (r: Option<u64>)
    ensures
        r is Some <==> start_index(*take_val, total as int) is Some,
        r is Some ==> r.unwrap() == start_index(*take_val, total as int).unwrap(),
{
    match take_val {
        TakeValue::PlusZero => {
            if total > 0 {
                Some(0)
            } else {
                None
            }
        },
        TakeValue::TakeNum(num) => {
            let num: i64 = *num;
            if num == 0 || total == 0 || num > total {
                None
            } else if num < 0 {
                if total < 0 {
                    Some(0)
                } else {
                    let start: i64 = total + num;
                    if start < 0 {
                        Some(0)
                    } else {
                        Some(start as u64)
                    }
                }
            } else {
                Some((num - 1) as u64)
            }
        },
    }
}

/// Which of the two counts a text was given for.
#[derive(Debug, Clone, Copy, PartialEq, Eq, Structural)]
pub enum Unit {
    Lines,
    Bytes,
}

/// The message for a text that is no count.
pub open spec fn illegal_count_text(unit: Unit, value: Seq<char>) -> Seq<char> {
    (match unit {
        Unit::Lines => "illegal line count -- "@,
        Unit::Bytes => "illegal byte count -- "@,
    }) + value
}

/// Reads the count of lines or bytes that the user gave, and says which of
/// the two was wrong where it is no count.
pub fn parse_count(val: &str, unit: Unit) -> (r: Result<TakeValue, String>)
    ensures
        match r {
            Ok(take) => take_value_of(val@) == Some(take),
            Err(message) => take_value_of(val@) is None && message@ == illegal_count_text(
                unit,
                val@,
            ),
        },
{
    match parse_num(val) {
        Ok(take) => Ok(take),
        Err(text) => {
            let mut message = match unit {
                Unit::Lines => String::from_str("illegal line count -- "),
                Unit::Bytes => String::from_str("illegal byte count -- "),
            };
            message.append(text.as_str());
            Err(message)
        },
    }
}

/// Counts the lines and the bytes of an input.
pub fn count_lines_bytes(content: &[u8]) -> (r: (i64, i64))
    requires
        content@.len() <= i64::MAX,
    ensures
        r.0 == line_count(content@, 10u8),
        r.1 == content@.len(),
{
    let mut feeds: i64 = 0;
    let mut i: usize = 0;
    while i < content.len()
        invariant
            i <= content.len(),
            content@.len() <= i64::MAX,
            feeds == occurrences(content@.take(i as int), 10u8),
            feeds <= i,
        decreases content.len() - i,
    {
        proof {
            assert(content@.take(i + 1).drop_last() == content@.take(i as int));
        }
        if content[i] == 10u8 {
            feeds += 1;
        }
        i += 1;
    }
    proof {
        assert(content@.take(content@.len() as int) == content@);
        lemma_occurrences_bound(content@, 10u8);
    }
    let open_line = content.len() > 0 && content[content.len() - 1] != 10u8;
    let lines: i64 = if open_line {
        feeds + 1
    } else {
        feeds
    };
    (lines, content.len() as i64)
}

/// The bytes of the tail: from the starting offset to the end, or nothing
/// where nothing is to be taken.
pub open spec fn tail_of<T>(content: Seq<T>, take: TakeValue) -> Seq<T> {
    match start_index(take, content.len() as int) {
        Some(start) => content.skip(start),
        None => Seq::empty(),
    }
}

/// The tail of an input counted in bytes, decoded lossily. Nothing is
/// decoded, and `None` returned, where the tail is empty. Where the bytes
/// of the tail are valid UTF-8, they come out as their own text.
pub fn tail_bytes(content: &[u8], num_bytes: &TakeValue) -> (r: Option<String>)
    requires
        content@.len() <= i64::MAX,
    ensures
        r is Some <==> tail_of(content@, *num_bytes).len() > 0,
        r is Some ==> r.unwrap()@ == utf8_lossy(tail_of(content@, *num_bytes)),
        r is Some && valid_utf8(tail_of(content@, *num_bytes)) ==> r.unwrap()@ == decode_utf8(
            tail_of(content@, *num_bytes),
        ),
{
    let total = content.len() as i64;
    match get_start_index(num_bytes, total) {
        Some(start) => {
            if start >= content.len() as u64 {
                return None;
            }
            let taken = bytes_of(content, start as usize, content.len());
            assert(content@.subrange(start as int, content@.len() as int) == content@.skip(
                start as int,
            ));
            Some(decode_lossy(taken.as_slice()))
        },
        None => None,
    }
}

/// The tail of an input counted in lines: the lines from the starting
/// offset to the end, or nothing where nothing is to be taken.
pub fn tail_lines(lines: &Vec<String>, num_lines: &TakeValue) -> (out: Vec<String>)
    requires
        lines@.len() <= i64::MAX,
    ensures
        out@ == tail_of(lines@, *num_lines),
{
    let total = lines.len() as i64;
    let mut out: Vec<String> = Vec::new();
    match get_start_index(num_lines, total) {
        Some(start) => {
            if start >= lines.len() as u64 {
                assert(lines@.skip(start as int) == Seq::<String>::empty());
                return out;
            }
            let mut i: usize = start as usize;
            assert(lines@.subrange(start as int, i as int) == Seq::<String>::empty());
            while i < lines.len()
                invariant
                    start <= i <= lines.len(),
                    out@ == lines@.subrange(start as int, i as int),
                decreases lines.len() - i,
            {
                out.push(lines[i].clone());
                assert(lines@.subrange(start as int, i + 1) == lines@.subrange(
                    start as int,
                    i as int,
                ).push(lines@[i as int]));
                i += 1;
            }
            assert(lines@.subrange(start as int, lines@.len() as int) == lines@.skip(
                start as int,
            ));
            out
        },
        None => out,
    }
}

} // verus!

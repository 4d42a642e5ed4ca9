//! Lossy decoding of bytes as UTF-8: well-formed scalars become their
//! characters, and each maximal run of bytes that belong to no well-formed
//! scalar becomes one replacement character.

use crate::text::push_char;
use vstd::prelude::*;
use vstd::utf8::{
    decode_first_scalar, decode_utf8, is_scalar, length_of_first_scalar, pop_first_scalar,
    valid_first_scalar, valid_utf8,
};

verus! {

/// The replacement character, U+FFFD.
pub open spec fn replacement() -> char {
    '\u{fffd}'
}

/// The number of leading positions of `bytes` at which no well-formed
/// scalar starts: the length of the invalid run that `bytes` begins with.
pub open spec fn invalid_run(bytes: Seq<u8>) -> nat
    decreases bytes.len(),
{
    if bytes.len() == 0 || valid_first_scalar(bytes) {
        0
    } else {
        1 + invalid_run(bytes.skip(1))
    }
}

/// The lossy decoding of `bytes`, where `in_run` says that the byte before
/// them belonged to an invalid run whose replacement character is already
/// written. A well-formed scalar gives its character and ends the run. A
/// byte at which no well-formed scalar starts gives the replacement
/// character where it begins a run, and nothing where it continues one.
pub open spec fn lossy_from(bytes: Seq<u8>, in_run: bool) -> Seq<char>
    decreases bytes.len(),
{
    if bytes.len() == 0 {
        Seq::empty()
    } else if valid_first_scalar(bytes) {
        seq![decode_first_scalar(bytes) as char] + lossy_from(
            bytes.skip(length_of_first_scalar(bytes)),
            false,
        )
    } else if in_run {
        lossy_from(bytes.skip(1), true)
    } else {
        seq![replacement()] + lossy_from(bytes.skip(1), true)
    }
}

/// The lossy decoding of `bytes`: the scalars as they are, and one
/// replacement character for each maximal invalid run.
pub open spec fn lossy_text(bytes: Seq<u8>) -> Seq<char> {
    lossy_from(bytes, false)
}

/// An invalid run ends within the bytes, and where it ends the bytes are
/// over or a well-formed scalar starts.
pub proof fn lemma_invalid_run_ends(bytes: Seq<u8>)
    ensures
        invalid_run(bytes) <= bytes.len(),
        invalid_run(bytes) < bytes.len() ==> valid_first_scalar(
            bytes.skip(invalid_run(bytes) as int),
        ),
        bytes.len() > 0 && !valid_first_scalar(bytes) ==> invalid_run(bytes) >= 1,
    decreases bytes.len(),
{
    if bytes.len() == 0 || valid_first_scalar(bytes) {
        assert(bytes.skip(0) == bytes);
    } else {
        lemma_invalid_run_ends(bytes.skip(1));
        assert(bytes.skip(1).skip(invalid_run(bytes.skip(1)) as int) == bytes.skip(
            invalid_run(bytes) as int,
        ));
    }
}

/// Within a run, the bytes of the run give nothing more: the decoding goes
/// on behind the run.
pub proof fn lemma_run_is_silent(bytes: Seq<u8>)
    ensures
        lossy_from(bytes, true) == lossy_text(bytes.skip(invalid_run(bytes) as int)),
    decreases bytes.len(),
{
    lemma_invalid_run_ends(bytes);
    if bytes.len() == 0 || valid_first_scalar(bytes) {
        assert(bytes.skip(0) == bytes);
    } else {
        lemma_run_is_silent(bytes.skip(1));
        assert(bytes.skip(1).skip(invalid_run(bytes.skip(1)) as int) == bytes.skip(
            invalid_run(bytes) as int,
        ));
    }
}

/// One replacement character stands for a whole invalid run, however many
/// bytes it has: bytes that begin with such a run decode to the replacement
/// character and the decoding of what follows the run.
pub proof fn lemma_run_is_one_mark(bytes: Seq<u8>)
    requires
        bytes.len() > 0,
        !valid_first_scalar(bytes),
    ensures
        1 <= invalid_run(bytes) <= bytes.len(),
        lossy_text(bytes) == seq![replacement()] + lossy_text(
            bytes.skip(invalid_run(bytes) as int),
        ),
{
    lemma_invalid_run_ends(bytes);
    lemma_run_is_silent(bytes.skip(1));
    assert(bytes.skip(1).skip(invalid_run(bytes.skip(1)) as int) == bytes.skip(
        invalid_run(bytes) as int,
    ));
}

/// Valid UTF-8 decodes to its own text, with no replacement character.
pub proof fn lemma_lossy_of_valid(bytes: Seq<u8>, in_run: bool)
    requires
        valid_utf8(bytes),
    ensures
        lossy_from(bytes, in_run) == decode_utf8(bytes),
    decreases bytes.len(),
{
    if bytes.len() > 0 {
        assert(pop_first_scalar(bytes) == bytes.skip(length_of_first_scalar(bytes)));
        lemma_lossy_of_valid(pop_first_scalar(bytes), false);
    }
}

/// What the standard library's lossy decoding makes of a byte sequence:
/// the text itself where the bytes are valid UTF-8, and otherwise the text
/// with replacement characters in place of what is ill-formed, as many and
/// where `String::from_utf8_lossy` puts them.
pub uninterp spec fn utf8_lossy(bytes: Seq<u8>) -> Seq<char>;

/// Decodes bytes to text as the standard library does, replacing what is
/// not valid UTF-8.
///
/// Trusted: `String::from_utf8_lossy` is a function of the bytes alone, and
/// on valid UTF-8 it returns the decoded text unchanged.
#[verifier::external_body]
pub(crate) fn decode_lossy(bytes: &[u8]) -> (text: String)
    ensures
        text@ == utf8_lossy(bytes@),
        valid_utf8(bytes@) ==> text@ == decode_utf8(bytes@),
{
    String::from_utf8_lossy(bytes).into_owned()
}

/// The character of a number, if it is a Unicode scalar value.
///
/// Trusted: `char::from_u32` returns the character with the given scalar
/// value, and `None` exactly for a number that is no scalar value.
#[verifier::external_body]
pub(crate) fn char_of_scalar(value: u32) -> (c: Option<char>)
    ensures
        c is Some <==> is_scalar(value),
        c is Some ==> c.unwrap() == value as char,
{
    char::from_u32(value)
}

/// Whether a byte has the form of a continuation byte, `10xxxxxx`.
fn is_continuation(byte: u8) -> (b: bool)
    ensures
        b == vstd::utf8::is_continuation_byte(byte),
{
    0x80 <= byte && byte <= 0xbf
}

/// The well-formed scalar that starts at position `i`, if there is one: its
/// character and the number of bytes that encode it.
pub(crate) fn scalar_at(bytes: &[u8], i: usize) -> (r: Option<(char, usize)>)
    requires
        i < bytes.len(),
    ensures
        r is Some <==> valid_first_scalar(bytes@.skip(i as int)),
        r is Some ==> {
            &&& r.unwrap().0 == decode_first_scalar(bytes@.skip(i as int)) as char
            &&& r.unwrap().1 == length_of_first_scalar(bytes@.skip(i as int))
            &&& 1 <= r.unwrap().1 <= bytes.len() - i
        },
{
    let ghost rest = bytes@.skip(i as int);
    let left: usize = bytes.len() - i;
    let b0 = bytes[i];
    assert(rest[0] == b0);
    if b0 <= 0x7f {
        let value: u32 = (b0 & 0x7f) as u32;
        assert(value <= 0x7f) by (bit_vector)
            requires
                value == (b0 & 0x7f) as u32,
        ;
        match char_of_scalar(value) {
            Some(c) => Some((c, 1)),
            None => None,
        }
    } else if 0xc0 <= b0 && b0 <= 0xdf {
        if left < 2 {
            return None;
        }
        let b1 = bytes[i + 1];
        assert(rest[1] == b1);
        if !is_continuation(b1) {
            return None;
        }
        let value: u32 = (((b0 & 0x1f) as u32) << 6) | ((b1 & 0x3f) as u32);
        assert(value <= 0x7ff) by (bit_vector)
            requires
                value == (((b0 & 0x1f) as u32) << 6) | ((b1 & 0x3f) as u32),
        ;
        if value < 0x80 {
            return None;
        }
        match char_of_scalar(value) {
            Some(c) => Some((c, 2)),
            None => None,
        }
    } else if 0xe0 <= b0 && b0 <= 0xef {
        if left < 3 {
            return None;
        }
        let b1 = bytes[i + 1];
        let b2 = bytes[i + 2];
        assert(rest[1] == b1 && rest[2] == b2);
        if !is_continuation(b1) || !is_continuation(b2) {
            return None;
        }
        let value: u32 = (((b0 & 0x0f) as u32) << 12) | (((b1 & 0x3f) as u32) << 6) | ((b2
            & 0x3f) as u32);
        assert(value <= 0xffff) by (bit_vector)
            requires
                value == (((b0 & 0x0f) as u32) << 12) | (((b1 & 0x3f) as u32) << 6) | ((b2
                    & 0x3f) as u32),
        ;
        if value < 0x800 || (0xd800 <= value && value <= 0xdfff) {
            return None;
        }
        match char_of_scalar(value) {
            Some(c) => Some((c, 3)),
            None => None,
        }
    } else if 0xf0 <= b0 && b0 <= 0xf7 {
        if left < 4 {
            return None;
        }
        let b1 = bytes[i + 1];
        let b2 = bytes[i + 2];
        let b3 = bytes[i + 3];
        assert(rest[1] == b1 && rest[2] == b2 && rest[3] == b3);
        if !is_continuation(b1) || !is_continuation(b2) || !is_continuation(b3) {
            return None;
        }
        let value: u32 = (((b0 & 0x07) as u32) << 18) | (((b1 & 0x3f) as u32) << 12) | (((b2
            & 0x3f) as u32) << 6) | ((b3 & 0x3f) as u32);
        if value < 0x10000 || value > 0x10ffff {
            return None;
        }
        match char_of_scalar(value) {
            Some(c) => Some((c, 4)),
            None => None,
        }
    } else {
        None
    }
}

/// Decodes bytes to text. Well-formed scalars become their characters, and
/// each maximal run of bytes at which no well-formed scalar starts becomes
/// one replacement character, so that valid UTF-8 comes out as it is.
pub fn decode_runs(bytes: &[u8]) -> (text: String)
    ensures
        text@ == lossy_text(bytes@),
        valid_utf8(bytes@) ==> text@ == decode_utf8(bytes@),
{
    let mut text = String::new();
    let mut in_run = false;
    let mut i: usize = 0;
    assert(bytes@.skip(0) == bytes@);
    assert(text@ + lossy_from(bytes@, false) == lossy_from(bytes@, false));
    while i < bytes.len()
        invariant
            i <= bytes.len(),
            lossy_text(bytes@) == text@ + lossy_from(bytes@.skip(i as int), in_run),
        decreases bytes.len() - i,
    {
        let ghost rest = bytes@.skip(i as int);
        let ghost before = text@;
        match scalar_at(bytes, i) {
            Some((c, n)) => {
                push_char(&mut text, c);
                proof {
                    assert(rest.skip(n as int) == bytes@.skip(i + n));
                    assert(before + (seq![c] + lossy_from(rest.skip(n as int), false))
                        == before.push(c) + lossy_from(rest.skip(n as int), false));
                }
                in_run = false;
                i += n;
            },
            None => {
                proof {
                    assert(rest.skip(1) == bytes@.skip(i + 1));
                }
                if !in_run {
                    push_char(&mut text, '\u{fffd}');
                    proof {
                        assert(before + (seq![replacement()] + lossy_from(rest.skip(1), true))
                            == before.push(replacement()) + lossy_from(rest.skip(1), true));
                    }
                    in_run = true;
                }
                i += 1;
            },
        }
    }
    proof {
        assert(text@ + Seq::<char>::empty() == text@);
        if valid_utf8(bytes@) {
            lemma_lossy_of_valid(bytes@, false);
        }
    }
    text
}

} // verus!

//! Unsigned decimal numerals: reading them from characters and writing them.

use crate::text::push_char;
use vstd::prelude::*;

verus! {

/// `c` is one of the ASCII digits `0` to `9`.
pub open spec fn is_digit(c: char) -> bool {
    '0' <= c && c <= '9'
}

/// The value of an ASCII digit.
pub open spec fn digit_value(c: char) -> nat {
    (c as u32 - '0' as u32) as nat
}

/// The ASCII digit of a value below ten.
pub open spec fn digit_char(d: nat) -> char {
    (d + 48) as char
}

/// Every character of `s` is an ASCII digit.
pub open spec fn all_digits(s: Seq<char>) -> bool {
    forall|i: int| 0 <= i < s.len() ==> is_digit(#[trigger] s[i])
}

/// The number that a string of digits denotes in base ten. Leading zeros
/// change nothing; the empty string denotes zero.
pub open spec fn decimal_value(s: Seq<char>) -> nat
    decreases s.len(),
{
    if s.len() == 0 {
        0
    } else {
        decimal_value(s.drop_last()) * 10 + digit_value(s.last())
    }
}

/// The shortest decimal numeral of `n`.
pub open spec fn decimal_text(n: nat) -> Seq<char>
    decreases n,
{
    if n < 10 {
        seq![digit_char(n)]
    } else {
        decimal_text(n / 10).push(digit_char(n % 10))
    }
}

/// A numeral denotes at least as much as any of its prefixes.
pub proof fn lemma_value_of_prefix(s: Seq<char>, k: int)
    requires
        0 <= k <= s.len(),
    ensures
        decimal_value(s.take(k)) <= decimal_value(s),
    decreases s.len() - k,
{
    if k == s.len() {
        assert(s.take(k) == s);
    } else {
        lemma_value_of_prefix(s, k + 1);
        assert(s.take(k + 1).drop_last() == s.take(k));
    }
}

/// Writing a number and reading the numeral back gives the number.
pub proof fn lemma_text_round_trip(n: nat)
    ensures
        decimal_text(n).len() > 0,
        all_digits(decimal_text(n)),
        decimal_value(decimal_text(n)) == n,
    decreases n,
{
    if n < 10 {
        let s = decimal_text(n);
        assert(s.drop_last().len() == 0);
        assert(decimal_value(s.drop_last()) == 0);
    } else {
        lemma_text_round_trip(n / 10);
        let s = decimal_text(n);
        assert(s.drop_last() == decimal_text(n / 10));
    }
}

/// Whether `c` is an ASCII digit.
pub(crate) fn is_digit_char(c: char) -> (b: bool)
    ensures
        b == is_digit(c),
{
    '0' <= c && c <= '9'
}

/// Whether `chars[from..to]` holds ASCII digits only.
pub(crate) fn digits_only(chars: &Vec<char>, from: usize, to: usize) -> (b: bool)
    requires
        from <= to <= chars.len(),
    ensures
        b == all_digits(chars@.subrange(from as int, to as int)),
{
    let ghost tok = chars@.subrange(from as int, to as int);
    let mut i: usize = from;
    while i < to
        invariant
            from <= i <= to <= chars.len(),
            tok == chars@.subrange(from as int, to as int),
            forall|j: int| 0 <= j < i - from ==> is_digit(#[trigger] tok[j]),
        decreases to - i,
    {
        if !is_digit_char(chars[i]) {
            assert(!is_digit(tok[i - from]));
            return false;
        }
        i += 1;
    }
    true
}

/// Reads `chars[from..to]` as a decimal numeral. The result is `Some`
/// exactly when the text is a non-empty string of ASCII digits whose value
/// fits 64 bits, and it is then that value.
pub(crate) fn parse_decimal(chars: &Vec<char>, from: usize, to: usize) -> (r: Option<u64>)
    requires
        from <= to <= chars.len(),
    ensures
        r is Some <==> {
            &&& from < to
            &&& all_digits(chars@.subrange(from as int, to as int))
            &&& decimal_value(chars@.subrange(from as int, to as int)) <= u64::MAX
        },
        r is Some ==> r.unwrap() == decimal_value(chars@.subrange(from as int, to as int)),
{
    if from >= to {
        return None;
    }
    let ghost tok = chars@.subrange(from as int, to as int);
    let mut acc: u64 = 0;
    let mut i: usize = from;
    while i < to
        invariant
            from <= i <= to <= chars.len(),
            tok == chars@.subrange(from as int, to as int),
            all_digits(tok.take(i - from)),
            acc == decimal_value(tok.take(i - from)),
        decreases to - i,
    {
        let c = chars[i];
        proof {
            assert(tok.take(i - from + 1).drop_last() == tok.take(i - from));
            assert(tok.take(i - from + 1).last() == c);
            lemma_value_of_prefix(tok, i - from + 1);
        }
        if !is_digit_char(c) {
            assert(!is_digit(tok[i - from]));
            return None;
        }
        let d: u64 = (c as u32 - '0' as u32) as u64;
        let shifted = match acc.checked_mul(10) {
            Some(v) => v,
            None => {
                return None;
            },
        };
        acc = match shifted.checked_add(d) {
            Some(v) => v,
            None => {
                return None;
            },
        };
        assert forall|j: int| 0 <= j < i - from + 1 implies is_digit(
            #[trigger] tok.take(i - from + 1)[j],
        ) by {
            if j < i - from {
                assert(tok.take(i - from + 1)[j] == tok.take(i - from)[j]);
            }
        }
        i += 1;
    }
    assert(tok.take(to - from) == tok);
    Some(acc)
}

/// Appends the shortest decimal numeral of `n` to `s`.
pub fn push_decimal(s: &mut String, n: u64)
    ensures
        final(s)@ == old(s)@ + decimal_text(n as nat),
    decreases n,
{
    if n >= 10 {
        push_decimal(s, n / 10);
    }
    let d: u8 = (n % 10) as u8;
    let c: char = (d + 48u8) as char;
    let ghost mid = s@;
    push_char(s, c);
    proof {
        if n >= 10 {
            assert(mid.push(c) == old(s)@ + decimal_text((n / 10) as nat).push(c));
        } else {
            assert(old(s)@.push(c) == old(s)@ + seq![c]);
        }
    }
}

/// The number of characters in the shortest decimal numeral of `n`.
pub fn decimal_width(n: u64) -> (w: usize)
    ensures
        w == decimal_text(n as nat).len(),
        1 <= w <= 20,
    decreases n,
{
    if n < 10 {
        1
    } else {
        let w = decimal_width(n / 10);
        assert(w <= 19) by {
            assert(pow10(19) == 10000000000000000000) by {
                reveal_with_fuel(pow10, 20);
            }
            lemma_width_bound((n / 10) as nat, 19);
        }
        w + 1
    }
}

/// Ten to the power `k`.
pub open spec fn pow10(k: nat) -> nat
    decreases k,
{
    if k == 0 {
        1
    } else {
        10 * pow10((k - 1) as nat)
    }
}

/// A number below ten to the `k` has a numeral of at most `k` characters.
pub proof fn lemma_width_bound(n: nat, k: nat)
    requires
        k >= 1,
        n < pow10(k),
    ensures
        decimal_text(n).len() <= k,
    decreases k,
{
    if n >= 10 {
        assert(k >= 2) by {
            assert(pow10(1) == 10) by {
                reveal_with_fuel(pow10, 3);
            }
        }
        lemma_width_bound(n / 10, (k - 1) as nat);
    }
}

/// Appends the decimal numeral of `n`, padded on the left with spaces to at
/// least `width` characters.
pub fn push_right_aligned(s: &mut String, n: u64, width: usize)
    ensures
        final(s)@ == old(s)@ + right_aligned(decimal_text(n as nat), width as nat),
{
    let w = decimal_width(n);
    let ghost text = decimal_text(n as nat);
    let mut k: usize = w;
    assert(old(s)@ + spaces(0) == old(s)@);
    while k < width
        invariant
            w <= k,
            w < width ==> k <= width,
            w >= width ==> k == w,
            s@ == old(s)@ + spaces((k - w) as nat),
        decreases width - k,
    {
        let ghost before = s@;
        push_char(s, ' ');
        assert(spaces((k + 1 - w) as nat) == spaces((k - w) as nat).push(' '));
        assert(before.push(' ') == old(s)@ + spaces((k - w) as nat).push(' '));
        k += 1;
    }
    let ghost padded = s@;
    push_decimal(s, n);
    proof {
        assert(s@ == padded + text);
        assert(padded == old(s)@ + spaces((k - w) as nat));
        assert(padded + text == old(s)@ + (spaces((k - w) as nat) + text));
        if text.len() < width {
            assert(k == width);
        } else {
            assert(k == w);
            assert(spaces(0) + text == text);
        }
        assert(spaces((k - w) as nat) + text == right_aligned(text, width as nat));
    }
}

/// `n` spaces.
pub open spec fn spaces(n: nat) -> Seq<char> {
    Seq::new(n, |i: int| ' ')
}

/// `text` with spaces before it, as many as it takes to reach `width`
/// characters; unchanged where it is that long already.
pub open spec fn right_aligned(text: Seq<char>, width: nat) -> Seq<char> {
    if text.len() < width {
        spaces((width - text.len()) as nat) + text
    } else {
        text
    }
}

} // verus!

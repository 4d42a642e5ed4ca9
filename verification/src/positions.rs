//! The selector grammar: a comma-separated list of one-based positions `N`
//! and inclusive ranges `N-M`, compiled to zero-based half-open ranges.

use crate::decimal::{
    all_digits, decimal_text, decimal_value, digits_only, parse_decimal, push_decimal,
};
use crate::select::{well_formed, PositionList};
use crate::text::{chars_of, find_char, first_index, string_of};
use std::ops::Range;
use vstd::prelude::*;
use vstd::string::StringExecFns;

verus! {

/// Why a selector was rejected.
#[derive(Debug)]
pub enum ParseError {
    /// The text is no position: not a number, zero, signed, or too large.
    IllegalValue(String),
    /// A range whose first number is not below its second, both as written.
    RangeOrder(usize, usize),
}

/// The mathematical content of a `ParseError`.
pub enum ParseErrorView {
    IllegalValue(Seq<char>),
    RangeOrder(nat, nat),
}

impl View for ParseError {
    type V = ParseErrorView;

    open spec fn view(&self) -> ParseErrorView {
        match self {
            ParseError::IllegalValue(text) => ParseErrorView::IllegalValue(text@),
            ParseError::RangeOrder(first, second) => ParseErrorView::RangeOrder(
                *first as nat,
                *second as nat,
            ),
        }
    }
}

/// The message for a text that is no position.
pub open spec fn illegal_value_text(value: Seq<char>) -> Seq<char> {
    "illegal list value: \""@ + value + "\""@
}

/// The message for a range that does not ascend.
pub open spec fn range_order_text(first: nat, second: nat) -> Seq<char> {
    "First number in range ("@ + decimal_text(first) + ") must be lower than second number ("@
        + decimal_text(second) + ")"@
}

impl ParseErrorView {
    /// The message that reports this error.
    pub open spec fn message(self) -> Seq<char> {
        match self {
            ParseErrorView::IllegalValue(value) => illegal_value_text(value),
            ParseErrorView::RangeOrder(first, second) => range_order_text(first, second),
        }
    }
}

impl ParseError {
    /// The message that reports this error.
    pub fn to_string(&self) -> (s: String)
        ensures
            s@ == self@.message(),
    {
        match self {
            ParseError::IllegalValue(value) => illegal_value_message(value.as_str()),
            ParseError::RangeOrder(first, second) => {
                let mut s = String::from_str("First number in range (");
                push_decimal(&mut s, *first as u64);
                s.append(") must be lower than second number (");
                push_decimal(&mut s, *second as u64);
                s.append(")");
                s
            },
        }
    }
}

/// Builds the message for a text that is no position.
pub fn illegal_value_message(value: &str) -> (s: String)
    ensures
        s@ == illegal_value_text(value@),
{
    let mut s = String::from_str("illegal list value: \"");
    s.append(value);
    s.append("\"");
    s
}

/// The zero-based index that a single position denotes: the text must be a
/// non-empty string of ASCII digits, with no sign, whose value is at least
/// one and fits the machine word.
pub open spec fn index_of(text: Seq<char>) -> Option<usize> {
    if text.len() > 0 && all_digits(text) && 1 <= decimal_value(text) <= usize::MAX {
        Some((decimal_value(text) - 1) as usize)
    } else {
        None
    }
}

/// The pieces of `s` between occurrences of `sep`. There is always at least
/// one piece, and pieces may be empty.
pub open spec fn split_on(s: Seq<char>, sep: char) -> Seq<Seq<char>>
    decreases s.len(),
{
    let d = first_index(s, sep);
    if 0 <= d < s.len() {
        seq![s.take(d)] + split_on(s.skip(d + 1), sep)
    } else {
        seq![s]
    }
}

/// The token has the form digits, dash, digits, with digits on both sides.
pub open spec fn is_range_form(token: Seq<char>) -> bool {
    let d = first_index(token, '-');
    &&& 0 < d < token.len() - 1
    &&& all_digits(token.take(d))
    &&& all_digits(token.skip(d + 1))
}

/// What one token compiles to. A single position `N` gives `N-1..N`. A
/// range `N-M` gives `N-1..M`; its errors name the side that is no position,
/// the first side first, and then the order of the two. Anything else is
/// rejected as a whole.
pub open spec fn token_range(token: Seq<char>) -> Result<Range<usize>, ParseErrorView> {
    match index_of(token) {
        Some(n) => Ok(Range { start: n, end: (n + 1) as usize }),
        None => if is_range_form(token) {
            let d = first_index(token, '-');
            let first = token.take(d);
            let second = token.skip(d + 1);
            match index_of(first) {
                None => Err(ParseErrorView::IllegalValue(first)),
                Some(n1) => match index_of(second) {
                    None => Err(ParseErrorView::IllegalValue(second)),
                    Some(n2) => if n1 >= n2 {
                        Err(ParseErrorView::RangeOrder((n1 + 1) as nat, (n2 + 1) as nat))
                    } else {
                        Ok(Range { start: n1, end: (n2 + 1) as usize })
                    },
                },
            }
        } else {
            Err(ParseErrorView::IllegalValue(token))
        },
    }
}

/// What a list of tokens compiles to: the ranges of the tokens in the order
/// of the tokens, or the error of the first token that has one.
pub open spec fn parse_tokens(tokens: Seq<Seq<char>>) -> Result<
    Seq<Range<usize>>,
    ParseErrorView,
>
    decreases tokens.len(),
{
    if tokens.len() == 0 {
        Ok(Seq::empty())
    } else {
        match parse_tokens(tokens.drop_last()) {
            Err(e) => Err(e),
            Ok(ranges) => match token_range(tokens.last()) {
                Err(e) => Err(e),
                Ok(r) => Ok(ranges.push(r)),
            },
        }
    }
}

/// What a selector compiles to.
pub open spec fn parsed(spec: Seq<char>) -> Result<Seq<Range<usize>>, ParseErrorView> {
    parse_tokens(split_on(spec, ','))
}

/// The mathematical content of a parse result.
pub open spec fn outcome(r: Result<PositionList, ParseError>) -> Result<
    Seq<Range<usize>>,
    ParseErrorView,
> {
    match r {
        Ok(list) => Ok(list@),
        Err(e) => Err(e@),
    }
}

/// Once a token has failed, the tokens after it change nothing.
pub proof fn lemma_first_error_stands(head: Seq<Seq<char>>, tail: Seq<Seq<char>>)
    requires
        parse_tokens(head) is Err,
    ensures
        parse_tokens(head + tail) == parse_tokens(head),
    decreases tail.len(),
{
    if tail.len() == 0 {
        assert(head + tail == head);
    } else {
        lemma_first_error_stands(head, tail.drop_last());
        assert((head + tail).drop_last() == head + tail.drop_last());
    }
}

/// A selector that compiles gives one non-empty range per token, and there
/// is at least one token.
pub proof fn lemma_parsed_well_formed(tokens: Seq<Seq<char>>)
    ensures
        match parse_tokens(tokens) {
            Ok(ranges) => {
                &&& ranges.len() == tokens.len()
                &&& well_formed(ranges)
                &&& forall|i: int|
                    0 <= i < tokens.len() ==> token_range(#[trigger] tokens[i]) == Ok::<
                        Range<usize>,
                        ParseErrorView,
                    >(ranges[i])
            },
            Err(e) => exists|i: int|
                0 <= i < tokens.len() && token_range(#[trigger] tokens[i]) == Err::<
                    Range<usize>,
                    ParseErrorView,
                >(e),
        },
    decreases tokens.len(),
{
    if tokens.len() > 0 {
        let init = tokens.drop_last();
        lemma_parsed_well_formed(init);
        match parse_tokens(init) {
            Err(e) => {
                let i = choose|i: int|
                    0 <= i < init.len() && token_range(#[trigger] init[i]) == Err::<
                        Range<usize>,
                        ParseErrorView,
                    >(e);
                assert(tokens[i] == init[i]);
            },
            Ok(ranges) => {
                match token_range(tokens.last()) {
                    Err(e) => {
                        assert(tokens[tokens.len() - 1] == tokens.last());
                    },
                    Ok(r) => {
                        let all = ranges.push(r);
                        assert forall|i: int| 0 <= i < tokens.len() implies token_range(
                            #[trigger] tokens[i],
                        ) == Ok::<Range<usize>, ParseErrorView>(all[i]) by {
                            if i < init.len() {
                                assert(tokens[i] == init[i]);
                            }
                        }
                        assert forall|i: int| 0 <= i < all.len() implies (#[trigger] all[i]).start
                            < all[i].end by {
                            if i < ranges.len() {
                                assert(all[i] == ranges[i]);
                            }
                        }
                    },
                }
            },
        }
    }
}

/// Parsing is repeatable: whatever two parses of one selector return, they
/// return the same, be it the list of ranges or the error.
pub proof fn lemma_parse_repeatable(
    spec: Seq<char>,
    first: Result<PositionList, ParseError>,
    second: Result<PositionList, ParseError>,
)
    requires
        outcome(first) == parsed(spec),
        outcome(second) == parsed(spec),
    ensures
        outcome(first) == outcome(second),
        first is Ok <==> second is Ok,
        first is Ok ==> first.unwrap()@ == second.unwrap()@,
        first is Err ==> first.unwrap_err()@ == second.unwrap_err()@,
{
}

/// Reads `chars[from..to]` as a single one-based position.
pub(crate) fn parse_index_at(chars: &Vec<char>, from: usize, to: usize) -> (r: Option<usize>)
    requires
        from <= to <= chars.len(),
    ensures
        r == index_of(chars@.subrange(from as int, to as int)),
{
    match parse_decimal(chars, from, to) {
        Some(n) => if n >= 1 && n <= usize::MAX as u64 {
            Some((n - 1) as usize)
        } else {
            None
        },
        None => None,
    }
}

/// Compiles the token `chars[from..to]`.
pub(crate) fn parse_token(chars: &Vec<char>, from: usize, to: usize) -> (r: Result<
    Range<usize>,
    ParseError,
>)
    requires
        from <= to <= chars.len(),
    ensures
        match r {
            Ok(range) => token_range(chars@.subrange(from as int, to as int)) == Ok::<
                Range<usize>,
                ParseErrorView,
            >(range),
            Err(e) => token_range(chars@.subrange(from as int, to as int)) == Err::<
                Range<usize>,
                ParseErrorView,
            >(e@),
        },
{
    let ghost token = chars@.subrange(from as int, to as int);
    if let Some(n) = parse_index_at(chars, from, to) {
        return Ok(Range { start: n, end: n + 1 });
    }
    let dash = find_char(chars, from, to, '-');
    proof {
        assert(token.take(dash - from) == chars@.subrange(from as int, dash as int));
        if dash < to {
            assert(token.skip(dash - from + 1) == chars@.subrange(dash + 1, to as int));
        }
    }
    if !(from < dash && dash < to && dash + 1 < to && digits_only(chars, from, dash)
        && digits_only(chars, dash + 1, to)) {
        return Err(ParseError::IllegalValue(string_of(chars, from, to)));
    }
    let n1 = match parse_index_at(chars, from, dash) {
        Some(n) => n,
        None => {
            return Err(ParseError::IllegalValue(string_of(chars, from, dash)));
        },
    };
    let n2 = match parse_index_at(chars, dash + 1, to) {
        Some(n) => n,
        None => {
            return Err(ParseError::IllegalValue(string_of(chars, dash + 1, to)));
        },
    };
    if n1 >= n2 {
        return Err(ParseError::RangeOrder(n1 + 1, n2 + 1));
    }
    Ok(Range { start: n1, end: n2 + 1 })
}

/// Compiles a single one-based position to its zero-based index. The text
/// must be a number of at least one, written in ASCII digits with no sign;
/// anything else is reported as an illegal value, quoted in full.
pub fn parse_index(input: &str) -> (r: Result<usize, String>)
    ensures
        match r {
            Ok(n) => index_of(input@) == Some(n),
            Err(message) => index_of(input@) is None && message@ == illegal_value_text(input@),
        },
{
    let chars = chars_of(input);
    assert(chars@.subrange(0, chars@.len() as int) == chars@);
    match parse_index_at(&chars, 0, chars.len()) {
        Some(n) => Ok(n),
        None => Err(illegal_value_message(input)),
    }
}

/// Compiles a selector to its list of ranges, in the order in which the
/// tokens were written. The first token that is no position or range aborts
/// the whole parse with its error.
pub fn parse_pos(range: &str) -> (r: Result<PositionList, ParseError>)
    ensures
        outcome(r) == parsed(range@),
        r is Ok ==> well_formed(r.unwrap()@) && r.unwrap()@.len() == split_on(range@, ',').len(),
{
    let chars = chars_of(range);
    let ghost s = chars@;
    let ghost mut done: Seq<Seq<char>> = Seq::empty();
    let mut out: PositionList = Vec::new();
    let mut from: usize = 0;
    assert(s.skip(0) == s);
    loop
        invariant
            from <= chars.len(),
            s == chars@,
            s == range@,
            split_on(s, ',') == done + split_on(s.skip(from as int), ','),
            parse_tokens(done) == Ok::<Seq<Range<usize>>, ParseErrorView>(out@),
        decreases chars.len() - from,
    {
        let to = find_char(&chars, from, chars.len(), ',');
        let ghost rest = s.skip(from as int);
        let ghost token = s.subrange(from as int, to as int);
        proof {
            assert(rest == s.subrange(from as int, s.len() as int));
            assert(rest.take(to - from) == token);
            assert((done.push(token)).drop_last() == done);
        }
        match parse_token(&chars, from, to) {
            Err(e) => {
                proof {
                    let tail = split_on(s, ',').skip(done.len() as int + 1);
                    assert(split_on(rest, ',')[0] == token);
                    assert(split_on(s, ',') == done.push(token) + tail);
                    lemma_first_error_stands(done.push(token), tail);
                }
                return Err(e);
            },
            Ok(r) => {
                out.push(r);
            },
        }
        if to >= chars.len() {
            proof {
                assert(split_on(rest, ',') == seq![token]);
                assert(split_on(s, ',') == done.push(token));
                lemma_parsed_well_formed(split_on(s, ','));
            }
            return Ok(out);
        }
        proof {
            assert(rest.skip(to - from + 1) == s.skip(to + 1));
            assert(split_on(rest, ',') == seq![token] + split_on(s.skip(to + 1), ','));
            assert(done + (seq![token] + split_on(s.skip(to + 1), ',')) == done.push(token)
                + split_on(s.skip(to + 1), ','));
            done = done.push(token);
        }
        from = to + 1;
    }
}

} // verus!

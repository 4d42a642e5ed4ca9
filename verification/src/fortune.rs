//! Fortunes: reading a seed and choosing one fortune among many.

use crate::decimal::{all_digits, decimal_value, parse_decimal};
use crate::pattern::has_match;
use crate::text::{chars_of, join_with, joined, views_of};
use rand::rngs::StdRng;
use rand::seq::SliceRandom;
use rand::SeedableRng;
use vstd::prelude::*;
use vstd::string::StringExecFns;

verus! {

/// One fortune and the name of the file that it came from.
#[derive(Debug)]
pub struct Fortune {
    pub source: String,
    pub text: String,
}

/// The number that a seed denotes: ASCII digits, at least one, after at most
/// one plus sign, with a value that fits 64 bits.
pub open spec fn u64_of(text: Seq<char>) -> Option<u64> {
    let digits = if text.len() > 0 && text[0] == '+' {
        text.skip(1)
    } else {
        text
    };
    if digits.len() > 0 && all_digits(digits) && decimal_value(digits) <= u64::MAX {
        Some(decimal_value(digits) as u64)
    } else {
        None
    }
}

/// The message for a text that is no number.
pub open spec fn invalid_integer_text(value: Seq<char>) -> Seq<char> {
    "\""@ + value + "\" not a valid integer"@
}

/// Reads an unsigned number of 64 bits.
pub fn parse_u64(val: &str) -> (r: Result<u64, String>)
    ensures
        match r {
            Ok(n) => u64_of(val@) == Some(n),
            Err(message) => u64_of(val@) is None && message@ == invalid_integer_text(val@),
        },
{
    let chars = chars_of(val);
    let len = chars.len();
    let from: usize = if len > 0 && chars[0] == '+' {
        1
    } else {
        0
    };
    proof {
        assert(chars@.subrange(from as int, len as int) == val@.skip(from as int));
        assert(val@.skip(0) == val@);
    }
    match parse_decimal(&chars, from, len) {
        Some(n) => Ok(n),
        None => {
            let mut message = String::from_str("\"");
            message.append(val);
            message.append("\" not a valid integer");
            Err(message)
        },
    }
}

/// The index that a generator seeded with `seed` picks first among `len`
/// items.
pub uninterp spec fn seeded_choice(len: nat, seed: u64) -> nat;

/// Picks one item with a generator made from `seed`.
///
/// Trusted: `SliceRandom::choose` on a slice with a fresh
/// `StdRng::seed_from_u64(seed)` gives `None` for an empty slice and
/// otherwise the item at an index below the length, which the length and
/// the seed determine.
#[verifier::external_body]
pub(crate) fn choose_seeded<T>(items: &[T], seed: u64) -> (r: Option<&T>)
    ensures
        r is None <==> items@.len() == 0,
        r is Some ==> seeded_choice(items@.len(), seed) < items@.len(),
        r is Some ==> *r.unwrap() == items@[seeded_choice(items@.len(), seed) as int],
{
    let mut rng = StdRng::seed_from_u64(seed);
    items.choose(&mut rng)
}

/// Picks one item at random.
///
/// Trusted: `SliceRandom::choose` on a slice with `rand::thread_rng()`
/// gives `None` for an empty slice and otherwise one of its items.
#[verifier::external_body]
pub(crate) fn choose_random<T>(items: &[T]) -> (r: Option<&T>)
    ensures
        r is None <==> items@.len() == 0,
        r is Some ==> items@.contains(*r.unwrap()),
{
    let mut rng = rand::thread_rng();
    items.choose(&mut rng)
}

/// The text of the fortune that was chosen, if one was.
pub fn chosen_text(choice: Option<&Fortune>) -> (r: Option<String>)
    ensures
        choice is None <==> r is None,
        choice is Some ==> r.unwrap()@ == choice.unwrap().text@,
{
    match choice {
        Some(fortune) => Some(fortune.text.clone()),
        None => None,
    }
}

/// Chooses one fortune and returns its text. With a seed the choice is the
/// same every time; without one it is random. There is nothing to choose
/// from an empty list.
pub fn pick_fortune(fortunes: &[Fortune], seed: Option<u64>) -> (r: Option<String>)
    ensures
        r is None <==> fortunes@.len() == 0,
        r is Some ==> exists|i: int|
            0 <= i < fortunes@.len() && r.unwrap()@ == (#[trigger] fortunes@[i]).text@,
        r is Some && seed is Some ==> seeded_choice(fortunes@.len(), seed.unwrap())
            < fortunes@.len() && r.unwrap()@ == fortunes@[seeded_choice(
            fortunes@.len(),
            seed.unwrap(),
        ) as int].text@,
{
    let choice = match seed {
        Some(val) => choose_seeded(fortunes, val),
        None => choose_random(fortunes),
    };
    chosen_text(choice)
}

/// Gathers the lines of fortune files into fortunes. A line that holds a
/// percent sign and nothing else ends a fortune; the lines before it, since
/// the last such line, are its text.
#[derive(Debug)]
pub struct Collector {
    pub buffer: Vec<String>,
}

/// Whether a line ends a fortune.
pub open spec fn ends_fortune(line: Seq<char>) -> bool {
    line == seq!['%']
}

/// Whether a line ends a fortune.
pub fn is_separator(line: &str) -> (b: bool)
    ensures
        b == ends_fortune(line@),
{
    let chars = chars_of(line);
    if chars.len() == 1 && chars[0] == '%' {
        assert(chars@ =~= seq!['%']);
        true
    } else {
        false
    }
}

impl Collector {
    /// A collector that holds no lines.
    pub fn new() -> (c: Collector)
        ensures
            c.buffer@.len() == 0,
    {
        Collector { buffer: Vec::new() }
    }

    /// Takes the next line of the file named `source`, without its line
    /// feed. A separator after at least one line completes a fortune, whose
    /// text is those lines joined by line feeds, and the collector is empty
    /// again. A separator after no line does nothing. Any other line is
    /// kept for the fortune to come.
    pub fn take_line(&mut self, source: &str, line: &str) -> (done: Option<Fortune>)
        ensures
            ends_fortune(line@) && old(self).buffer@.len() > 0 ==> {
                &&& done is Some
                &&& done.unwrap().source@ == source@
                &&& done.unwrap().text@ == joined(views_of(old(self).buffer@), "\n"@)
                &&& final(self).buffer@.len() == 0
            },
            ends_fortune(line@) && old(self).buffer@.len() == 0 ==> {
                &&& done is None
                &&& final(self).buffer@.len() == 0
            },
            !ends_fortune(line@) ==> {
                &&& done is None
                &&& views_of(final(self).buffer@) == views_of(old(self).buffer@).push(line@)
            },
    {
        if is_separator(line) {
            if self.buffer.len() > 0 {
                let text = join_with(&self.buffer, "\n");
                self.buffer.clear();
                Some(Fortune { source: String::from_str(source), text })
            } else {
                None
            }
        } else {
            let ghost before = self.buffer@;
            let kept = String::from_str(line);
            self.buffer.push(kept);
            assert(views_of(before.push(kept)) == views_of(before).push(kept@));
            None
        }
    }
}

/// A fortune that a search found.
#[derive(Debug, Clone, Copy, PartialEq, Eq, Structural)]
pub struct Hit {
    /// The index of the fortune.
    pub index: usize,
    /// Whether its source is to be announced: it is the first hit, or it
    /// comes from another source than the hit before it.
    pub new_source: bool,
}

/// The hits among the first `n` fortunes: those whose text the pattern
/// matches, in their order.
pub open spec fn hits_in(fortunes: Seq<Fortune>, pattern: regex::Regex, n: int) -> Seq<Hit>
    decreases n,
{
    if n <= 0 {
        Seq::empty()
    } else {
        let before = hits_in(fortunes, pattern, n - 1);
        if has_match(pattern, fortunes[n - 1].text@) {
            before.push(
                Hit {
                    index: (n - 1) as usize,
                    new_source: before.len() == 0 || fortunes[before.last().index as int].source@
                        != fortunes[n - 1].source@,
                },
            )
        } else {
            before
        }
    }
}

/// Finds the fortunes whose text the pattern matches.
pub fn search(fortunes: &[Fortune], pattern: &regex::Regex) -> (hits: Vec<Hit>)
    ensures
        hits@ == hits_in(fortunes@, *pattern, fortunes@.len() as int),
        forall|k: int| 0 <= k < hits@.len() ==> (#[trigger] hits@[k]).index < fortunes@.len(),
{
    let mut hits: Vec<Hit> = Vec::new();
    let mut i: usize = 0;
    while i < fortunes.len()
        invariant
            i <= fortunes.len(),
            hits@ == hits_in(fortunes@, *pattern, i as int),
            forall|k: int| 0 <= k < hits@.len() ==> (#[trigger] hits@[k]).index < i,
        decreases fortunes.len() - i,
    {
        if pattern.is_match(fortunes[i].text.as_str()) {
            let new_source = if hits.len() == 0 {
                true
            } else {
                let last = hits[hits.len() - 1].index;
                fortunes[last].source != fortunes[i].source
            };
            hits.push(Hit { index: i, new_source });
        }
        i += 1;
    }
    hits
}

/// The announcement of a source, which goes before its first hit.
pub fn source_header(source: &str) -> (s: String)
    ensures
        s@ == "("@ + source@ + ")\n%"@,
{
    let mut s = String::from_str("(");
    s.append(source);
    s.append(")\n%");
    s
}

/// A fortune as a search shows it: its text and a separator.
pub fn hit_text(text: &str) -> (s: String)
    ensures
        s@ == text@ + "\n%"@,
{
    let mut s = String::from_str(text);
    s.append("\n%");
    s
}

/// What is shown when a choice was asked for: the text that was chosen, or
/// the remark that there was none to choose from.
pub fn chosen_or_none(choice: Option<String>) -> (s: String)
    ensures
        s@ == match choice {
            Some(text) => text@,
            None => "No fortunes found"@,
        },
{
    match choice {
        Some(text) => text,
        None => String::from_str("No fortunes found"),
    }
}

} // verus!

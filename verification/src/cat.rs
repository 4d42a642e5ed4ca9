//! Numbering the lines of a text as it is copied.

use crate::decimal::{decimal_text, push_right_aligned, right_aligned};
use vstd::prelude::*;
use vstd::string::StringExecFns;

verus! {

/// Which lines get a number.
#[derive(Debug, Clone, Copy, PartialEq, Eq, Structural)]
pub enum Numbering {
    /// No line is numbered.
    Off,
    /// Every line is numbered.
    All,
    /// Lines that are not empty are numbered; empty ones are not counted.
    NonBlank,
}

impl Numbering {
    /// The numbering for the flags that were given. Numbering every line
    /// takes precedence.
    pub fn from_flags(number_lines: bool, number_nonblank_lines: bool) -> (numbering: Numbering)
        ensures
            numbering == if number_lines {
                Numbering::All
            } else if number_nonblank_lines {
                Numbering::NonBlank
            } else {
                Numbering::Off
            },
    {
        if number_lines {
            Numbering::All
        } else if number_nonblank_lines {
            Numbering::NonBlank
        } else {
            Numbering::Off
        }
    }
}

/// A line behind its number: the number right-aligned in six characters,
/// then a tab, then the line.
pub open spec fn numbered(number: nat, line: Seq<char>) -> Seq<char> {
    right_aligned(decimal_text(number), 6) + "\t"@ + line
}

/// The number given to the last non-empty line after one more line, where
/// `last_num` was the number before it.
pub open spec fn next_number(numbering: Numbering, line: Seq<char>, last_num: nat) -> nat {
    if numbering == Numbering::NonBlank && line.len() > 0 {
        last_num + 1
    } else {
        last_num
    }
}

/// How line number `line_num`, counted from zero, is written out, where
/// `last_num` non-empty lines came before it.
pub open spec fn line_text(
    numbering: Numbering,
    line: Seq<char>,
    line_num: nat,
    last_num: nat,
) -> Seq<char> {
    match numbering {
        Numbering::All => numbered(line_num + 1, line),
        Numbering::NonBlank => if line.len() > 0 {
            numbered(last_num + 1, line)
        } else {
            Seq::empty()
        },
        Numbering::Off => line,
    }
}

/// Writes the number before a line.
pub fn number_line(number: usize, line: &str) -> (s: String)
    ensures
        s@ == numbered(number as nat, line@),
{
    let mut s = String::new();
    push_right_aligned(&mut s, number as u64, 6);
    s.append("\t");
    s.append(line);
    assert(Seq::<char>::empty() + right_aligned(decimal_text(number as nat), 6) + "\t"@ + line@
        == right_aligned(decimal_text(number as nat), 6) + "\t"@ + line@);
    s
}

/// Writes out one line, without its line feed, and says how many non-empty
/// lines have been numbered after it.
pub fn render_line(numbering: Numbering, line: &str, line_num: usize, last_num: usize) -> (out: (
    String,
    usize,
))
    requires
        line_num < usize::MAX,
        last_num < usize::MAX,
    ensures
        out.0@ == line_text(numbering, line@, line_num as nat, last_num as nat),
        out.1 == next_number(numbering, line@, last_num as nat),
{
    match numbering {
        Numbering::All => (number_line(line_num + 1, line), last_num),
        Numbering::NonBlank => {
            if !line.is_empty() {
                (number_line(last_num + 1, line), last_num + 1)
            } else {
                (String::new(), last_num)
            }
        },
        Numbering::Off => (String::from_str(line), last_num),
    }
}

} // verus!

//! Counting lines, words, bytes and characters of a text, and laying the
//! counts out in columns.

use crate::decimal::{decimal_text, push_right_aligned, right_aligned};
use crate::lines::{line_count, occurrences};
use crate::text::{chars_of, is_dash};
use vstd::prelude::*;
use vstd::string::{StringExecFns, StringSliceAdditionalSpecFns};

verus! {

/// Whether a character has the Unicode property White_Space: the controls
/// from tab to carriage return, the space, the next-line control, the
/// no-break space, the Ogham space mark, the spaces from en quad to hair
/// space, the line and paragraph separators, the narrow no-break space, the
/// medium mathematical space and the ideographic space.
pub open spec fn white_space(c: char) -> bool {
    ||| ('\u{9}' <= c && c <= '\u{d}')
    ||| c == ' '
    ||| c == '\u{85}'
    ||| c == '\u{a0}'
    ||| c == '\u{1680}'
    ||| ('\u{2000}' <= c && c <= '\u{200a}')
    ||| c == '\u{2028}'
    ||| c == '\u{2029}'
    ||| c == '\u{202f}'
    ||| c == '\u{205f}'
    ||| c == '\u{3000}'
}

/// Whether a character is white space.
pub fn is_white_space(c: char) -> (b: bool)
    ensures
        b == white_space(c),
{
    ('\u{9}' <= c && c <= '\u{d}') || c == ' ' || c == '\u{85}' || c == '\u{a0}' || c
        == '\u{1680}' || ('\u{2000}' <= c && c <= '\u{200a}') || c == '\u{2028}' || c
        == '\u{2029}' || c == '\u{202f}' || c == '\u{205f}' || c == '\u{3000}'
}

/// The counts of one text.
#[derive(Debug, Clone, Copy, PartialEq, Eq, Structural)]
pub struct FileInfo {
    pub num_lines: usize,
    pub num_words: usize,
    pub num_bytes: usize,
    pub num_chars: usize,
}

/// A word starts at `i`: the character there is no white space, and it is
/// the first of the text or follows white space.
pub open spec fn starts_word(s: Seq<char>, i: int) -> bool {
    &&& 0 <= i < s.len()
    &&& !white_space(s[i])
    &&& (i == 0 || white_space(s[i - 1]))
}

/// The number of words of `s`: maximal runs of characters that are not
/// white space.
pub open spec fn word_count(s: Seq<char>) -> nat
    decreases s.len(),
{
    if s.len() == 0 {
        0
    } else {
        word_count(s.drop_last()) + if starts_word(s, s.len() - 1) {
            1nat
        } else {
            0nat
        }
    }
}

/// Counts the lines, words, bytes and characters of `text`.
pub fn count(text: &str) -> (info: FileInfo)
    ensures
        info.num_lines == line_count(text@, '\n'),
        info.num_words == word_count(text@),
        info.num_bytes == text.spec_bytes().len(),
        info.num_chars == text@.len(),
{
    let chars = chars_of(text);
    let ghost s = chars@;
    let mut newlines: usize = 0;
    let mut words: usize = 0;
    let mut in_word = false;
    let mut open_line = false;
    let mut i: usize = 0;
    while i < chars.len()
        invariant
            i <= chars.len(),
            s == chars@,
            newlines == occurrences(s.take(i as int), '\n'),
            words == word_count(s.take(i as int)),
            newlines <= i,
            words <= i,
            in_word == (i > 0 && !white_space(s[i - 1])),
            open_line == (i > 0 && s[i - 1] != '\n'),
            newlines + (if open_line { 1int } else { 0int }) <= i,
        decreases chars.len() - i,
    {
        let c = chars[i];
        let space = is_white_space(c);
        proof {
            let next = s.take(i + 1);
            assert(next.drop_last() == s.take(i as int));
            assert(next.last() == c);
            assert(starts_word(next, i as int) == (!space && !in_word)) by {
                if i > 0 {
                    assert(next[i - 1] == s[i - 1]);
                }
            }
        }
        if c == '\n' {
            newlines += 1;
            open_line = false;
        } else {
            open_line = true;
        }
        if !space && !in_word {
            words += 1;
        }
        in_word = !space;
        i += 1;
    }
    assert(s.take(s.len() as int) == s);
    let lines = if open_line {
        newlines + 1
    } else {
        newlines
    };
    FileInfo {
        num_lines: lines,
        num_words: words,
        num_bytes: text.as_bytes().len(),
        num_chars: chars.len(),
    }
}

impl FileInfo {
    /// The counts of nothing.
    pub fn zero() -> (info: FileInfo)
        ensures
            info == (FileInfo { num_lines: 0, num_words: 0, num_bytes: 0, num_chars: 0 }),
    {
        FileInfo { num_lines: 0, num_words: 0, num_bytes: 0, num_chars: 0 }
    }

    /// Whether adding `other` to these counts stays within the machine word.
    pub open spec fn fits_with(&self, other: &FileInfo) -> bool {
        &&& self.num_lines + other.num_lines <= usize::MAX
        &&& self.num_words + other.num_words <= usize::MAX
        &&& self.num_bytes + other.num_bytes <= usize::MAX
        &&& self.num_chars + other.num_chars <= usize::MAX
    }

    /// The running total after one more text: each count is the sum of the
    /// two, or `None` if any of the sums leaves the machine word.
    pub fn total_with(&self, other: &FileInfo) -> (sum: Option<FileInfo>)
        ensures
            sum is Some <==> self.fits_with(other),
            sum is Some ==> {
                &&& sum.unwrap().num_lines == self.num_lines + other.num_lines
                &&& sum.unwrap().num_words == self.num_words + other.num_words
                &&& sum.unwrap().num_bytes == self.num_bytes + other.num_bytes
                &&& sum.unwrap().num_chars == self.num_chars + other.num_chars
            },
    {
        let num_lines = match self.num_lines.checked_add(other.num_lines) {
            Some(n) => n,
            None => {
                return None;
            },
        };
        let num_words = match self.num_words.checked_add(other.num_words) {
            Some(n) => n,
            None => {
                return None;
            },
        };
        let num_bytes = match self.num_bytes.checked_add(other.num_bytes) {
            Some(n) => n,
            None => {
                return None;
            },
        };
        let num_chars = match self.num_chars.checked_add(other.num_chars) {
            Some(n) => n,
            None => {
                return None;
            },
        };
        Some(FileInfo { num_lines, num_words, num_bytes, num_chars })
    }
}

/// One column of the report: the number right-aligned in eight characters
/// where the column is shown, and nothing where it is not.
pub open spec fn field_text(value: nat, show: bool) -> Seq<char> {
    if show {
        right_aligned(decimal_text(value), 8)
    } else {
        Seq::empty()
    }
}

/// Formats one column of the report.
pub fn format_field(value: usize, show: bool) -> (s: String)
    ensures
        s@ == field_text(value as nat, show),
{
    let mut s = String::new();
    if show {
        push_right_aligned(&mut s, value as u64, 8);
        assert(Seq::<char>::empty() + right_aligned(decimal_text(value as nat), 8)
            == right_aligned(decimal_text(value as nat), 8));
    }
    s
}

/// Which columns a report shows.
#[derive(Debug, Clone, Copy, PartialEq, Eq, Structural)]
pub struct Columns {
    pub lines: bool,
    pub words: bool,
    pub bytes: bool,
    pub chars: bool,
}

impl Columns {
    /// The columns for the flags that were given. With no flag at all the
    /// report shows lines, words and bytes.
    pub fn from_flags(lines: bool, words: bool, bytes: bool, chars: bool) -> (c: Columns)
        ensures
            c == if !lines && !words && !bytes && !chars {
                Columns { lines: true, words: true, bytes: true, chars: false }
            } else {
                Columns { lines, words, bytes, chars }
            },
    {
        if !lines && !words && !bytes && !chars {
            Columns { lines: true, words: true, bytes: true, chars: false }
        } else {
            Columns { lines, words, bytes, chars }
        }
    }
}

/// The columns of one row, without a label.
pub open spec fn row_fields(info: FileInfo, columns: Columns) -> Seq<char> {
    field_text(info.num_lines as nat, columns.lines) + field_text(
        info.num_words as nat,
        columns.words,
    ) + field_text(info.num_bytes as nat, columns.bytes) + field_text(
        info.num_chars as nat,
        columns.chars,
    )
}

/// The label after the columns of a file's row: a space and the name, or
/// nothing for standard input, which is written `-`.
pub open spec fn name_label(filename: Seq<char>) -> Seq<char> {
    if filename == "-"@ {
        Seq::empty()
    } else {
        " "@ + filename
    }
}

/// Formats the columns of one row, without a label.
pub fn format_fields(info: &FileInfo, columns: &Columns) -> (s: String)
    ensures
        s@ == row_fields(*info, *columns),
{
    let mut s = format_field(info.num_lines, columns.lines);
    s.append(format_field(info.num_words, columns.words).as_str());
    s.append(format_field(info.num_bytes, columns.bytes).as_str());
    s.append(format_field(info.num_chars, columns.chars).as_str());
    s
}

/// Formats the row of one file.
pub fn format_row(info: &FileInfo, columns: &Columns, filename: &str) -> (s: String)
    ensures
        s@ == row_fields(*info, *columns) + name_label(filename@),
{
    let mut s = format_fields(info, columns);
    let ghost fields = s@;
    if !is_dash(filename) {
        s.append(" ");
        s.append(filename);
        assert(fields + " "@ + filename@ == fields + (" "@ + filename@));
    } else {
        assert(fields + Seq::<char>::empty() == fields);
    }
    s
}

/// Formats the row of totals, which is shown when there are several files.
pub fn format_total(total: &FileInfo, columns: &Columns) -> (s: String)
    ensures
        s@ == row_fields(*total, *columns) + " total"@,
{
    let mut s = format_fields(total, columns);
    s.append(" total");
    s
}

} // verus!

//! Finding the lines of a text that a pattern matches.

use crate::decimal::{decimal_text, push_decimal};
use crate::lines::{lines_of, split_lines};
use crate::text::views_of;
use crate::pattern::has_match;
use vstd::prelude::*;
use vstd::string::StringExecFns;

verus! {

/// Whether a line is kept: it matches, or matching is inverted and it does
/// not.
pub open spec fn keeps(pattern: regex::Regex, invert_match: bool, line: Seq<char>) -> bool {
    has_match(pattern, line) != invert_match
}

/// The lines among `lines` that are kept, in their order.
pub open spec fn kept_lines(
    lines: Seq<Seq<char>>,
    pattern: regex::Regex,
    invert_match: bool,
) -> Seq<Seq<char>> {
    lines.filter(|line: Seq<char>| keeps(pattern, invert_match, line))
}

/// The lines of `text` that the pattern matches, or with `invert_match`
/// those that it does not match, in their order and each with its line
/// feed.
pub fn find_lines(text: &str, pattern: &regex::Regex, invert_match: bool) -> (matches: Vec<String>)
    ensures
        views_of(matches@) == kept_lines(split_lines(text@), *pattern, invert_match),
{
    let lines = lines_of(text);
    let ghost all = views_of(lines@);
    let ghost keep = |line: Seq<char>| keeps(*pattern, invert_match, line);
    let mut matches: Vec<String> = Vec::new();
    let mut i: usize = 0;
    assert(all.take(0).filter(keep) == Seq::<Seq<char>>::empty());
    assert(views_of(matches@) == Seq::<Seq<char>>::empty());
    while i < lines.len()
        invariant
            i <= lines.len(),
            all == views_of(lines@),
            keep == |line: Seq<char>| keeps(*pattern, invert_match, line),
            views_of(matches@) == all.take(i as int).filter(keep),
        decreases lines.len() - i,
    {
        let ghost before = matches@;
        proof {
            assert(all.take(i + 1) == all.take(i as int).push(all[i as int]));
            Seq::<Seq<char>>::filter_distributes_over_add(
                all.take(i as int),
                seq![all[i as int]],
                keep,
            );
            assert(all.take(i as int).push(all[i as int]) == all.take(i as int) + seq![
                all[i as int],
            ]);
            reveal_with_fuel(Seq::filter, 2);
            assert(seq![all[i as int]].drop_last() == Seq::<Seq<char>>::empty());
        }
        if pattern.is_match(lines[i].as_str()) != invert_match {
            let line = lines[i].clone();
            matches.push(line);
            assert(views_of(before.push(line)) == views_of(before).push(line@));
            assert(seq![all[i as int]].filter(keep) == seq![all[i as int]]);
        } else {
            assert(seq![all[i as int]].filter(keep) == Seq::<Seq<char>>::empty());
        }
        i += 1;
    }
    assert(all.take(all.len() as int) == all);
    matches
}

/// A piece of output as it is printed: behind the file's name and a colon
/// where several files are searched, and bare where there is one.
pub fn label_output(filename: &str, text: &str, num_files: usize) -> (s: String)
    ensures
        s@ == if num_files > 1 {
            filename@ + ":"@ + text@
        } else {
            text@
        },
{
    if num_files > 1 {
        let mut s = String::from_str(filename);
        s.append(":");
        s.append(text);
        s
    } else {
        String::from_str(text)
    }
}

/// The line that reports how many lines were found.
pub fn count_output(found: usize) -> (s: String)
    ensures
        s@ == decimal_text(found as nat) + "\n"@,
{
    let mut s = String::new();
    push_decimal(&mut s, found as u64);
    assert(Seq::<char>::empty() + decimal_text(found as nat) == decimal_text(found as nat));
    s.append("\n");
    s
}

/// What the file system says a path is.
#[derive(Debug, Clone, Copy, PartialEq, Eq, Structural)]
pub enum PathKind {
    File,
    Dir,
    Other,
}

/// What to do with a path that was named as an input.
#[derive(Debug)]
pub enum Found {
    /// Search this input.
    Input(String),
    /// Search every file below this directory.
    Walk,
    /// Report this message and go on.
    Problem(String),
    /// Pass over it in silence.
    Nothing,
}

/// The mathematical content of a `Found`.
pub enum FoundView {
    Input(Seq<char>),
    Walk,
    Problem(Seq<char>),
    Nothing,
}

impl View for Found {
    type V = FoundView;

    open spec fn view(&self) -> FoundView {
        match self {
            Found::Input(path) => FoundView::Input(path@),
            Found::Walk => FoundView::Walk,
            Found::Problem(message) => FoundView::Problem(message@),
            Found::Nothing => FoundView::Nothing,
        }
    }
}

/// Decides what to do with a path, given what the file system said of it:
/// its kind, or the reason why it could not be examined. A file is
/// searched. A directory is walked in a recursive search and is a problem
/// otherwise. What is neither is passed over.
pub fn classify_path(path: &str, kind: &Result<PathKind, String>, recursive: bool) -> (found: Found)
    ensures
        found@ == match *kind {
            Ok(PathKind::File) => FoundView::Input(path@),
            Ok(PathKind::Dir) => if recursive {
                FoundView::Walk
            } else {
                FoundView::Problem(path@ + " is a directory"@)
            },
            Ok(PathKind::Other) => FoundView::Nothing,
            Err(reason) => FoundView::Problem(path@ + ": "@ + reason@),
        },
{
    match kind {
        Ok(PathKind::File) => Found::Input(String::from_str(path)),
        Ok(PathKind::Dir) => {
            if recursive {
                Found::Walk
            } else {
                let mut message = String::from_str(path);
                message.append(" is a directory");
                Found::Problem(message)
            }
        },
        Ok(PathKind::Other) => Found::Nothing,
        Err(reason) => {
            let mut message = String::from_str(path);
            message.append(": ");
            message.append(reason.as_str());
            Found::Problem(message)
        },
    }
}

} // verus!

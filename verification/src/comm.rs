//! Comparing two sorted inputs line by line: which column the next line of
//! output belongs to, and how it is laid out.

use crate::text::{chars_of, is_dash};
use vstd::prelude::*;
use vstd::string::StringExecFns;

verus! {

/// The lower-case form of a text.
pub uninterp spec fn lowercase(text: Seq<char>) -> Seq<char>;

/// Trusted: `str::to_lowercase` is a function of the text alone.
#[verifier::external_body]
pub(crate) fn to_lower(text: &str) -> (lower: String)
    ensures
        lower@ == lowercase(text@),
{
    text.to_lowercase()
}

/// The form in which a line is compared and shown: in lower case where
/// case is to be ignored, and as it is otherwise.
pub fn fold_case(line: &str, insensitive: bool) -> (folded: String)
    ensures
        folded@ == if insensitive {
            lowercase(line@)
        } else {
            line@
        },
{
    if insensitive {
        to_lower(line)
    } else {
        String::from_str(line)
    }
}

/// How two texts compare.
#[derive(Debug, Clone, Copy, PartialEq, Eq, Structural)]
pub enum Order {
    Before,
    Same,
    After,
}

/// The lexicographic order of two texts by their code points, which is the
/// order of their bytes in UTF-8.
pub open spec fn text_order(a: Seq<char>, b: Seq<char>) -> Order
    decreases a.len(),
{
    if a.len() == 0 {
        if b.len() == 0 {
            Order::Same
        } else {
            Order::Before
        }
    } else if b.len() == 0 {
        Order::After
    } else if a[0] < b[0] {
        Order::Before
    } else if a[0] > b[0] {
        Order::After
    } else {
        text_order(a.skip(1), b.skip(1))
    }
}

/// Two texts compare as the same exactly when they are equal.
pub proof fn lemma_same_is_equal(a: Seq<char>, b: Seq<char>)
    ensures
        text_order(a, b) == Order::Same <==> a == b,
    decreases a.len(),
{
    if a.len() > 0 && b.len() > 0 {
        if a[0] == b[0] {
            lemma_same_is_equal(a.skip(1), b.skip(1));
            if a.skip(1) == b.skip(1) {
                assert(a =~= seq![a[0]] + a.skip(1));
                assert(b =~= seq![b[0]] + b.skip(1));
            }
        }
    } else if a.len() == 0 && b.len() == 0 {
        assert(a =~= b);
    }
}

/// The order is antisymmetric: swapping the texts swaps before and after.
pub proof fn lemma_order_swaps(a: Seq<char>, b: Seq<char>)
    ensures
        text_order(a, b) == Order::Before <==> text_order(b, a) == Order::After,
        text_order(a, b) == Order::Same <==> text_order(b, a) == Order::Same,
    decreases a.len(),
{
    if a.len() > 0 && b.len() > 0 && a[0] == b[0] {
        lemma_order_swaps(a.skip(1), b.skip(1));
    }
}

/// Compares two texts.
pub fn compare_text(a: &str, b: &str) -> (order: Order)
    ensures
        order == text_order(a@, b@),
{
    let left = chars_of(a);
    let right = chars_of(b);
    let mut i: usize = 0;
    assert(left@.skip(0) == left@ && right@.skip(0) == right@);
    while i < left.len() && i < right.len()
        invariant
            i <= left.len(),
            i <= right.len(),
            left@ == a@,
            right@ == b@,
            text_order(a@, b@) == text_order(left@.skip(i as int), right@.skip(i as int)),
        decreases left.len() - i,
    {
        proof {
            assert(left@.skip(i as int).skip(1) == left@.skip(i + 1));
            assert(right@.skip(i as int).skip(1) == right@.skip(i + 1));
        }
        if left[i] < right[i] {
            return Order::Before;
        }
        if left[i] > right[i] {
            return Order::After;
        }
        i += 1;
    }
    if i < right.len() {
        Order::Before
    } else if i < left.len() {
        Order::After
    } else {
        Order::Same
    }
}

/// The column of a line of output.
#[derive(Debug, Clone, Copy, PartialEq, Eq, Structural)]
pub enum Column {
    /// The line is in the first input only.
    Col1,
    /// The line is in the second input only.
    Col2,
    /// The line is in both inputs.
    Col3,
}

/// What to print next and which inputs to read on.
#[derive(Debug, Clone, Copy, PartialEq, Eq, Structural)]
pub struct Step {
    pub column: Column,
    pub advance_first: bool,
    pub advance_second: bool,
}

/// The step for the current lines of the two inputs, where `None` stands
/// for an input that has ended. The lower line goes first, in the column of
/// its input; equal lines go together, in the third column; and when both
/// inputs have ended there is no step.
pub open spec fn step_for(line1: Option<Seq<char>>, line2: Option<Seq<char>>) -> Option<Step> {
    match (line1, line2) {
        (Some(val1), Some(val2)) => match text_order(val1, val2) {
            Order::Same => Some(
                Step { column: Column::Col3, advance_first: true, advance_second: true },
            ),
            Order::Before => Some(
                Step { column: Column::Col1, advance_first: true, advance_second: false },
            ),
            Order::After => Some(
                Step { column: Column::Col2, advance_first: false, advance_second: true },
            ),
        },
        (Some(_), None) => Some(
            Step { column: Column::Col1, advance_first: true, advance_second: false },
        ),
        (None, Some(_)) => Some(
            Step { column: Column::Col2, advance_first: false, advance_second: true },
        ),
        (None, None) => None,
    }
}

/// The view of an optional line.
pub open spec fn line_view(line: Option<&str>) -> Option<Seq<char>> {
    match line {
        Some(text) => Some(text@),
        None => None,
    }
}

/// Decides the next step from the current lines of the two inputs.
pub fn next_step(line1: Option<&str>, line2: Option<&str>) -> (step: Option<Step>)
    ensures
        step == step_for(line_view(line1), line_view(line2)),
{
    match (line1, line2) {
        (Some(val1), Some(val2)) => match compare_text(val1, val2) {
            Order::Same => Some(
                Step { column: Column::Col3, advance_first: true, advance_second: true },
            ),
            Order::Before => Some(
                Step { column: Column::Col1, advance_first: true, advance_second: false },
            ),
            Order::After => Some(
                Step { column: Column::Col2, advance_first: false, advance_second: true },
            ),
        },
        (Some(_), None) => Some(
            Step { column: Column::Col1, advance_first: true, advance_second: false },
        ),
        (None, Some(_)) => Some(
            Step { column: Column::Col2, advance_first: false, advance_second: true },
        ),
        (None, None) => None,
    }
}

/// Which columns are shown, and what stands between them.
#[derive(Debug)]
pub struct Layout {
    pub show_col1: bool,
    pub show_col2: bool,
    pub show_col3: bool,
    pub delimiter: String,
}

/// Whether a line in `column` is shown at all.
pub open spec fn shown(column: Column, show_col1: bool, show_col2: bool, show_col3: bool) -> bool {
    match column {
        Column::Col1 => show_col1,
        Column::Col2 => show_col2,
        Column::Col3 => show_col3,
    }
}

/// The number of delimiters before a line in `column`: one for each shown
/// column to its left.
pub open spec fn indent(column: Column, show_col1: bool, show_col2: bool) -> nat {
    match column {
        Column::Col1 => 0,
        Column::Col2 => if show_col1 {
            1
        } else {
            0
        },
        Column::Col3 => (if show_col1 {
            1nat
        } else {
            0nat
        }) + (if show_col2 {
            1nat
        } else {
            0nat
        }),
    }
}

/// `n` copies of `text`, one after the other.
pub open spec fn repeated(text: Seq<char>, n: nat) -> Seq<char>
    decreases n,
{
    if n == 0 {
        Seq::empty()
    } else {
        repeated(text, (n - 1) as nat) + text
    }
}

impl Layout {
    /// The line of output for `value` in `column`: the value behind one
    /// delimiter for each shown column to its left, or `None` where the
    /// column is suppressed.
    pub fn render(&self, column: Column, value: &str) -> (line: Option<String>)
        ensures
            line is Some <==> shown(column, self.show_col1, self.show_col2, self.show_col3),
            line is Some ==> line.unwrap()@ == repeated(
                self.delimiter@,
                indent(column, self.show_col1, self.show_col2),
            ) + value@,
    {
        let visible = match column {
            Column::Col1 => self.show_col1,
            Column::Col2 => self.show_col2,
            Column::Col3 => self.show_col3,
        };
        if !visible {
            return None;
        }
        let mut line = String::new();
        let ghost mut n: nat = 0;
        assert(repeated(self.delimiter@, 0) == Seq::<char>::empty());
        if self.show_col1 && column != Column::Col1 {
            line.append(self.delimiter.as_str());
            proof {
                assert(repeated(self.delimiter@, 1) == repeated(self.delimiter@, 0)
                    + self.delimiter@);
                assert(Seq::<char>::empty() + self.delimiter@ == self.delimiter@);
                n = 1;
            }
        }
        assert(line@ == repeated(self.delimiter@, n));
        if self.show_col2 && column == Column::Col3 {
            line.append(self.delimiter.as_str());
            proof {
                assert(repeated(self.delimiter@, n + 1) == repeated(self.delimiter@, n)
                    + self.delimiter@);
                n = n + 1;
            }
        }
        assert(line@ == repeated(self.delimiter@, n));
        line.append(value);
        Some(line)
    }
}

/// Whether both inputs are standard input, which cannot be compared with
/// itself.
pub fn both_stdin(file1: &str, file2: &str) -> (both: bool)
    ensures
        both == (file1@ == "-"@ && file2@ == "-"@),
{
    is_dash(file1) && is_dash(file2)
}

} // verus!

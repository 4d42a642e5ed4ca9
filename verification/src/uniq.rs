//! Collapsing runs of adjacent lines that are equal but for trailing white
//! space, with a count of each run.

use crate::decimal::{decimal_text, push_right_aligned, right_aligned};
use crate::text::{chars_of, views_of};
use crate::wc::{is_white_space, white_space};
use vstd::prelude::*;
use vstd::string::StringExecFns;

verus! {

/// `s` without the white space at its end.
pub open spec fn trim_end(s: Seq<char>) -> Seq<char>
    decreases s.len(),
{
    if s.len() > 0 && white_space(s.last()) {
        trim_end(s.drop_last())
    } else {
        s
    }
}

/// Trimming is a matter of the prefix alone: a text that ends in white
/// space from `n` on, and not just before `n`, trims to its first `n`
/// characters.
pub proof fn lemma_trim_end_is(s: Seq<char>, n: int)
    requires
        0 <= n <= s.len(),
        forall|i: int| n <= i < s.len() ==> white_space(#[trigger] s[i]),
        n > 0 ==> !white_space(s[n - 1]),
    ensures
        trim_end(s) == s.take(n),
    decreases s.len(),
{
    if n < s.len() {
        let init = s.drop_last();
        assert(white_space(s[s.len() - 1]));
        assert forall|i: int| n <= i < init.len() implies white_space(#[trigger] init[i]) by {
            assert(init[i] == s[i]);
        }
        lemma_trim_end_is(init, n);
        assert(init.take(n) == s.take(n));
    } else {
        assert(s.take(n) == s);
    }
}

/// The length of `chars` without its trailing white space.
pub(crate) fn trimmed_len(chars: &Vec<char>) -> (n: usize)
    ensures
        n <= chars.len(),
        trim_end(chars@) == chars@.take(n as int),
{
    let mut n: usize = chars.len();
    while n > 0 && is_white_space(chars[n - 1])
        invariant
            n <= chars.len(),
            forall|i: int| n <= i < chars.len() ==> white_space(#[trigger] chars@[i]),
        decreases n,
    {
        n -= 1;
    }
    proof {
        lemma_trim_end_is(chars@, n as int);
    }
    n
}

/// Whether two lines are equal but for trailing white space.
pub fn same_line(a: &str, b: &str) -> (same: bool)
    ensures
        same == (trim_end(a@) == trim_end(b@)),
{
    let left = chars_of(a);
    let right = chars_of(b);
    let n = trimmed_len(&left);
    let m = trimmed_len(&right);
    if n != m {
        assert(left@.take(n as int).len() != right@.take(m as int).len());
        return false;
    }
    let mut i: usize = 0;
    while i < n
        invariant
            i <= n,
            n == m,
            n <= left.len(),
            m <= right.len(),
            trim_end(a@) == left@.take(n as int),
            trim_end(b@) == right@.take(m as int),
            forall|j: int| 0 <= j < i ==> left@[j] == right@[j],
        decreases n - i,
    {
        if left[i] != right[i] {
            assert(left@.take(n as int)[i as int] != right@.take(m as int)[i as int]);
            return false;
        }
        i += 1;
    }
    assert(left@.take(n as int) =~= right@.take(m as int));
    true
}

/// A run of lines: its first line as it was read, and how many lines it has
/// so far. Before the first line is read the run is empty, with no text.
#[derive(Debug)]
pub struct Run {
    pub text: String,
    pub count: u64,
}

/// One line of the report: nothing for an empty run; otherwise the first
/// line of the run, after its count, right-aligned in four characters, and
/// a space where counts are shown.
pub open spec fn run_text(text: Seq<char>, count: nat, show_count: bool) -> Seq<char> {
    if count == 0 {
        Seq::empty()
    } else if show_count {
        right_aligned(decimal_text(count), 4) + " "@ + text
    } else {
        text
    }
}

impl Run {
    /// The empty run, before any line is read.
    pub fn new() -> (run: Run)
        ensures
            run.text@ == Seq::<char>::empty(),
            run.count == 0,
    {
        Run { text: String::new(), count: 0 }
    }

    /// Takes the next line. Where it belongs to the run, the run grows by
    /// one and nothing is handed back. Where it differs from the run's first
    /// line by more than trailing white space, the run is handed back as
    /// finished and a new run of one line starts with this line.
    pub fn take_line(&mut self, line: &str) -> (finished: Option<Run>)
        requires
            old(self).count < u64::MAX,
        ensures
            trim_end(line@) == trim_end(old(self).text@) ==> {
                &&& finished is None
                &&& final(self).text@ == old(self).text@
                &&& final(self).count == old(self).count + 1
            },
            trim_end(line@) != trim_end(old(self).text@) ==> {
                &&& finished is Some
                &&& finished.unwrap().text@ == old(self).text@
                &&& finished.unwrap().count == old(self).count
                &&& final(self).text@ == line@
                &&& final(self).count == 1
            },
    {
        if same_line(line, self.text.as_str()) {
            self.count = self.count + 1;
            None
        } else {
            let done = Run { text: self.text.clone(), count: self.count };
            self.text = String::from_str(line);
            self.count = 1;
            Some(done)
        }
    }

    /// Formats the run for the report.
    pub fn render(&self, show_count: bool) -> (s: String)
        ensures
            s@ == run_text(self.text@, self.count as nat, show_count),
    {
        let mut s = String::new();
        if self.count > 0 {
            if show_count {
                push_right_aligned(&mut s, self.count, 4);
                s.append(" ");
            }
            s.append(self.text.as_str());
            proof {
                let number = right_aligned(decimal_text(self.count as nat), 4);
                assert(Seq::<char>::empty() + number + " "@ + self.text@ == number + " "@
                    + self.text@);
                assert(Seq::<char>::empty() + self.text@ == self.text@);
            }
        }
        s
    }
}

/// The report after some lines: the finished runs formatted one after the
/// other, and the run that is still open.
pub open spec fn report_after(lines: Seq<Seq<char>>, show_count: bool) -> (Seq<char>, Seq<char>, nat)
    decreases lines.len(),
{
    if lines.len() == 0 {
        (Seq::empty(), Seq::empty(), 0)
    } else {
        let (written, text, count) = report_after(lines.drop_last(), show_count);
        if trim_end(lines.last()) == trim_end(text) {
            (written, text, count + 1)
        } else {
            (written + run_text(text, count, show_count), lines.last(), 1)
        }
    }
}

/// The whole report for a sequence of lines.
pub open spec fn report(lines: Seq<Seq<char>>, show_count: bool) -> Seq<char> {
    let (written, text, count) = report_after(lines, show_count);
    written + run_text(text, count, show_count)
}

/// Collapses the runs of `lines` and formats the report.
pub fn collapse(lines: &Vec<String>, show_count: bool) -> (out: String)
    ensures
        out@ == report(views_of(lines@), show_count),
{
    let ghost all = views_of(lines@);
    let mut out = String::new();
    let mut run = Run::new();
    let mut i: usize = 0;
    while i < lines.len()
        invariant
            i <= lines.len(),
            i == 0 ==> run.count == 0,
            run.count <= i,
            all == views_of(lines@),
            report_after(all.take(i as int), show_count) == (out@, run.text@, run.count as nat),
        decreases lines.len() - i,
    {
        proof {
            assert(all.take(i + 1).drop_last() == all.take(i as int));
            assert(all.take(i + 1).last() == lines@[i as int]@);
        }
        match run.take_line(lines[i].as_str()) {
            Some(done) => {
                out.append(done.render(show_count).as_str());
            },
            None => {},
        }
        i += 1;
    }
    assert(all.take(all.len() as int) == all);
    out.append(run.render(show_count).as_str());
    out
}

} // verus!

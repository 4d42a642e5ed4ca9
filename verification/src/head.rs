//! The head of an input: its first lines or bytes, and the banner that
//! separates several inputs.

use crate::lossy::{decode_lossy, utf8_lossy};
use crate::lines::bytes_of;
use vstd::prelude::*;
use vstd::string::StringExecFns;
use vstd::utf8::{decode_utf8, valid_utf8};

verus! {

/// The banner before the output of a file: its name between arrows, after
/// an empty line for every file but the first.
pub open spec fn banner_text(filename: Seq<char>, file_num: nat) -> Seq<char> {
    (if file_num > 0 {
        "\n"@
    } else {
        Seq::empty()
    }) + "==> "@ + filename + " <=="@
}

/// Formats the banner before the output of file number `file_num`, counted
/// from zero.
pub fn banner(filename: &str, file_num: usize) -> (s: String)
    ensures
        s@ == banner_text(filename@, file_num as nat),
{
    let mut s = String::new();
    if file_num > 0 {
        s.append("\n");
        assert(Seq::<char>::empty() + "\n"@ == "\n"@);
    }
    s.append("==> ");
    s.append(filename);
    s.append(" <==");
    s
}

/// The first `num` items of `content`, or all of it where it is shorter.
pub open spec fn head_of<T>(content: Seq<T>, num: int) -> Seq<T> {
    if 0 <= num <= content.len() {
        content.take(num)
    } else {
        content
    }
}

/// The first `num_bytes` bytes of `content`, or all of it where it is
/// shorter, decoded lossily. Where those bytes are valid UTF-8, they come
/// out as their own text.
pub fn head_bytes(content: &[u8], num_bytes: u64) -> (s: String)
    ensures
        s@ == utf8_lossy(head_of(content@, num_bytes as int)),
        valid_utf8(head_of(content@, num_bytes as int)) ==> s@ == decode_utf8(
            head_of(content@, num_bytes as int),
        ),
{
    let stop: usize = if num_bytes <= content.len() as u64 {
        num_bytes as usize
    } else {
        content.len()
    };
    let taken = bytes_of(content, 0, stop);
    assert(content@.subrange(0, stop as int) == content@.take(stop as int));
    assert(content@.take(content@.len() as int) == content@);
    decode_lossy(taken.as_slice())
}

/// The first `num_lines` of `lines`, or all of them where there are fewer.
pub fn head_lines(lines: &Vec<String>, num_lines: u64) -> (out: Vec<String>)
    ensures
        out@ == head_of(lines@, num_lines as int),
{
    let mut out: Vec<String> = Vec::new();
    let mut i: usize = 0;
    while i < lines.len() && (i as u64) < num_lines
        invariant
            i <= lines.len(),
            i <= num_lines,
            out@ == lines@.take(i as int),
        decreases lines.len() - i,
    {
        out.push(lines[i].clone());
        assert(lines@.take(i + 1) == lines@.take(i as int).push(lines@[i as int]));
        i += 1;
    }
    assert(lines@.take(lines@.len() as int) == lines@);
    out
}

} // verus!

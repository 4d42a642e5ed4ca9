//! Lines of a text or of bytes, each with the line feed that ends it.

use crate::lossy::{decode_lossy, utf8_lossy};
use crate::text::{chars_of, find_byte, find_char, first_index, string_of, views_of};
use vstd::prelude::*;
use vstd::utf8::{decode_utf8, valid_utf8};

verus! {

/// The pieces of `s` that end with `end`: each piece runs up to and with
/// the next `end`, and what follows the last `end` is a piece without one.
/// No piece is empty, and the pieces joined together are `s`.
pub open spec fn split_after<T>(s: Seq<T>, end: T) -> Seq<Seq<T>>
    decreases s.len(),
{
    if s.len() == 0 {
        Seq::empty()
    } else {
        let d = first_index(s, end);
        if 0 <= d < s.len() {
            seq![s.take(d + 1)] + split_after(s.skip(d + 1), end)
        } else {
            seq![s]
        }
    }
}

/// The lines of a text, each with its line feed.
pub open spec fn split_lines(s: Seq<char>) -> Seq<Seq<char>> {
    split_after(s, '\n')
}

/// The lines of a byte sequence, each with its line feed.
pub open spec fn split_byte_lines(s: Seq<u8>) -> Seq<Seq<u8>> {
    split_after(s, 10u8)
}

/// The lines of a byte sequence, each decoded lossily.
pub open spec fn lossy_lines(s: Seq<u8>) -> Seq<Seq<char>> {
    split_byte_lines(s).map_values(|line: Seq<u8>| utf8_lossy(line))
}

/// The number of times that `x` occurs in `s`.
pub open spec fn occurrences<T>(s: Seq<T>, x: T) -> nat
    decreases s.len(),
{
    if s.len() == 0 {
        0
    } else {
        occurrences(s.drop_last(), x) + if s.last() == x {
            1nat
        } else {
            0nat
        }
    }
}

/// The number of lines of `s`, where `feed` ends a line: each feed ends
/// one, and what follows the last feed is a line too unless it is empty.
pub open spec fn line_count<T>(s: Seq<T>, feed: T) -> nat {
    occurrences(s, feed) + if s.len() > 0 && s.last() != feed {
        1nat
    } else {
        0nat
    }
}

/// The concatenation of a sequence of pieces.
pub open spec fn concat<T>(parts: Seq<Seq<T>>) -> Seq<T>
    decreases parts.len(),
{
    if parts.len() == 0 {
        Seq::empty()
    } else {
        parts[0] + concat(parts.skip(1))
    }
}

/// The pieces of a sequence, joined together, are the sequence; and every
/// piece is non-empty.
pub proof fn lemma_split_joins<T>(s: Seq<T>, end: T)
    ensures
        concat(split_after(s, end)) == s,
        forall|i: int|
            0 <= i < split_after(s, end).len() ==> (#[trigger] split_after(s, end)[i]).len() > 0,
    decreases s.len(),
{
    if s.len() > 0 {
        let d = first_index(s, end);
        if 0 <= d < s.len() {
            let rest = s.skip(d + 1);
            let pieces = split_after(s, end);
            lemma_split_joins(rest, end);
            assert(pieces.skip(1) == split_after(rest, end));
            assert(pieces[0] == s.take(d + 1));
            assert(s.take(d + 1) + rest == s);
            assert(concat(pieces) == pieces[0] + concat(pieces.skip(1)));
            assert forall|i: int| 0 <= i < pieces.len() implies (#[trigger] pieces[i]).len()
                > 0 by {
                if i > 0 {
                    assert(pieces[i] == split_after(rest, end)[i - 1]);
                }
            }
        } else {
            assert(seq![s].skip(1) == Seq::<Seq<T>>::empty());
            assert(concat(seq![s]) == seq![s][0] + concat(seq![s].skip(1)));
            assert(s + Seq::<T>::empty() == s);
        }
    }
}

/// There are at most as many occurrences as items, and fewer where the
/// last item is another.
pub proof fn lemma_occurrences_bound<T>(s: Seq<T>, x: T)
    ensures
        occurrences(s, x) <= s.len(),
        s.len() > 0 && s.last() != x ==> occurrences(s, x) < s.len(),
    decreases s.len(),
{
    if s.len() > 0 {
        lemma_occurrences_bound(s.drop_last(), x);
    }
}

/// What `first_index` finds: `x` does not occur before it, and occurs at it
/// unless it is the length.
pub proof fn lemma_first_index_finds<T>(s: Seq<T>, x: T)
    ensures
        0 <= first_index(s, x) <= s.len(),
        forall|j: int| 0 <= j < first_index(s, x) ==> s[j] != x,
        first_index(s, x) < s.len() ==> s[first_index(s, x)] == x,
    decreases s.len(),
{
    if s.len() > 0 && s[0] != x {
        let rest = s.skip(1);
        lemma_first_index_finds(rest, x);
        assert forall|j: int| 0 <= j < first_index(s, x) implies s[j] != x by {
            if j > 0 {
                assert(s[j] == rest[j - 1]);
            }
        }
        if first_index(s, x) < s.len() {
            assert(s[first_index(s, x)] == rest[first_index(rest, x)]);
        }
    }
}

/// Occurrences add up over concatenation.
pub proof fn lemma_occurrences_add<T>(a: Seq<T>, b: Seq<T>, x: T)
    ensures
        occurrences(a + b, x) == occurrences(a, x) + occurrences(b, x),
    decreases b.len(),
{
    if b.len() == 0 {
        assert(a + b == a);
    } else {
        lemma_occurrences_add(a, b.drop_last(), x);
        assert((a + b).drop_last() == a + b.drop_last());
    }
}

/// Where `x` occurs nowhere among the items, it has no occurrences.
pub proof fn lemma_occurrences_none<T>(s: Seq<T>, x: T)
    requires
        forall|j: int| 0 <= j < s.len() ==> s[j] != x,
    ensures
        occurrences(s, x) == 0,
    decreases s.len(),
{
    if s.len() > 0 {
        let init = s.drop_last();
        assert forall|j: int| 0 <= j < init.len() implies init[j] != x by {
            assert(init[j] == s[j]);
        }
        lemma_occurrences_none(init, x);
    }
}

/// Counting the lines and splitting into lines agree: there are as many
/// pieces as lines.
pub proof fn lemma_line_count_is_pieces<T>(s: Seq<T>, feed: T)
    ensures
        split_after(s, feed).len() == line_count(s, feed),
    decreases s.len(),
{
    if s.len() > 0 {
        let d = first_index(s, feed);
        lemma_first_index_finds(s, feed);
        if d < s.len() {
            let head = s.take(d + 1);
            let rest = s.skip(d + 1);
            lemma_line_count_is_pieces(rest, feed);
            assert(head + rest == s);
            lemma_occurrences_add(head, rest, feed);
            assert(occurrences(head, feed) == 1) by {
                let before = head.drop_last();
                assert forall|j: int| 0 <= j < before.len() implies before[j] != feed by {
                    assert(before[j] == s[j]);
                }
                lemma_occurrences_none(before, feed);
                assert(head.last() == s[d]);
            }
            if rest.len() > 0 {
                assert(rest.last() == s.last());
            } else {
                assert(s.last() == s[d]);
            }
        } else {
            lemma_occurrences_none(s, feed);
        }
    }
}

/// Splits a text into its lines, each with the line feed that ends it.
pub fn lines_of(text: &str) -> (lines: Vec<String>)
    ensures
        views_of(lines@) == split_lines(text@),
{
    let chars = chars_of(text);
    let ghost s = chars@;
    let mut lines: Vec<String> = Vec::new();
    let mut from: usize = 0;
    assert(s.skip(0) == s);
    assert(views_of(lines@) + split_lines(s) == split_lines(s));
    while from < chars.len()
        invariant
            from <= chars.len(),
            s == chars@,
            s == text@,
            split_lines(s) == views_of(lines@) + split_lines(s.skip(from as int)),
        decreases chars.len() - from,
    {
        let feed = find_char(&chars, from, chars.len(), '\n');
        let to: usize = if feed < chars.len() {
            feed + 1
        } else {
            feed
        };
        let line = string_of(&chars, from, to);
        let ghost rest = s.skip(from as int);
        let ghost before = lines@;
        lines.push(line);
        proof {
            assert(rest == s.subrange(from as int, s.len() as int));
            assert(views_of(before.push(line)) == views_of(before).push(line@));
            if feed < chars.len() {
                assert(rest.take(feed - from + 1) == line@);
                assert(rest.skip(feed - from + 1) == s.skip(to as int));
            } else {
                assert(rest == line@);
                assert(s.skip(to as int).len() == 0);
            }
            assert(split_lines(rest) == seq![line@] + split_lines(s.skip(to as int)));
            assert(views_of(before) + (seq![line@] + split_lines(s.skip(to as int))) == views_of(
                before,
            ).push(line@) + split_lines(s.skip(to as int)));
        }
        from = to;
    }
    assert(views_of(lines@) + Seq::<Seq<char>>::empty() == views_of(lines@));
    lines
}

/// The bytes `content[from..to]`.
pub(crate) fn bytes_of(content: &[u8], from: usize, to: usize) -> (piece: Vec<u8>)
    requires
        from <= to <= content.len(),
    ensures
        piece@ == content@.subrange(from as int, to as int),
{
    let mut piece: Vec<u8> = Vec::new();
    let mut i: usize = from;
    while i < to
        invariant
            from <= i <= to <= content.len(),
            piece@ == content@.subrange(from as int, i as int),
        decreases to - i,
    {
        piece.push(content[i]);
        assert(content@.subrange(from as int, i + 1) == content@.subrange(
            from as int,
            i as int,
        ).push(content@[i as int]));
        i += 1;
    }
    piece
}

/// Splits bytes into lines, each with the line feed that ends it, and
/// decodes each line lossily. A line that is valid UTF-8 comes out as its
/// own text.
pub fn lossy_lines_of(content: &[u8]) -> (lines: Vec<String>)
    ensures
        views_of(lines@) == lossy_lines(content@),
        lines@.len() == split_byte_lines(content@).len(),
        forall|k: int|
            0 <= k < lines@.len() && valid_utf8(#[trigger] split_byte_lines(content@)[k])
                ==> lines@[k]@ == decode_utf8(split_byte_lines(content@)[k]),
{
    let ghost s = content@;
    let ghost decode = |line: Seq<u8>| utf8_lossy(line);
    let ghost mut done: Seq<Seq<u8>> = Seq::empty();
    let mut lines: Vec<String> = Vec::new();
    let mut from: usize = 0;
    assert(s.skip(0) == s);
    assert(done + split_byte_lines(s) == split_byte_lines(s));
    assert(views_of(lines@) == done.map_values(decode));
    while from < content.len()
        invariant
            from <= content.len(),
            s == content@,
            decode == |line: Seq<u8>| utf8_lossy(line),
            split_byte_lines(s) == done + split_byte_lines(s.skip(from as int)),
            views_of(lines@) == done.map_values(decode),
            lines@.len() == done.len(),
            forall|k: int|
                0 <= k < done.len() && valid_utf8(#[trigger] done[k]) ==> lines@[k]@
                    == decode_utf8(done[k]),
        decreases content.len() - from,
    {
        let feed = find_byte(content, from, 10u8);
        let to: usize = if feed < content.len() {
            feed + 1
        } else {
            feed
        };
        let piece = bytes_of(content, from, to);
        let line = decode_lossy(piece.as_slice());
        let ghost rest = s.skip(from as int);
        let ghost before = lines@;
        lines.push(line);
        proof {
            assert(rest == s.subrange(from as int, s.len() as int));
            if feed < content.len() {
                assert(rest.take(feed - from + 1) == piece@);
                assert(rest.skip(feed - from + 1) == s.skip(to as int));
            } else {
                assert(rest == piece@);
                assert(s.skip(to as int).len() == 0);
            }
            assert(split_byte_lines(rest) == seq![piece@] + split_byte_lines(s.skip(to as int)));
            assert(done + (seq![piece@] + split_byte_lines(s.skip(to as int))) == done.push(piece@)
                + split_byte_lines(s.skip(to as int)));
            assert(views_of(before.push(line)) == views_of(before).push(line@));
            assert(done.push(piece@).map_values(decode) == done.map_values(decode).push(
                decode(piece@),
            ));
            done = done.push(piece@);
        }
        from = to;
    }
    assert(done + Seq::<Seq<u8>>::empty() == done);
    lines
}

} // verus!

//! Conversions between strings and sequences of characters.

use vstd::prelude::*;
use vstd::string::StringExecFns;

verus! {

/// Appends one character to a string.
///
/// Trusted: `String::push` extends the string by exactly the given character.
#[verifier::external_body]
pub(crate) fn push_char(s: &mut String, c: char)
    ensures
        final(s)@ == old(s)@.push(c),
{
    s.push(c)
}

/// The characters of `s`, in order.
pub fn chars_of(s: &str) -> (v: Vec<char>)
    ensures
        v@ == s@,
{
    let mut v: Vec<char> = Vec::new();
    for c in it: s.chars()
        invariant
            it.seq() == s@,
            v@ == s@.take(it.index() as int),
    {
        v.push(c);
        assert(s@.take(it.index() + 1) == s@.take(it.index() as int).push(c));
    }
    assert(s@.take(s@.len() as int) == s@);
    v
}

/// The string whose characters are `v[from..to]`.
pub(crate) fn string_of(v: &Vec<char>, from: usize, to: usize) -> (s: String)
    requires
        from <= to <= v.len(),
    ensures
        s@ == v@.subrange(from as int, to as int),
{
    let mut s = String::new();
    let mut i: usize = from;
    while i < to
        invariant
            from <= i <= to <= v.len(),
            s@ == v@.subrange(from as int, i as int),
        decreases to - i,
    {
        push_char(&mut s, v[i]);
        assert(v@.subrange(from as int, i + 1) == v@.subrange(from as int, i as int).push(v@[i as int]));
        i += 1;
    }
    s
}

/// The texts of `parts` with `sep` between each two neighbours.
pub open spec fn joined(parts: Seq<Seq<char>>, sep: Seq<char>) -> Seq<char>
    decreases parts.len(),
{
    if parts.len() == 0 {
        Seq::empty()
    } else if parts.len() == 1 {
        parts[0]
    } else {
        joined(parts.drop_last(), sep) + sep + parts.last()
    }
}

/// The texts of a sequence of strings.
pub open spec fn views_of(strings: Seq<String>) -> Seq<Seq<char>> {
    strings.map_values(|s: String| s@)
}

/// Joins strings with a separator between each two neighbours.
pub fn join_with(parts: &Vec<String>, sep: &str) -> (s: String)
    ensures
        s@ == joined(views_of(parts@), sep@),
{
    let ghost all = views_of(parts@);
    let mut s = String::new();
    let mut i: usize = 0;
    assert(all.take(0).len() == 0);
    while i < parts.len()
        invariant
            i <= parts.len(),
            all == views_of(parts@),
            s@ == joined(all.take(i as int), sep@),
        decreases parts.len() - i,
    {
        let ghost before = s@;
        proof {
            assert(all.take(i + 1).drop_last() == all.take(i as int));
            assert(all.take(i + 1).last() == parts@[i as int]@);
        }
        if i > 0 {
            s.append(sep);
        } else {
            assert(Seq::<char>::empty() + parts@[i as int]@ == parts@[i as int]@);
        }
        s.append(parts[i].as_str());
        i += 1;
    }
    assert(all.take(all.len() as int) == all);
    s
}

/// What `echo` prints: the words with single spaces between them, and a
/// line feed at the end unless it is left out.
pub fn echo(words: &Vec<String>, omit_newline: bool) -> (s: String)
    ensures
        s@ == joined(views_of(words@), " "@) + if omit_newline {
            Seq::empty()
        } else {
            "\n"@
        },
{
    let mut s = join_with(words, " ");
    if !omit_newline {
        s.append("\n");
    } else {
        assert(s@ + Seq::<char>::empty() == s@);
    }
    s
}

/// The index of the first `x` in `s`, or the length of `s` if there is none.
pub open spec fn first_index<T>(s: Seq<T>, x: T) -> int
    decreases s.len(),
{
    if s.len() == 0 || s[0] == x {
        0
    } else {
        1 + first_index(s.skip(1), x)
    }
}

/// `first_index` is the position before which `x` does not occur and at
/// which it does, or the length where it occurs nowhere.
pub proof fn lemma_first_index<T>(s: Seq<T>, x: T, p: int)
    requires
        0 <= p <= s.len(),
        forall|j: int| 0 <= j < p ==> s[j] != x,
        p < s.len() ==> s[p] == x,
    ensures
        first_index(s, x) == p,
    decreases p,
{
    if p > 0 {
        let rest = s.skip(1);
        assert forall|j: int| 0 <= j < p - 1 implies rest[j] != x by {
            assert(rest[j] == s[j + 1]);
        }
        lemma_first_index(rest, x, p - 1);
    }
}

/// The first position at or after `from` and before `to` that holds `c`, or
/// `to` if there is none.
pub(crate) fn find_char(chars: &Vec<char>, from: usize, to: usize, c: char) -> (p: usize)
    requires
        from <= to <= chars.len(),
    ensures
        from <= p <= to,
        p - from == first_index(chars@.subrange(from as int, to as int), c),
{
    let ghost tok = chars@.subrange(from as int, to as int);
    let mut p: usize = from;
    while p < to && chars[p] != c
        invariant
            from <= p <= to <= chars.len(),
            tok == chars@.subrange(from as int, to as int),
            forall|j: int| 0 <= j < p - from ==> tok[j] != c,
        decreases to - p,
    {
        p += 1;
    }
    proof {
        lemma_first_index(tok, c, p - from);
    }
    p
}

/// The first position at or after `from` that holds the byte `b`, or the
/// length of `bytes` if there is none.
pub(crate) fn find_byte(bytes: &[u8], from: usize, b: u8) -> (p: usize)
    requires
        from <= bytes.len(),
    ensures
        from <= p <= bytes.len(),
        p - from == first_index(bytes@.skip(from as int), b),
{
    let ghost rest = bytes@.skip(from as int);
    let mut p: usize = from;
    while p < bytes.len() && bytes[p] != b
        invariant
            from <= p <= bytes.len(),
            rest == bytes@.skip(from as int),
            forall|j: int| 0 <= j < p - from ==> rest[j] != b,
        decreases bytes.len() - p,
    {
        p += 1;
    }
    proof {
        lemma_first_index(rest, b, p - from);
    }
    p
}

/// Whether a file name is `-`, which stands for standard input.
pub fn is_dash(filename: &str) -> (b: bool)
    ensures
        b == (filename@ == "-"@),
{
    let chars = chars_of(filename);
    proof {
        reveal_strlit("-");
        if chars@.len() == 1 && chars@[0] == '-' {
            assert(filename@ =~= "-"@);
        }
    }
    chars.len() == 1 && chars[0] == '-'
}

} // verus!

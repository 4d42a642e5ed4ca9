//! The three extraction units: characters, bytes and fields.

use crate::lossy::{decode_runs, lossy_text};
use crate::select::{lemma_select_push, lemma_select_tiles, pick, select, select_items, tiles};
use crate::text::{chars_of, string_of};
use std::ops::Range;
use vstd::prelude::*;
use vstd::string::StringSliceAdditionalSpecFns;
use vstd::utf8::{decode_utf8, encode_utf8_decode_utf8, encode_utf8_valid_utf8, valid_utf8};

verus! {

/// A tokenized record of the `csv` crate, `csv::StringRecord`. Nothing is
/// known of its inside but the fields that it holds.
#[verifier::external_type_specification]
#[verifier::external_body]
pub struct ExStringRecord(csv::StringRecord);

/// The fields that a tokenized record holds, in order.
pub uninterp spec fn record_fields(record: csv::StringRecord) -> Seq<Seq<char>>;

/// Trusted: `StringRecord::len` is the number of fields of the record.
pub assume_specification[ csv::StringRecord::len ](record: &csv::StringRecord) -> (n: usize)
    ensures
        n == record_fields(*record).len(),
;

/// Trusted: `StringRecord::get` returns the field at index `i`, and `None`
/// exactly when the record has no such field.
pub assume_specification[ csv::StringRecord::get ](record: &csv::StringRecord, i: usize) -> (field:
    Option<&str>)
    ensures
        i < record_fields(*record).len() ==> field is Some && field.unwrap()@ == record_fields(
            *record,
        )[i as int],
        i >= record_fields(*record).len() ==> field is None,
;

/// The texts of a sequence of string slices.
pub open spec fn texts(fields: Seq<&str>) -> Seq<Seq<char>> {
    fields.map_values(|s: &str| s@)
}

/// Selects characters: the codepoints of `line` that `char_pos` covers, in
/// list order. Positions beyond the end of the line select nothing.
pub fn extract_chars(line: &str, char_pos: &[Range<usize>]) -> (out: String)
    ensures
        out@ == select(line@, char_pos@),
        tiles(char_pos@, line@.len() as int) ==> out@ == line@,
{
    let chars = chars_of(line);
    let picked = select_items(chars.as_slice(), char_pos);
    proof {
        if tiles(char_pos@, line@.len() as int) {
            lemma_select_tiles(line@, char_pos@);
        }
    }
    let out = string_of(&picked, 0, picked.len());
    assert(picked@.subrange(0, picked@.len() as int) == picked@);
    out
}

/// Selects bytes: the bytes of `line` that `byte_pos` covers, in list order,
/// decoded lossily. A selection that splits a codepoint is not an error:
/// each maximal run of selected bytes that belong to no well-formed scalar
/// becomes one replacement character.
pub fn extract_bytes(line: &str, byte_pos: &[Range<usize>]) -> (out: String)
    ensures
        out@ == lossy_text(select(line.spec_bytes(), byte_pos@)),
        valid_utf8(select(line.spec_bytes(), byte_pos@)) ==> out@ == decode_utf8(
            select(line.spec_bytes(), byte_pos@),
        ),
        tiles(byte_pos@, line.spec_bytes().len() as int) ==> out@ == line@,
{
    let bytes = line.as_bytes();
    let picked = select_items(bytes, byte_pos);
    proof {
        if tiles(byte_pos@, line.spec_bytes().len() as int) {
            lemma_select_tiles(line.spec_bytes(), byte_pos@);
            encode_utf8_valid_utf8(line@);
            encode_utf8_decode_utf8(line@);
        }
    }
    decode_runs(picked.as_slice())
}

/// Selects fields: the fields of `record` that `field_pos` covers, in list
/// order. The record is neither tokenized nor written out here.
pub fn extract_fields<'a>(record: &'a csv::StringRecord, field_pos: &[Range<usize>]) -> (out: Vec<
    &'a str,
>)
    ensures
        texts(out@) == select(record_fields(*record), field_pos@),
        tiles(field_pos@, record_fields(*record).len() as int) ==> texts(out@) == record_fields(
            *record,
        ),
{
    let ghost unit = record_fields(*record);
    let len: usize = record.len();
    let mut out: Vec<&'a str> = Vec::new();
    let mut k: usize = 0;
    assert(texts(out@) == Seq::<Seq<char>>::empty());
    while k < field_pos.len()
        invariant
            k <= field_pos.len(),
            unit == record_fields(*record),
            len == unit.len(),
            texts(out@) == select(unit, field_pos@.take(k as int)),
        decreases field_pos.len() - k,
    {
        let start: usize = field_pos[k].start;
        let stop: usize = if field_pos[k].end <= len {
            field_pos[k].end
        } else {
            len
        };
        let ghost before = texts(out@);
        let ghost r = field_pos@[k as int];
        if start < stop {
            let mut i: usize = start;
            assert(unit.subrange(start as int, i as int) == Seq::<Seq<char>>::empty());
            while i < stop
                invariant
                    start <= i <= stop <= len,
                    unit == record_fields(*record),
                    len == unit.len(),
                    texts(out@) == before + unit.subrange(start as int, i as int),
                decreases stop - i,
            {
                let ghost prev = out@;
                if let Some(field) = record.get(i) {
                    out.push(field);
                    assert(texts(prev.push(field)) == texts(prev).push(field@));
                }
                assert(unit.subrange(start as int, i + 1) == unit.subrange(
                    start as int,
                    i as int,
                ).push(unit[i as int]));
                i += 1;
            }
        }
        proof {
            assert(field_pos@.take(k + 1) == field_pos@.take(k as int).push(r));
            lemma_select_push(unit, field_pos@.take(k as int), r);
            assert(texts(out@) == before + pick(unit, r.start as int, r.end as int));
        }
        k += 1;
    }
    proof {
        assert(field_pos@.take(field_pos@.len() as int) == field_pos@);
        if tiles(field_pos@, unit.len() as int) {
            lemma_select_tiles(unit, field_pos@);
        }
    }
    out
}

} // verus!

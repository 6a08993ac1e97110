//! Lines of fields: the shape that both wire protocols share. A line is a
//! run of fields with a separator between each two; a line without a
//! separator is one field, which may be empty.

use crate::decimal::{
    decimal_i64, decimal_text, is_digit, lemma_decimal_round_trip, lemma_digits_of,
    lemma_padded_digits, parse_decimal, pow10, MAX_FRACTION_DIGITS,
};
use vstd::prelude::*;
use vstd::slice::slice_subrange;

verus! {

/// The byte between two fields of a line (a semicolon).
pub const SEPARATOR: u8 = 59;

/// The byte that ends a line.
pub const NEWLINE: u8 = 10;

/// Length of the first field of `s`: the bytes before the first separator,
/// or all of `s` where it holds none.
pub open spec fn field_len(s: Seq<u8>) -> nat
    decreases s.len(),
{
    if s.len() > 0 && s[0] != 59 {
        1 + field_len(s.skip(1))
    } else {
        0
    }
}

/// The numbers that the fields of `s` denote, each read with at most `k`
/// fraction digits, if every field is such a number that fits 64 bits.
pub open spec fn decimal_fields(s: Seq<u8>, k: nat) -> Option<Seq<i64>>
    decreases s.len(),
{
    let n = field_len(s) as int;
    match decimal_i64(s.subrange(0, n), k) {
        None => None,
        Some(v) => if n >= s.len() {
            Some(seq![v])
        } else {
            match decimal_fields(s.skip(n + 1), k) {
                None => None,
                Some(rest) => Some(seq![v] + rest),
            }
        },
    }
}

/// Where the first `n` bytes of `s` hold no separator and the next one, if
/// there is one, is a separator, the first field has length `n`.
pub proof fn lemma_field_len(s: Seq<u8>, n: int)
    requires
        0 <= n <= s.len(),
        forall|i: int| 0 <= i < n ==> s[i] != 59,
        n < s.len() ==> s[n] == 59,
    ensures
        field_len(s) == n,
    decreases n,
{
    if n > 0 {
        lemma_field_len(s.skip(1), n - 1);
    }
}

/// Index just behind the field that starts at `from`: that of the next
/// separator, or the length of the line.
pub fn field_end(line: &[u8], from: usize) -> (end: usize)
    requires
        from <= line@.len(),
    ensures
        from <= end <= line@.len(),
        end == from + field_len(line@.skip(from as int)),
{
    let len: usize = line.len();
    let mut end: usize = from;
    while end < len && line[end] != SEPARATOR
        invariant
            from <= end <= len,
            len == line@.len(),
            forall|i: int| from <= i < end ==> line@[i] != 59,
        decreases len - end,
    {
        end = end + 1;
    }
    proof {
        lemma_field_len(line@.skip(from as int), end - from);
    }
    end
}

/// Whether two byte strings are the same.
pub fn bytes_equal(a: &[u8], b: &[u8]) -> (same: bool)
    ensures
        same == (a@ == b@),
{
    if a.len() != b.len() {
        return false;
    }
    let len: usize = a.len();
    let mut i: usize = 0;
    while i < len
        invariant
            i <= len,
            len == a@.len(),
            len == b@.len(),
            forall|j: int| 0 <= j < i ==> a@[j] == b@[j],
        decreases len - i,
    {
        if a[i] != b[i] {
            return false;
        }
        i = i + 1;
    }
    proof {
        assert(a@ =~= b@);
    }
    true
}

/// Appends `bytes` to `out`.
pub fn push_bytes(out: &mut Vec<u8>, bytes: &[u8])
    ensures
        final(out)@ == old(out)@ + bytes@,
{
    let len: usize = bytes.len();
    let mut i: usize = 0;
    while i < len
        invariant
            i <= len,
            len == bytes@.len(),
            out@ == old(out)@ + bytes@.subrange(0, i as int),
        decreases len - i,
    {
        out.push(bytes[i]);
        i = i + 1;
        proof {
            assert(out@ =~= old(out)@ + bytes@.subrange(0, i as int));
        }
    }
    proof {
        assert(bytes@.subrange(0, len as int) =~= bytes@);
    }
}

/// Reads the fields of `line` from index `from` on as decimal numbers with
/// at most `frac_digits` fraction digits each.
pub fn parse_decimal_fields(line: &[u8], from: usize, frac_digits: u8) -> (r: Option<Vec<i64>>)
    requires
        from <= line@.len(),
        frac_digits <= MAX_FRACTION_DIGITS,
    ensures
        match r {
            Some(values) => decimal_fields(line@.skip(from as int), frac_digits as nat) == Some(
                values@,
            ),
            None => decimal_fields(line@.skip(from as int), frac_digits as nat).is_none(),
        },
{
    let len: usize = line.len();
    let ghost k: nat = frac_digits as nat;
    let ghost whole: Option<Seq<i64>> = decimal_fields(line@.skip(from as int), k);
    let mut values: Vec<i64> = Vec::new();
    let mut pos: usize = from;
    let mut more: bool = true;
    proof {
        match whole {
            Some(w) => {
                assert(Seq::<i64>::empty() + w =~= w);
            },
            None => {},
        }
    }
    while more
        invariant
            from <= pos <= len,
            len == line@.len(),
            k == frac_digits,
            frac_digits <= MAX_FRACTION_DIGITS,
            whole == decimal_fields(line@.skip(from as int), k),
            more ==> match decimal_fields(line@.skip(pos as int), k) {
                Some(rest) => whole == Some(values@ + rest),
                None => whole.is_none(),
            },
            !more ==> whole == Some(values@),
        decreases (len - pos) + (if more {
            1int
        } else {
            0int
        }),
    {
        let end: usize = field_end(line, pos);
        let field: &[u8] = slice_subrange(line, pos, end);
        let ghost tail: Seq<u8> = line@.skip(pos as int);
        let ghost before: Seq<i64> = values@;
        proof {
            assert(tail.subrange(0, end - pos) =~= line@.subrange(pos as int, end as int));
            if end < len {
                assert(tail.skip(end - pos + 1) =~= line@.skip(end + 1));
            }
        }
        match parse_decimal(field, frac_digits) {
            None => {
                return None;
            },
            Some(v) => {
                values.push(v);
                proof {
                    if end == len {
                        assert(before + seq![v] =~= values@);
                    } else {
                        match decimal_fields(line@.skip(end + 1), k) {
                            Some(rest) => {
                                assert(before + (seq![v] + rest) =~= values@ + rest);
                            },
                            None => {},
                        }
                    }
                }
            },
        }
        if end == len {
            more = false;
        } else {
            pos = end + 1;
        }
    }
    Some(values)
}

/// The canonical text of a number holds digits, a minus sign and a point,
/// and so neither a separator nor a line end.
pub proof fn lemma_decimal_text_plain(v: int, k: nat)
    ensures
        forall|i: int|
            0 <= i < decimal_text(v, k).len() ==> {
                let b = #[trigger] decimal_text(v, k)[i];
                is_digit(b) || b == 45 || b == 46
            },
{
    let m = (if v < 0 {
        -v
    } else {
        v
    }) as nat;
    if k == 0 {
        lemma_digits_of(m);
    } else {
        lemma_digits_of(m / pow10(k));
        lemma_padded_digits(m % pow10(k), k);
    }
}

/// A line that is the canonical text of one number reads as that number.
pub proof fn lemma_fields_of_one(v: i64, k: nat)
    ensures
        decimal_fields(decimal_text(v as int, k), k) == Some(seq![v]),
{
    let text = decimal_text(v as int, k);
    lemma_decimal_text_plain(v as int, k);
    lemma_field_len(text, text.len() as int);
    lemma_decimal_round_trip(v as int, k);
    assert(text.subrange(0, text.len() as int) =~= text);
}

/// A line that starts with the canonical text of a number and a separator
/// reads as that number followed by what the rest of the line reads as.
pub proof fn lemma_fields_of_first(v: i64, k: nat, rest: Seq<u8>)
    ensures
        decimal_fields(decimal_text(v as int, k) + seq![59u8] + rest, k) == match decimal_fields(
            rest,
            k,
        ) {
            Some(values) => Some(seq![v] + values),
            None => None,
        },
{
    let text = decimal_text(v as int, k);
    let line = text + seq![59u8] + rest;
    let n = text.len() as int;
    lemma_decimal_text_plain(v as int, k);
    assert forall|i: int| 0 <= i < n implies line[i] != 59 by {
        assert(line[i] == text[i]);
    }
    assert(line[n] == 59);
    lemma_field_len(line, n);
    lemma_decimal_round_trip(v as int, k);
    assert(line.subrange(0, n) =~= text);
    assert(line.skip(n + 1) =~= rest);
}

} // verus!

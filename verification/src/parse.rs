//! Parsing of small plain values handed over by the host shell.

use vstd::prelude::*;
use vstd::utf8::encode_utf8;

verus! {

/// An ASCII decimal digit byte.
pub open spec fn spec_is_digit(b: u8) -> bool {
    48 <= b <= 57
}

/// The value of a sequence of ASCII decimal digit bytes, most significant
/// first.
pub open spec fn spec_digits_value(ds: Seq<u8>) -> int
    decreases ds.len(),
{
    if ds.len() == 0 {
        0
    } else {
        spec_digits_value(ds.drop_last()) * 10 + (ds.last() - 48)
    }
}

/// The digit part of a numeral: everything after one optional leading `+`.
pub open spec fn spec_numeral_digits(bytes: Seq<u8>) -> Seq<u8> {
    if bytes.len() > 0 && bytes[0] == 43 {
        bytes.drop_first()
    } else {
        bytes
    }
}

/// Whether a byte string is a `u16` numeral: an optional leading `+`, then
/// at least one ASCII digit, and a value of at most `u16::MAX`.
pub open spec fn valid_u16_numeral(bytes: Seq<u8>) -> bool {
    let ds = spec_numeral_digits(bytes);
    &&& ds.len() > 0
    &&& forall|i: int| 0 <= i < ds.len() ==> spec_is_digit(#[trigger] ds[i])
    &&& spec_digits_value(ds) <= u16::MAX
}

/// The value of a digit string is never negative.
proof fn lemma_digits_value_nonneg(ds: Seq<u8>)
    requires
        forall|i: int| 0 <= i < ds.len() ==> spec_is_digit(#[trigger] ds[i]),
    ensures
        spec_digits_value(ds) >= 0,
    decreases ds.len(),
{
    if ds.len() > 0 {
        lemma_digits_value_nonneg(ds.drop_last());
    }
}

/// Appending digits never shrinks the value, so a prefix that already
/// exceeds `u16::MAX` condemns the whole numeral.
proof fn lemma_digits_value_monotone(ds: Seq<u8>, i: int)
    requires
        forall|j: int| 0 <= j < ds.len() ==> spec_is_digit(#[trigger] ds[j]),
        0 <= i <= ds.len(),
    ensures
        spec_digits_value(ds.subrange(0, i)) <= spec_digits_value(ds),
    decreases ds.len() - i,
{
    if i == ds.len() {
        assert(ds.subrange(0, i) =~= ds);
    } else {
        lemma_digits_value_monotone(ds, i + 1);
        let pre = ds.subrange(0, i);
        let pre1 = ds.subrange(0, i + 1);
        assert(pre1.drop_last() =~= pre);
        lemma_digits_value_nonneg(pre);
    }
}

/// A numeral with a non-digit among its digit bytes is invalid.
proof fn lemma_numeral_invalid_digit(all: Seq<u8>, j: int)
    requires
        0 <= j < spec_numeral_digits(all).len(),
        !spec_is_digit(spec_numeral_digits(all)[j]),
    ensures
        !valid_u16_numeral(all),
{
}

/// A numeral whose digit prefix already exceeds `u16::MAX` is invalid.
proof fn lemma_numeral_prefix_overflow(all: Seq<u8>, j: int)
    requires
        0 <= j <= spec_numeral_digits(all).len(),
        spec_digits_value(spec_numeral_digits(all).subrange(0, j)) > u16::MAX,
    ensures
        !valid_u16_numeral(all),
{
    if valid_u16_numeral(all) {
        lemma_digits_value_monotone(spec_numeral_digits(all), j);
    }
}

/// Parses a string as a `u16` decimal numeral, as handed over by the host
/// shell: an optional leading `+`, then decimal digits. Rejects an empty
/// digit string, any other character, and values above `u16::MAX`.
pub fn parse_u16(number: String) -> (res: Result<u16, String>)
    ensures
        res matches Ok(v) ==> valid_u16_numeral(encode_utf8(number@)) && v as int
            == spec_digits_value(spec_numeral_digits(encode_utf8(number@))),
        res is Err <==> !valid_u16_numeral(encode_utf8(number@)),
{
    let bytes = number.as_str().as_bytes();
    let ghost all = encode_utf8(number@);
    let ghost ds = spec_numeral_digits(all);

    let start: usize = if bytes.len() > 0 && bytes[0] == 43 {
        1
    } else {
        0
    };
    proof {
        assert(ds =~= all.subrange(start as int, all.len() as int));
    }
    if start == bytes.len() {
        return Err("failed to parse string: no digits".to_owned());
    }

    let mut value: u32 = 0;
    let mut i: usize = start;
    while i < bytes.len()
        invariant
            bytes@ == all,
            all == encode_utf8(number@),
            ds == spec_numeral_digits(all),
            ds == all.subrange(start as int, all.len() as int),
            start <= i <= all.len(),
            value <= u16::MAX,
            forall|j: int| 0 <= j < i - start ==> spec_is_digit(#[trigger] ds[j]),
            value as int == spec_digits_value(ds.subrange(0, i - start)),
        decreases all.len() - i,
    {
        let b = bytes[i];
        proof {
            assert(ds.subrange(0, i + 1 - start).drop_last() =~= ds.subrange(0, i - start));
        }
        if b < 48 || b > 57 {
            proof {
                assert(ds[i - start] == all[i as int]);
                lemma_numeral_invalid_digit(all, i - start);
            }
            return Err("failed to parse string: not a digit".to_owned());
        }
        value = value * 10 + ((b - 48) as u32);
        if value > u16::MAX as u32 {
            proof {
                lemma_numeral_prefix_overflow(all, i + 1 - start);
            }
            return Err("failed to parse string: out of range".to_owned());
        }
        i += 1;
    }
    proof {
        assert(ds.subrange(0, i - start) =~= ds);
    }
    Ok(value as u16)
}

} // verus!

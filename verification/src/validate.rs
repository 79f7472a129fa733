//! Checking a byte slice for well-formed UTF-8 and locating the first ill-formed
//! sequence.
use crate::encoding::{
    error_len_of, lemma_scalar_by_ranges, lemma_valid_up_to_at, lemma_valid_up_to_splits, second_fits,
    valid_up_to, width_of,
};
use vstd::prelude::*;
use vstd::utf8::*;

verus! {

/// Where and how a byte sequence stops being UTF-8.
#[derive(Clone, Copy, Debug, PartialEq, Eq)]
pub struct Utf8Error {
    /// The length of the longest well-formed prefix: the offset of the first byte
    /// that breaks the encoding.
    pub valid_up_to: usize,
    /// The number of bytes of the ill-formed sequence at that offset, or `None`
    /// where the input ends inside a scalar.
    pub error_len: Option<u8>,
}

/// What a check of `bytes` finds: nothing, or the first ill-formed sequence.
pub open spec fn check(bytes: Seq<u8>) -> Result<(), Utf8Error> {
    if valid_utf8(bytes) {
        Ok(())
    } else {
        Err(
            Utf8Error {
                valid_up_to: valid_up_to(bytes) as usize,
                error_len: error_len_of(
                    bytes.subrange(valid_up_to(bytes) as int, bytes.len() as int),
                ),
            },
        )
    }
}

fn leading_width(first: u8) -> (width: usize)
    ensures
        width == width_of(first),
{
    if first <= 0x7f {
        1
    } else if 0xc2 <= first && first <= 0xdf {
        2
    } else if 0xe0 <= first && first <= 0xef {
        3
    } else if 0xf0 <= first && first <= 0xf4 {
        4
    } else {
        0
    }
}

fn follows(first: u8, second: u8) -> (fits: bool)
    ensures
        fits == second_fits(first, second),
{
    if first == 0xe0 {
        0xa0 <= second && second <= 0xbf
    } else if first == 0xed {
        0x80 <= second && second <= 0x9f
    } else if first == 0xf0 {
        0x90 <= second && second <= 0xbf
    } else if first == 0xf4 {
        0x80 <= second && second <= 0x8f
    } else {
        0x80 <= second && second <= 0xbf
    }
}

fn continues(byte: u8) -> (fits: bool)
    ensures
        fits == is_continuation_byte(byte),
{
    0x80 <= byte && byte <= 0xbf
}

/// Reads the scalar that starts at `at`: its width in bytes, or the extent of the
/// ill-formed sequence found there.
fn scalar_at(bytes: &[u8], at: usize) -> (found: Result<usize, Option<u8>>)
    requires
        at < bytes@.len(),
    ensures
        match found {
            Ok(width) => {
                &&& valid_first_scalar(bytes@.subrange(at as int, bytes@.len() as int))
                &&& width == length_of_first_scalar(
                    bytes@.subrange(at as int, bytes@.len() as int),
                )
                &&& 1 <= width <= bytes@.len() - at
            },
            Err(extent) => {
                &&& !valid_first_scalar(bytes@.subrange(at as int, bytes@.len() as int))
                &&& extent == error_len_of(bytes@.subrange(at as int, bytes@.len() as int))
            },
        },
{
    let ghost rest = bytes@.subrange(at as int, bytes@.len() as int);
    proof {
        lemma_scalar_by_ranges(rest);
    }
    let left: usize = bytes.len() - at;
    let first: u8 = bytes[at];
    assert(first == rest[0]);
    let width: usize = leading_width(first);
    if width < 2 {
        return if width == 1 {
            Ok(1)
        } else {
            Err(Some(1u8))
        };
    }
    if left < 2 {
        return Err(None);
    }
    assert(bytes@[at + 1] == rest[1]);
    if !follows(first, bytes[at + 1]) {
        return Err(Some(1u8));
    }
    if width < 3 {
        return Ok(2);
    }
    if left < 3 {
        return Err(None);
    }
    assert(bytes@[at + 2] == rest[2]);
    if !continues(bytes[at + 2]) {
        return Err(Some(2u8));
    }
    if width < 4 {
        return Ok(3);
    }
    if left < 4 {
        return Err(None);
    }
    assert(bytes@[at + 3] == rest[3]);
    if !continues(bytes[at + 3]) {
        return Err(Some(3u8));
    }
    Ok(4)
}

/// Checks that `bytes` is well-formed UTF-8. Where it is not, the error gives the
/// length of the longest well-formed prefix and the extent of the ill-formed
/// sequence behind it.
pub fn validate(bytes: &[u8]) -> (checked: Result<(), Utf8Error>)
    ensures
        checked == check(bytes@),
{
    let n: usize = bytes.len();
    let mut at: usize = 0;
    proof {
        assert(bytes@.subrange(0, 0) =~= Seq::<u8>::empty());
    }
    while at < n
        invariant
            at <= n,
            n == bytes@.len(),
            valid_utf8(bytes@.subrange(0, at as int)),
        decreases n - at,
    {
        match scalar_at(bytes, at) {
            Ok(width) => {
                proof {
                    partial_valid_utf8_extend(bytes@, at as int);
                }
                at = at + width;
            },
            Err(extent) => {
                proof {
                    lemma_valid_up_to_at(bytes@, at as int);
                    lemma_valid_up_to_splits(bytes@);
                }
                return Err(Utf8Error { valid_up_to: at, error_len: extent });
            },
        }
    }
    proof {
        assert(bytes@.subrange(0, n as int) =~= bytes@);
    }
    Ok(())
}

} // verus!

//! The shape of well-formed UTF-8, byte range by byte range, and the longest
//! well-formed prefix of an arbitrary byte sequence.
use vstd::prelude::*;
use vstd::utf8::*;

verus! {

/// The number of bytes of a scalar whose encoding starts with `first`, and 0 where
/// no well-formed encoding starts with that byte.
pub open spec fn width_of(first: u8) -> int {
    if first <= 0x7f {
        1
    } else if 0xc2 <= first <= 0xdf {
        2
    } else if 0xe0 <= first <= 0xef {
        3
    } else if 0xf0 <= first <= 0xf4 {
        4
    } else {
        0
    }
}

/// Whether `second` may follow the leading byte `first` of a scalar of two or more
/// bytes. The narrowed ranges keep out overlong forms, surrogates and scalars
/// above U+10FFFF.
pub open spec fn second_fits(first: u8, second: u8) -> bool {
    if first == 0xe0 {
        0xa0 <= second <= 0xbf
    } else if first == 0xed {
        0x80 <= second <= 0x9f
    } else if first == 0xf0 {
        0x90 <= second <= 0xbf
    } else if first == 0xf4 {
        0x80 <= second <= 0x8f
    } else {
        0x80 <= second <= 0xbf
    }
}

/// Whether `bytes` starts with one well-formed scalar, said over byte ranges alone.
pub open spec fn starts_with_scalar(bytes: Seq<u8>) -> bool {
    &&& bytes.len() >= 1
    &&& width_of(bytes[0]) >= 1
    &&& bytes.len() >= width_of(bytes[0])
    &&& (width_of(bytes[0]) >= 2 ==> second_fits(bytes[0], bytes[1]))
    &&& (width_of(bytes[0]) >= 3 ==> is_continuation_byte(bytes[2]))
    &&& (width_of(bytes[0]) >= 4 ==> is_continuation_byte(bytes[3]))
}

proof fn lemma_two_byte_ranges(b0: u8, b1: u8)
    by (bit_vector)
    requires
        0xc0 <= b0 <= 0xdf,
        0x80 <= b1 <= 0xbf,
    ensures
        0x80 <= ((((b0 & 0x1f) as u32) << 6) | ((b1 & 0x3f) as u32)) <==> 0xc2 <= b0,
        ((((b0 & 0x1f) as u32) << 6) | ((b1 & 0x3f) as u32)) < 0xd800,
{
}

proof fn lemma_three_byte_ranges(b0: u8, b1: u8, b2: u8)
    by (bit_vector)
    requires
        0xe0 <= b0 <= 0xef,
        0x80 <= b1 <= 0xbf,
        0x80 <= b2 <= 0xbf,
    ensures
        0x800 <= ((((b0 & 0x0f) as u32) << 12) | (((b1 & 0x3f) as u32) << 6) | ((b2 & 0x3f) as u32))
            <==> (b0 != 0xe0 || 0xa0 <= b1),
        (0xd800 <= ((((b0 & 0x0f) as u32) << 12) | (((b1 & 0x3f) as u32) << 6) | ((b2
            & 0x3f) as u32)) && ((((b0 & 0x0f) as u32) << 12) | (((b1 & 0x3f) as u32) << 6) | ((b2
            & 0x3f) as u32)) <= 0xdfff) <==> (b0 == 0xed && 0xa0 <= b1),
{
}

proof fn lemma_four_byte_ranges(b0: u8, b1: u8, b2: u8, b3: u8)
    by (bit_vector)
    requires
        0xf0 <= b0 <= 0xf7,
        0x80 <= b1 <= 0xbf,
        0x80 <= b2 <= 0xbf,
        0x80 <= b3 <= 0xbf,
    ensures
        0x10000 <= ((((b0 & 0x07) as u32) << 18) | (((b1 & 0x3f) as u32) << 12) | (((b2
            & 0x3f) as u32) << 6) | ((b3 & 0x3f) as u32)) <==> (b0 != 0xf0 || 0x90 <= b1),
        ((((b0 & 0x07) as u32) << 18) | (((b1 & 0x3f) as u32) << 12) | (((b2 & 0x3f) as u32) << 6)
            | ((b3 & 0x3f) as u32)) <= 0x10ffff <==> (b0 < 0xf4 || (b0 == 0xf4 && b1 <= 0x8f)),
{
}

proof fn lemma_one_byte_range(b0: u8)
    by (bit_vector)
    requires
        b0 <= 0x7f,
    ensures
        ((b0 & 0x7f) as u32) < 0xd800,
{
}

/// The byte ranges say exactly what the bit-level definition says: a sequence starts
/// with a well-formed scalar just when its leading byte and what follows it lie in
/// the ranges above, and the scalar then takes `width_of` its leading byte.
pub proof fn lemma_scalar_by_ranges(bytes: Seq<u8>)
    ensures
        valid_first_scalar(bytes) <==> starts_with_scalar(bytes),
        valid_first_scalar(bytes) ==> length_of_first_scalar(bytes) == width_of(bytes[0]),
{
    if bytes.len() >= 1 {
        let b0 = bytes[0];
        if is_leading_byte_width_1(b0) {
            lemma_one_byte_range(b0);
        } else if is_leading_byte_width_2(b0) {
            if bytes.len() >= 2 && is_continuation_byte(bytes[1]) {
                lemma_two_byte_ranges(b0, bytes[1]);
            }
        } else if is_leading_byte_width_3(b0) {
            if bytes.len() >= 3 && is_continuation_byte(bytes[1]) && is_continuation_byte(
                bytes[2],
            ) {
                lemma_three_byte_ranges(b0, bytes[1], bytes[2]);
            }
        } else if is_leading_byte_width_4(b0) {
            if bytes.len() >= 4 && is_continuation_byte(bytes[1]) && is_continuation_byte(bytes[2])
                && is_continuation_byte(bytes[3]) {
                lemma_four_byte_ranges(b0, bytes[1], bytes[2], bytes[3]);
            }
        }
    }
}

/// The length of the longest prefix of `bytes` that is well-formed UTF-8: scalars are
/// taken from the front for as long as one is there.
pub open spec fn valid_up_to(bytes: Seq<u8>) -> nat
    decreases bytes.len(),
{
    if bytes.len() > 0 && valid_first_scalar(bytes) {
        length_of_first_scalar(bytes) as nat + valid_up_to(pop_first_scalar(bytes))
    } else {
        0
    }
}

/// The extent of the ill-formed sequence at the front of `rest`: the number of bytes
/// that still belong to the start of some scalar before the byte that cannot follow
/// them, at least 1. `None` where `rest` ends inside a scalar that could still be
/// completed.
pub open spec fn error_len_of(rest: Seq<u8>) -> Option<u8>
    recommends
        rest.len() > 0,
        !valid_first_scalar(rest),
{
    let width = width_of(rest[0]);
    if width < 2 {
        Some(1u8)
    } else if rest.len() < 2 {
        None
    } else if !second_fits(rest[0], rest[1]) || width < 3 {
        Some(1u8)
    } else if rest.len() < 3 {
        None
    } else if !is_continuation_byte(rest[2]) || width < 4 {
        Some(2u8)
    } else if rest.len() < 4 {
        None
    } else {
        Some(3u8)
    }
}

/// What the extent of an ill-formed sequence says. `None` stands exactly where the
/// bytes that are left are the beginning of some well-formed scalar, too short by
/// one to three bytes. Otherwise a byte among those left rules every scalar out,
/// and the extent counts the one to three bytes before it.
pub proof fn lemma_error_len_meaning(rest: Seq<u8>)
    requires
        rest.len() > 0,
        !valid_first_scalar(rest),
    ensures
        error_len_of(rest) is None <==> exists|more: Seq<u8>| valid_first_scalar(rest + more),
        error_len_of(rest) is None ==> rest.len() < width_of(rest[0]),
        error_len_of(rest) matches Some(extent) ==> 1 <= extent <= 3 && extent <= rest.len(),
{
    lemma_scalar_by_ranges(rest);
    if error_len_of(rest) is None {
        let second: u8 = if rest[0] == 0xe0 {
            0xa0
        } else if rest[0] == 0xf0 {
            0x90
        } else {
            0x80
        };
        let more: Seq<u8> = if rest.len() == 1 {
            seq![second, 0x80u8, 0x80u8]
        } else {
            seq![0x80u8, 0x80u8]
        };
        lemma_scalar_by_ranges(rest + more);
        assert(valid_first_scalar(rest + more));
    } else {
        assert forall|more: Seq<u8>| !valid_first_scalar(rest + more) by {
            lemma_scalar_by_ranges(rest + more);
        }
    }
}

/// `count` zero bytes.
pub open spec fn zeros(count: nat) -> Seq<u8> {
    Seq::new(count, |i: int| 0u8)
}

/// `bytes` with everything from `from` on replaced by zero bytes.
pub open spec fn zeroed_from(bytes: Seq<u8>, from: int) -> Seq<u8>
    recommends
        0 <= from <= bytes.len(),
{
    bytes.subrange(0, from) + zeros((bytes.len() - from) as nat)
}

/// A scalar at the front of `head` is the scalar at the front of `head + tail`.
proof fn lemma_first_scalar_of_concat(head: Seq<u8>, tail: Seq<u8>)
    requires
        valid_first_scalar(head),
    ensures
        valid_first_scalar(head + tail),
        length_of_first_scalar(head + tail) == length_of_first_scalar(head),
        pop_first_scalar(head + tail) =~= pop_first_scalar(head) + tail,
{
    let whole = head + tail;
    assert(forall|i: int| 0 <= i < head.len() ==> whole[i] == head[i]);
}

/// A scalar at the front of `whole` that ends within the first `cut` bytes is the
/// scalar at the front of that prefix.
proof fn lemma_first_scalar_of_prefix(whole: Seq<u8>, cut: int)
    requires
        valid_first_scalar(whole),
        length_of_first_scalar(whole) <= cut <= whole.len(),
    ensures
        valid_first_scalar(whole.subrange(0, cut)),
        length_of_first_scalar(whole.subrange(0, cut)) == length_of_first_scalar(whole),
        pop_first_scalar(whole.subrange(0, cut)) =~= pop_first_scalar(whole).subrange(
            0,
            cut - length_of_first_scalar(whole),
        ),
{
    let part = whole.subrange(0, cut);
    assert(forall|i: int| 0 <= i < cut ==> part[i] == whole[i]);
}

/// The first `valid_up_to` bytes are well-formed, all of `bytes` is well-formed just
/// when that is its whole length, and otherwise no scalar starts where the prefix
/// ends.
pub proof fn lemma_valid_up_to_splits(bytes: Seq<u8>)
    ensures
        valid_up_to(bytes) <= bytes.len(),
        valid_utf8(bytes.subrange(0, valid_up_to(bytes) as int)),
        valid_utf8(bytes) <==> valid_up_to(bytes) == bytes.len(),
        valid_up_to(bytes) < bytes.len() ==> !valid_first_scalar(
            bytes.subrange(valid_up_to(bytes) as int, bytes.len() as int),
        ),
    decreases bytes.len(),
{
    if bytes.len() > 0 && valid_first_scalar(bytes) {
        let width = length_of_first_scalar(bytes);
        let rest = pop_first_scalar(bytes);
        lemma_valid_up_to_splits(rest);
        let k = valid_up_to(rest) as int;
        lemma_first_scalar_of_prefix(bytes, width + k);
        assert(rest.subrange(0, k) =~= pop_first_scalar(bytes.subrange(0, width + k)));
        assert(rest.subrange(k, rest.len() as int) =~= bytes.subrange(
            width + k,
            bytes.len() as int,
        ));
    } else {
        assert(bytes.subrange(0, 0) =~= Seq::<u8>::empty());
        assert(bytes.subrange(0, bytes.len() as int) =~= bytes);
    }
}

/// No prefix longer than `valid_up_to` is well-formed, so `valid_up_to` is the
/// greatest length of a well-formed prefix.
pub proof fn lemma_valid_up_to_is_longest(bytes: Seq<u8>, longer: int)
    requires
        valid_up_to(bytes) < longer <= bytes.len(),
    ensures
        !valid_utf8(bytes.subrange(0, longer)),
    decreases bytes.len(),
{
    let part = bytes.subrange(0, longer);
    if valid_utf8(part) {
        assert(valid_first_scalar(part));
        lemma_first_scalar_of_concat(part, bytes.subrange(longer, bytes.len() as int));
        assert(part + bytes.subrange(longer, bytes.len() as int) =~= bytes);
        let width = length_of_first_scalar(bytes);
        let rest = pop_first_scalar(bytes);
        assert(pop_first_scalar(part) =~= rest.subrange(0, longer - width));
        lemma_valid_up_to_splits(rest);
        if valid_up_to(rest) < longer - width {
            lemma_valid_up_to_is_longest(rest, longer - width);
        }
    }
}

/// Where the first `at` bytes are well-formed and no scalar starts at `at`, the
/// longest well-formed prefix has length `at`.
pub proof fn lemma_valid_up_to_at(bytes: Seq<u8>, at: int)
    requires
        0 <= at <= bytes.len(),
        valid_utf8(bytes.subrange(0, at)),
        at < bytes.len() ==> !valid_first_scalar(bytes.subrange(at, bytes.len() as int)),
    ensures
        valid_up_to(bytes) == at,
    decreases at,
{
    if at == 0 {
        assert(bytes.subrange(0, bytes.len() as int) =~= bytes);
    } else {
        let head = bytes.subrange(0, at);
        let tail = bytes.subrange(at, bytes.len() as int);
        assert(head + tail =~= bytes);
        assert(valid_first_scalar(head));
        lemma_first_scalar_of_concat(head, tail);
        let width = length_of_first_scalar(bytes);
        let rest = pop_first_scalar(bytes);
        assert(rest.subrange(0, at - width) =~= pop_first_scalar(head));
        assert(rest.subrange(at - width, rest.len() as int) =~= tail);
        lemma_valid_up_to_at(rest, at - width);
    }
}

/// Zero bytes are well-formed UTF-8: each is the one-byte encoding of U+0000.
pub proof fn lemma_zeros_are_valid(count: nat)
    ensures
        valid_utf8(zeros(count)),
    decreases count,
{
    if count > 0 {
        let all = zeros(count);
        assert(all[0] == 0u8);
        lemma_scalar_by_ranges(all);
        assert(pop_first_scalar(all) =~= zeros((count - 1) as nat));
        lemma_zeros_are_valid((count - 1) as nat);
    }
}

/// Zeroing everything behind a well-formed prefix leaves well-formed UTF-8 of the
/// same length, whatever stood there before.
pub proof fn lemma_zeroed_from_is_valid(bytes: Seq<u8>, from: int)
    requires
        0 <= from <= bytes.len(),
        valid_utf8(bytes.subrange(0, from)),
    ensures
        valid_utf8(zeroed_from(bytes, from)),
        zeroed_from(bytes, from).len() == bytes.len(),
{
    lemma_zeros_are_valid((bytes.len() - from) as nat);
    valid_utf8_concat(bytes.subrange(0, from), zeros((bytes.len() - from) as nat));
}

} // verus!

//! What holds of every guarded call, stated over the bytes that a transformation
//! left and the way it ended.
use crate::encoding::{
    lemma_valid_up_to_at, lemma_valid_up_to_is_longest, lemma_valid_up_to_splits,
    lemma_zeroed_from_is_valid, lemma_zeros_are_valid, valid_up_to, zeros,
};
use crate::guard::{outcome, raised, settled, state_after, Failure, GuardState};
use crate::validate::{check, Utf8Error};
use vstd::prelude::*;
use vstd::utf8::{valid_first_scalar, valid_utf8};

verus! {

/// Where bytes are not UTF-8, the check says where they stop being so: the offset
/// that it reports lies within the bytes, everything before it is well-formed, no
/// scalar starts at it, and no longer prefix is well-formed.
pub proof fn law_reported_offset_is_first_break(bytes: Seq<u8>, longer: int)
    requires
        !valid_utf8(bytes),
        bytes.len() <= usize::MAX,
    ensures
        check(bytes) is Err,
        check(bytes)->Err_0.valid_up_to == valid_up_to(bytes),
        valid_up_to(bytes) < bytes.len(),
        valid_utf8(bytes.subrange(0, valid_up_to(bytes) as int)),
        !valid_first_scalar(bytes.subrange(valid_up_to(bytes) as int, bytes.len() as int)),
        valid_up_to(bytes) < longer <= bytes.len() ==> !valid_utf8(bytes.subrange(0, longer)),
{
    lemma_valid_up_to_splits(bytes);
    if valid_up_to(bytes) < longer <= bytes.len() {
        lemma_valid_up_to_is_longest(bytes, longer);
    }
}

/// Whatever the transformation wrote and however it ended, the bytes that the guard
/// leaves behind are well-formed UTF-8, as many as there were.
pub proof fn law_settled_is_utf8(written: Seq<u8>, state: GuardState)
    ensures
        valid_utf8(settled(written, state)),
        settled(written, state).len() == written.len(),
{
    lemma_valid_up_to_splits(written);
    lemma_zeros_are_valid(written.len());
    lemma_zeroed_from_is_valid(written, valid_up_to(written) as int);
}

/// An empty text stays empty whatever the transformation does, and a
/// transformation that returned on it brings no failure about.
pub proof fn law_empty_stays_empty(written: Seq<u8>, state: GuardState)
    requires
        written.len() == 0,
    ensures
        settled(written, state) == written,
        raised(written, state) is Ok,
{
    assert(zeros(0) =~= written);
}

/// A transformation that returns and has changed nothing leaves the text bit for
/// bit what it was, and its value is handed on.
pub proof fn law_unchanged_text_is_untouched<R, M>(before: Seq<u8>, written: Seq<u8>, value: R)
    requires
        valid_utf8(before),
        written == before,
    ensures
        settled(written, GuardState::Completed) == before,
        raised(written, GuardState::Completed) is Ok,
        outcome(written, Ok::<R, M>(value)) == Ok::<R, Failure<M>>(value),
{
}

/// A transformation that returns and leaves UTF-8 behind, the same or another, has
/// the bytes kept exactly as it wrote them, and its value handed on.
pub proof fn law_valid_bytes_are_kept<R, M>(written: Seq<u8>, value: R)
    requires
        valid_utf8(written),
    ensures
        settled(written, GuardState::Completed) == written,
        raised(written, GuardState::Completed) is Ok,
        outcome(written, Ok::<R, M>(value)) == Ok::<R, Failure<M>>(value),
{
}

/// A transformation that returns and leaves an ill-formed sequence at offset `at`,
/// behind a well-formed prefix, has the prefix kept as it wrote it and every byte
/// from `at` on zeroed, and the call fails with a violation that reports `at`.
pub proof fn law_invalid_tail_is_zeroed<R, M>(written: Seq<u8>, at: int, value: R)
    requires
        0 <= at < written.len() <= usize::MAX,
        valid_utf8(written.subrange(0, at)),
        !valid_first_scalar(written.subrange(at, written.len() as int)),
    ensures
        settled(written, GuardState::Completed).len() == written.len(),
        forall|i: int| 0 <= i < at ==> settled(written, GuardState::Completed)[i] == written[i],
        forall|i: int|
            at <= i < written.len() ==> settled(written, GuardState::Completed)[i] == 0u8,
        raised(written, GuardState::Completed) is Err,
        raised(written, GuardState::Completed)->Err_0.valid_up_to == at,
        outcome(written, Ok::<R, M>(value)) == Err::<R, Failure<M>>(
            Failure::InvariantViolation(raised(written, GuardState::Completed)->Err_0),
        ),
{
    lemma_valid_up_to_at(written, at);
    lemma_valid_up_to_splits(written);
}

/// A transformation that gives up with a payload has every byte zeroed, whatever it
/// wrote, and the call fails with that payload and nothing else: the guard itself
/// raises nothing.
pub proof fn law_failure_goes_through<R, M>(written: Seq<u8>, payload: M)
    ensures
        settled(written, state_after(Err::<R, M>(payload))) == zeros(written.len()),
        forall|i: int|
            0 <= i < written.len() ==> settled(written, state_after(Err::<R, M>(payload)))[i]
                == 0u8,
        raised(written, state_after(Err::<R, M>(payload))) is Ok,
        outcome(written, Err::<R, M>(payload)) == Err::<R, Failure<M>>(
            Failure::Propagated(payload),
        ),
{
}

/// A call ends in at most one failure, and it says whose: after a transformation
/// that gave up, its payload, with the guard silent; after one that returned, the
/// guard's violation, if there is one.
pub proof fn law_single_failure<R, M>(written: Seq<u8>, returned: Result<R, M>)
    ensures
        match outcome(written, returned) {
            Ok(value) => returned == Ok::<R, M>(value) && raised(
                written,
                state_after(returned),
            ) is Ok,
            Err(Failure::Propagated(payload)) => returned == Err::<R, M>(payload) && raised(
                written,
                state_after(returned),
            ) is Ok,
            Err(Failure::InvariantViolation(error)) => returned is Ok && raised(
                written,
                state_after(returned),
            ) == Err::<(), Utf8Error>(error),
        },
{
}

/// No call succeeds on bytes that were not checked: a value comes out only after
/// a transformation that returned and left UTF-8 behind.
pub proof fn law_success_needs_utf8<R, M>(written: Seq<u8>, returned: Result<R, M>)
    ensures
        outcome(written, returned) is Ok <==> returned is Ok && valid_utf8(written),
{
}

} // verus!

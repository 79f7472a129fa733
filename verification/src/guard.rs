//! The guard that stands between a transformation and everyone else: whatever the
//! transformation left in the bytes, a released guard leaves well-formed UTF-8.
use crate::encoding::{
    lemma_valid_up_to_splits, lemma_zeroed_from_is_valid, lemma_zeros_are_valid, valid_up_to,
    zeroed_from, zeros,
};
use crate::validate::{check, validate, Utf8Error};
use vstd::prelude::*;
use vstd::utf8::valid_utf8;

verus! {

/// What a guard knows of the transformation that it watches.
#[derive(Clone, Copy, Debug, PartialEq, Eq, Structural)]
pub enum GuardState {
    /// The transformation has not been seen to return. Every guard starts here, so
    /// that a transformation that never returns is taken to have failed.
    AssumedFailed,
    /// The transformation returned; its bytes are still unchecked.
    Completed,
}

/// A transformation's failure, or the one that its bytes brought about. A call ends
/// in at most one of the two.
#[derive(Debug, PartialEq, Eq)]
pub enum Failure<M> {
    /// The transformation gave up. The payload is the transformation's own, as it
    /// handed it over.
    Propagated(M),
    /// The transformation returned, and the bytes it left were not UTF-8.
    InvariantViolation(Utf8Error),
}

/// The bytes that a guard leaves behind when it is released in `state` over the
/// bytes `written`. After a failure nothing is known of them and all are zeroed.
/// After a return, well-formed bytes stay as they are; otherwise the longest
/// well-formed prefix stays and the rest is zeroed.
pub open spec fn settled(written: Seq<u8>, state: GuardState) -> Seq<u8> {
    match state {
        GuardState::AssumedFailed => zeros(written.len()),
        GuardState::Completed => if valid_utf8(written) {
            written
        } else {
            zeroed_from(written, valid_up_to(written) as int)
        },
    }
}

/// The failure that a guard raises when it is released in `state` over the bytes
/// `written`: none after a failed transformation, whatever the bytes hold, and after
/// a return the first ill-formed sequence, if there is one.
pub open spec fn raised(written: Seq<u8>, state: GuardState) -> Result<(), Utf8Error> {
    match state {
        GuardState::AssumedFailed => Ok(()),
        GuardState::Completed => check(written),
    }
}

/// The state in which a guard is released after a transformation ended in
/// `returned`.
pub open spec fn state_after<R, M>(returned: Result<R, M>) -> GuardState {
    match returned {
        Ok(_) => GuardState::Completed,
        Err(_) => GuardState::AssumedFailed,
    }
}

/// How a guarded call ends when the transformation ended in `returned` and left the
/// bytes `written`: a transformation's failure goes through as it is, and a value
/// comes out only where the bytes are UTF-8.
pub open spec fn outcome<R, M>(written: Seq<u8>, returned: Result<R, M>) -> Result<
    R,
    Failure<M>,
> {
    match returned {
        Err(payload) => Err(Failure::Propagated(payload)),
        Ok(value) => match check(written) {
            Ok(_) => Ok(value),
            Err(error) => Err(Failure::InvariantViolation(error)),
        },
    }
}

/// Overwrites every byte from `from` on with zero.
fn zero_from(bytes: &mut [u8], from: usize)
    requires
        from <= old(bytes)@.len(),
    ensures
        final(bytes)@ == zeroed_from(old(bytes)@, from as int),
{
    let n: usize = bytes.len();
    let mut at: usize = from;
    while at < n
        invariant
            from <= at <= n,
            bytes@.len() == n,
            n == old(bytes)@.len(),
            forall|i: int| 0 <= i < from ==> bytes@[i] == old(bytes)@[i],
            forall|i: int| from <= i < at ==> bytes@[i] == 0u8,
        decreases n - at,
    {
        bytes[at] = 0u8;
        at += 1;
    }
    assert(bytes@ =~= zeroed_from(old(bytes)@, from as int));
}

/// Exclusive hold on the bytes of a text for the time of one transformation.
pub struct Guard<'a> {
    /// The bytes lent to the transformation.
    pub bytes: &'a mut [u8],
    /// Whether the transformation has been seen to return.
    pub state: GuardState,
}

impl<'a> Guard<'a> {
    /// Takes hold of `bytes`, assuming the worst of what is to come.
    pub fn new(bytes: &'a mut [u8]) -> (guard: Guard<'a>)
        ensures
            guard.bytes@ == old(bytes)@,
            guard.state == GuardState::AssumedFailed,
            final(guard.bytes)@ == final(bytes)@,
    {
        Guard { bytes, state: GuardState::AssumedFailed }
    }

    /// Notes that the transformation returned. The bytes are not touched.
    pub fn complete(&mut self)
        ensures
            final(self).state == GuardState::Completed,
            final(self).bytes == old(self).bytes,
    {
        self.state = GuardState::Completed;
    }

    /// Lets go of the bytes, leaving well-formed UTF-8 behind. A guard whose
    /// transformation failed zeroes them all and raises nothing. A guard whose
    /// transformation returned checks them, and on the first ill-formed sequence
    /// zeroes from there to the end and raises it.
    pub fn release(self) -> (raise: Result<(), Utf8Error>)
        ensures
            final(self.bytes)@ == settled(old(self.bytes)@, self.state),
            raise == raised(old(self.bytes)@, self.state),
            valid_utf8(final(self.bytes)@),
            final(self.bytes)@.len() == old(self.bytes)@.len(),
    {
        let Guard { bytes, state } = self;
        let ghost written = bytes@;
        let n: usize = bytes.len();
        proof {
            lemma_valid_up_to_splits(written);
        }
        match state {
            GuardState::AssumedFailed => {
                zero_from(bytes, 0);
                proof {
                    lemma_zeros_are_valid(written.len());
                    assert(zeroed_from(written, 0) =~= zeros(written.len()));
                }
                Ok(())
            },
            GuardState::Completed => {
                match validate(bytes) {
                    Ok(_) => Ok(()),
                    Err(error) => {
                        zero_from(bytes, error.valid_up_to);
                        proof {
                            lemma_zeroed_from_is_valid(written, error.valid_up_to as int);
                        }
                        Err(error)
                    },
                }
            },
        }
    }

    /// Ends a guarded call whose transformation ended in `returned`, on a guard
    /// that has not yet been told of it: a failure of the transformation is handed
    /// on with its payload untouched, after the bytes were zeroed; a returned value
    /// is handed on where the bytes are UTF-8, and gives way to the violation where
    /// they are not.
    pub fn finish<R, M>(self, returned: Result<R, M>) -> (ended: Result<R, Failure<M>>)
        requires
            self.state == GuardState::AssumedFailed,
        ensures
            final(self.bytes)@ == settled(old(self.bytes)@, state_after(returned)),
            ended == outcome(old(self.bytes)@, returned),
            valid_utf8(final(self.bytes)@),
            final(self.bytes)@.len() == old(self.bytes)@.len(),
    {
        let mut guard = self;
        match returned {
            Err(payload) => {
                let _ = guard.release();
                Err(Failure::Propagated(payload))
            },
            Ok(value) => {
                guard.complete();
                match guard.release() {
                    Ok(_) => Ok(value),
                    Err(error) => Err(Failure::InvariantViolation(error)),
                }
            },
        }
    }
}

} // verus!

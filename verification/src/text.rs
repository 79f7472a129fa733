//! Text that is held as its UTF-8 bytes.
use crate::guard::{outcome, settled, state_after, Failure, Guard};
use crate::validate::{check, validate, Utf8Error};
use vstd::prelude::*;
use vstd::string::{StrSliceExecFns, StringSliceAdditionalSpecFns};
use vstd::utf8::{encode_utf8_valid_utf8, valid_utf8};

verus! {

/// A buffer of bytes that are well-formed UTF-8 whenever anyone can look at them.
#[derive(Debug, PartialEq, Eq)]
pub struct Text {
    bytes: Vec<u8>,
}

impl Text {
    #[verifier::type_invariant]
    spec fn well_formed(self) -> bool {
        valid_utf8(self.bytes@)
    }

    /// The bytes of the text.
    pub closed spec fn view(&self) -> Seq<u8> {
        self.bytes@
    }

    /// The text of `s`, byte for byte.
    pub fn from_str(s: &str) -> (text: Text)
        ensures
            text@ == s.spec_bytes(),
    {
        proof {
            encode_utf8_valid_utf8(s@);
        }
        Text { bytes: s.as_bytes_vec() }
    }

    /// Takes `bytes` as a text where they are UTF-8, and otherwise says where they
    /// stop being so.
    pub fn from_utf8(bytes: Vec<u8>) -> (made: Result<Text, Utf8Error>)
        ensures
            match check(bytes@) {
                Ok(_) => made is Ok && made->Ok_0@ == bytes@,
                Err(error) => made == Err::<Text, Utf8Error>(error),
            },
    {
        match validate(bytes.as_slice()) {
            Ok(_) => Ok(Text { bytes }),
            Err(error) => Err(error),
        }
    }

    /// The bytes of the text.
    pub fn as_bytes(&self) -> (bytes: &[u8])
        ensures
            bytes@ == self@,
            valid_utf8(bytes@),
    {
        proof {
            use_type_invariant(self);
        }
        self.bytes.as_slice()
    }

    /// Gives up the text for its bytes.
    pub fn into_bytes(self) -> (bytes: Vec<u8>)
        ensures
            bytes@ == self@,
            valid_utf8(bytes@),
    {
        proof {
            use_type_invariant(&self);
        }
        self.bytes
    }

    /// The number of bytes of the text.
    pub fn len(&self) -> (len: usize)
        ensures
            len == self@.len(),
    {
        self.bytes.len()
    }
}

impl Clone for Text {
    /// A second text of the same bytes.
    fn clone(&self) -> (copy: Text)
        ensures
            copy@ == self@,
    {
        proof {
            use_type_invariant(self);
        }
        let bytes = self.bytes.clone();
        assert(bytes@ =~= self.bytes@);
        Text { bytes }
    }
}

/// Lends the bytes of `s` to `f`, once, and hands on what `f` returns, but only
/// where `f` left UTF-8 behind.
///
/// `f` returns `Ok` with its value, or `Err` with a payload of its choosing where it
/// gives up. Whatever it does to the bytes, `s` is UTF-8 again when this returns:
///
/// * `f` returned a value and the bytes are UTF-8: `s` holds them as `f` left them,
///   and the value is returned.
/// * `f` returned a value and the bytes are not UTF-8: the longest well-formed
///   prefix stays, every byte behind it is zero, and the violation is returned with
///   the offset of the first ill-formed sequence.
/// * `f` gave up: every byte is zero, and the payload is returned as it is. The
///   bytes are not checked, so that this failure is the only one.
///
/// The buffer is neither copied nor reallocated. It is out of `s` while `f` runs:
/// should `f` unwind, `s` is left empty.
pub fn with_str_bytes<R, M, F>(s: &mut Text, f: F) -> (ended: Result<R, Failure<M>>) where
    F: FnOnce(&mut [u8]) -> Result<R, M>,

    requires
        forall|view: &mut [u8]| (*view)@ == old(s)@ ==> #[trigger] f.requires((view,)),
    ensures
        exists|view: &mut [u8], returned: Result<R, M>|
            {
                &&& (*view)@ == old(s)@
                &&& #[trigger] f.ensures((view,), returned)
                &&& final(s)@ == settled((*final(view))@, state_after(returned))
                &&& final(s)@.len() == (*final(view))@.len()
                &&& ended == outcome((*final(view))@, returned)
            },
        valid_utf8(final(s)@),
{
    // The buffer leaves the text for the time of the call, so that the text is
    // well-formed, if empty, whatever `f` does.
    let mut bytes: Vec<u8> = Vec::new();
    core::mem::swap(&mut s.bytes, &mut bytes);
    let guard = Guard::new(bytes.as_mut_slice());
    let returned = f(&mut *guard.bytes);
    let ended = guard.finish(returned);
    core::mem::swap(&mut s.bytes, &mut bytes);
    ended
}

} // verus!

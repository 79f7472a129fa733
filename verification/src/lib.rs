//! Guarded in-place mutation of the bytes of UTF-8 text.
//!
//! A [`Text`] always holds well-formed UTF-8. [`with_str_bytes`] lends its bytes to a
//! transformation and, before anyone else can look at them, restores that
//! invariant: bytes that are no longer UTF-8 are zeroed from the first ill-formed
//! sequence on, and the bytes of a transformation that gave up are zeroed entirely.
//! Nothing is copied and nothing is allocated on the way: a zero byte is a scalar of
//! its own, so zeroing in place can never leave an ill-formed sequence behind.
pub mod encoding;
pub mod guard;
pub mod laws;
pub mod message;
pub mod text;
pub mod validate;

pub use crate::guard::{Failure, Guard, GuardState};
pub use crate::text::{with_str_bytes, Text};
pub use crate::validate::{validate, Utf8Error};

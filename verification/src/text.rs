//! Conversion from verified ASCII byte buffers to `String`.

use vstd::prelude::*;

verus! {

/// Relies on `String::from_utf8`: a buffer of ASCII bytes is valid UTF-8 and
/// becomes the string holding exactly those bytes, one character per byte.
#[verifier::external_body]
pub(crate) fn ascii_to_string(bytes: Vec<u8>) -> (r: String)
    requires
        forall|i: int| 0 <= i < bytes@.len() ==> bytes@[i] < 128,
    ensures
        r@ == Seq::new(bytes@.len(), |i: int| bytes@[i] as char),
{
    match String::from_utf8(bytes) {
        Ok(s) => s,
        Err(_) => String::new(),
    }
}

} // verus!

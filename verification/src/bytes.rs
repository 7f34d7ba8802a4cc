//! Bytes and the text that they write.

use vstd::prelude::*;
use vstd::utf8::*;

verus! {

/// What `String::from_utf8_lossy` reads the bytes as.
pub uninterp spec fn lossy_text(bytes: Seq<u8>) -> Seq<char>;

/// Reads bytes as text with `String::from_utf8_lossy`, which puts replacement
/// characters where the bytes are not UTF-8. The contract names the result,
/// which depends on the bytes alone, and says that proper UTF-8 is read as the
/// text that it encodes.
#[verifier::external_body]
pub(crate) fn lossy(bytes: &Vec<u8>) -> (r: String)
    ensures
        r@ == lossy_text(bytes@),
        valid_utf8(bytes@) ==> encode_utf8(r@) == bytes@,
{
    String::from_utf8_lossy(bytes.as_slice()).into_owned()
}

/// Reads bytes as text with `String::from_utf8`, which succeeds exactly on
/// proper UTF-8 and then gives the text that the bytes encode.
#[verifier::external_body]
pub(crate) fn utf8(bytes: Vec<u8>) -> (r: Option<String>)
    ensures
        match r {
            Some(s) => encode_utf8(s@) == bytes@,
            None => !valid_utf8(bytes@),
        },
{
    String::from_utf8(bytes).ok()
}

} // verus!

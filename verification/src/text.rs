//! Text fields: a length byte, then that many bytes of UTF-8.

use vstd::prelude::*;
use vstd::utf8::{decode_utf8, valid_utf8};

verus! {

/// The text that lossy UTF-8 decoding makes of `bytes` that are not valid
/// UTF-8: each malformed sequence becomes one replacement character, all else
/// is decoded as it is.
pub uninterp spec fn lossy_text(bytes: Seq<u8>) -> Seq<char>;

/// The text of a field whose content is `bytes`: the characters that the
/// bytes encode where they are valid UTF-8, and their lossy decoding where
/// they are not.
pub open spec fn text_of(bytes: Seq<u8>) -> Seq<char> {
    if valid_utf8(bytes) {
        decode_utf8(bytes)
    } else {
        lossy_text(bytes)
    }
}

/// Where the text field that starts at `at` ends: one length byte, then as
/// many bytes as it says.
pub open spec fn pascal_end(data: Seq<u8>, at: int) -> int {
    at + 1 + data[at]
}

/// Whether `data` holds the whole text field that starts at `at`.
pub open spec fn pascal_fits(data: Seq<u8>, at: int) -> bool {
    0 <= at < data.len() && pascal_end(data, at) <= data.len()
}

/// The content bytes of the text field that starts at `at`.
pub open spec fn pascal_bytes(data: Seq<u8>, at: int) -> Seq<u8> {
    data.subrange(at + 1, pascal_end(data, at))
}

/// Calls `String::from_utf8_lossy` and takes ownership of what it returns.
/// Trusted: bytes that are valid UTF-8 decode to exactly the characters they
/// encode, and the text made of other bytes depends on the bytes alone.
#[verifier::external_body]
pub(crate) fn utf8_lossy(bytes: &[u8]) -> (s: String)
    ensures
        valid_utf8(bytes@) ==> s@ == decode_utf8(bytes@),
        !valid_utf8(bytes@) ==> s@ == lossy_text(bytes@),
{
    String::from_utf8_lossy(bytes).into_owned()
}

} // verus!

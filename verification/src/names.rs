//! Record names as text.
//!
//! A store keeps a record under a key of bytes. The snapshot shows the key
//! as text. A key that is not valid UTF-8 is no reason to give up on the
//! whole snapshot: it is decoded lossily, each invalid sequence giving the
//! replacement character U+FFFD, and the record appears under that name.

use vstd::prelude::*;

verus! {

/// The text that `String::from_utf8_lossy` gives for `bytes`.
pub uninterp spec fn lossy_text(bytes: Seq<u8>) -> Seq<char>;

/// `String::from_utf8_lossy`, made into an owned `String`. The call accepts
/// every slice of bytes, and what it returns depends on the bytes alone.
#[verifier::external_body]
fn from_utf8_lossy(bytes: &[u8]) -> (text: String)
    ensures
        text@ == lossy_text(bytes@),
{
    String::from_utf8_lossy(bytes).into_owned()
}

/// The name under which a record with the key `bytes` is shown.
pub fn decode_name(bytes: &[u8]) -> (name: String)
    ensures
        name@ == lossy_text(bytes@),
{
    from_utf8_lossy(bytes)
}

} // verus!

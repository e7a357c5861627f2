//! Text from raw bytes.

use vstd::prelude::*;
use vstd::utf8::{decode_utf8, valid_utf8};

verus! {

/// Calls `String::from_utf8`, which std documents to return the string
/// whose UTF-8 encoding the bytes are, and an error exactly when they are
/// not valid UTF-8.  The contract states this over vstd's model of UTF-8:
/// `Ok` exactly on valid input, holding the decoded characters.  On an error
/// the result holds the error's own message (its `Display` text), which
/// the contract leaves unsaid.
#[verifier::external_body]
pub(crate) fn decode_utf8_bytes(bytes: Vec<u8>) -> (r: Result<String, String>)
    ensures
        r is Ok <==> valid_utf8(bytes@),
        r matches Ok(s) ==> s@ == decode_utf8(bytes@),
{
    match String::from_utf8(bytes) {
        Ok(text) => Ok(text),
        Err(err) => Err(err.to_string()),
    }
}

} // verus!

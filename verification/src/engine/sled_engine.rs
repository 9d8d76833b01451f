//! What the store makes of the answers of a sled database, which holds
//! values as bytes.

use vstd::prelude::*;
use vstd::string::*;
use vstd::utf8::{decode_utf8, valid_utf8};
use crate::error::{KvStoreError, Result};

verus! {

/// `bstr::ByteSlice::to_str` on a byte slice: the bytes as text if they are
/// valid UTF-8, and an error if they are not.
#[verifier::external_body]
fn to_str(bytes: &[u8]) -> (r: core::result::Result<&str, bstr::Utf8Error>)
    ensures
        r is Ok <==> valid_utf8(bytes@),
        r matches Ok(s) ==> s.spec_bytes() == bytes@,
{
    bstr::ByteSlice::to_str(bytes)
}

/// The value that a lookup in the database found, as text. Bytes that are
/// not valid UTF-8 are an error.
pub fn found_value(found: Option<Vec<u8>>) -> (r: Result<Option<String>>)
    ensures
        found is None ==> r == Ok::<Option<String>, KvStoreError>(None),
        found matches Some(bytes) ==> (if valid_utf8(bytes@) {
            r matches Ok(Some(s)) && s@ == decode_utf8(bytes@)
        } else {
            r matches Err(e) && e is Utf8Error
        }),
{
    match found {
        Some(val) => {
            match to_str(val.as_slice()) {
                Ok(s) => {
                    proof {
                        vstd::utf8::encode_utf8_decode_utf8(s@);
                    }
                    Ok(Some(String::from_str(s)))
                },
                Err(e) => Err(KvStoreError::Utf8Error(e)),
            }
        },
        None => Ok(None),
    }
}

/// What a removal comes to: the database hands back what the key had, and a
/// key that had nothing was not there.
pub fn removed_value(previous: Option<Vec<u8>>) -> (r: Result<()>)
    ensures
        previous is Some ==> r is Ok,
        previous is None ==> (r matches Err(e) && e is KeyNotFound),
{
    match previous {
        Some(_) => Ok(()),
        None => Err(KvStoreError::KeyNotFound),
    }
}

} // verus!

//! The error type shared by every operation of the store.

use vstd::prelude::*;

verus! {

/// `std::io::Error`, carried through without being inspected.
#[verifier::external_type_specification]
#[verifier::external_body]
pub struct ExIoError(std::io::Error);

/// `serde_json::Error`, carried through without being inspected.
#[verifier::external_type_specification]
#[verifier::external_body]
pub struct ExJsonError(serde_json::Error);

/// `core::num::ParseIntError`, carried through without being inspected.
#[verifier::external_type_specification]
#[verifier::external_body]
pub struct ExParseIntError(core::num::ParseIntError);

/// `sled::Error`, carried through without being inspected.
#[verifier::external_type_specification]
#[verifier::external_body]
pub struct ExSledError(sled::Error);

/// `bstr::Utf8Error`, carried through without being inspected.
#[verifier::external_type_specification]
#[verifier::external_body]
pub struct ExUtf8Error(bstr::Utf8Error);

/// Everything that can go wrong in the store.
#[derive(Debug)]
pub enum KvStoreError {
    /// Reading or writing a file or a socket failed.
    IOError(std::io::Error),
    /// A record or a message could not be encoded or decoded.
    JSError(serde_json::Error),
    /// A text that should hold a number did not.
    ParseError(core::num::ParseIntError),
    /// The sled backend reported a failure.
    SledError(sled::Error),
    /// A stored value was not valid UTF-8.
    Utf8Error(bstr::Utf8Error),
    /// `remove` was asked for a key that is not there.
    KeyNotFound,
    /// Any other failure, with its message.
    OtherError(String),
}

pub type Result<T> = std::result::Result<T, KvStoreError>;

} // verus!

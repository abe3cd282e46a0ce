//! How a local path is written in the durable state store: as the base64
//! text of its bytes.

use vstd::prelude::*;
use vstd::utf8::{decode_utf8, encode_utf8, valid_utf8};
use crate::error::Error;

verus! {

/// The base64 text of `bytes`, in the standard alphabet and with padding,
/// as `base64::encode` gives it.
pub uninterp spec fn base64_text(bytes: Seq<u8>) -> Seq<char>;

/// The bytes that `text` stands for as `base64::decode` finds them; none
/// where the text is not base64.
pub uninterp spec fn base64_bytes(text: Seq<char>) -> Option<Seq<u8>>;

#[verifier::external_type_specification]
#[verifier::external_body]
pub struct ExDecodeError(base64::DecodeError);

/// Whether as many bytes can be written as base64: the length of the
/// text, four characters for every three bytes or part of three, is one
/// that the machine can count.
pub open spec fn encodable(length: nat) -> bool {
    length / 3 * 4 + 4 <= usize::MAX
}

/// Whether a text of as many bytes can be read as base64: the length and
/// three more is a number that the machine can count.
pub open spec fn readable(length: nat) -> bool {
    length + 3 <= usize::MAX
}

/// Calls `base64::encode`. The contract names the text that comes back
/// and says that `base64::decode` reads the same bytes from it again.
/// The call panics when the length of the text overflows, which the
/// precondition leaves out.
#[verifier::external_body]
pub(crate) fn encode(bytes: &[u8]) -> (text: String)
    requires
        encodable(bytes@.len()),
    ensures
        text@ == base64_text(bytes@),
        base64_bytes(text@) == Some(bytes@),
{
    base64::encode(bytes)
}

/// Calls `base64::decode`. The contract names the bytes that come back
/// and says that the call fails exactly where the text stands for none.
/// The call panics when the length of the text and three overflows, which
/// the precondition leaves out.
#[verifier::external_body]
fn decode(text: &str) -> (bytes: Result<Vec<u8>, base64::DecodeError>)
    requires
        readable(encode_utf8(text@).len()),
    ensures
        match base64_bytes(text@) {
            Some(found) => bytes is Ok && bytes->Ok_0@ == found,
            None => bytes is Err,
        },
{
    base64::decode(text)
}

/// Calls `ToString::to_string` on the error of `base64::decode`, which
/// writes what its `Display` says. Nothing is claimed of the text.
#[verifier::external_body]
fn describe(error: &base64::DecodeError) -> (text: String) {
    error.to_string()
}

/// Calls `String::from_utf8`: the text that the bytes encode, where they
/// are UTF-8, and nothing where they are not.
#[verifier::external_body]
fn text_of(bytes: Vec<u8>) -> (text: Option<String>)
    ensures
        match text {
            Some(text) => valid_utf8(bytes@) && text@ == decode_utf8(bytes@),
            None => !valid_utf8(bytes@),
        },
{
    String::from_utf8(bytes).ok()
}

/// The text that stands for `path` in the durable store.
pub open spec fn encoded_path(path: Seq<char>) -> Seq<char> {
    base64_text(encode_utf8(path))
}

/// The path that `key` stands for; none where the key is not base64 or
/// the bytes are not a text.
pub open spec fn decoded_path(key: Seq<char>) -> Option<Seq<char>> {
    match base64_bytes(key) {
        Some(bytes) => if valid_utf8(bytes) {
            Some(decode_utf8(bytes))
        } else {
            None
        },
        None => None,
    }
}

/// The text that stands for `path` in the durable store, from which
/// `decode_path` reads the path again; nothing where the path is too long
/// to be written.
pub fn encode_path(path: &str) -> (key: Option<String>)
    ensures
        encodable(encode_utf8(path@).len()) ==> key is Some,
        !encodable(encode_utf8(path@).len()) ==> key is None,
        key is Some ==> key->Some_0@ == encoded_path(path@),
        key is Some ==> decoded_path(key->Some_0@) == Some(path@),
{
    let bytes = path.as_bytes();
    if bytes.len() / 3 > (usize::MAX - 4) / 4 {
        return None;
    }
    proof {
        vstd::utf8::encode_utf8_valid_utf8(path@);
        vstd::utf8::encode_utf8_decode_utf8(path@);
    }
    Some(encode(bytes))
}

/// The path that a key of the durable store is read as: the path that it
/// stands for, where it is short enough to be read.
pub open spec fn path_of_key(key: Seq<char>) -> Option<Seq<char>> {
    if readable(encode_utf8(key).len()) {
        decoded_path(key)
    } else {
        None
    }
}

/// The path that `key` stands for in the durable store.
pub fn decode_path(key: &str) -> (path: Result<String, Error>)
    ensures
        match path_of_key(key@) {
            Some(found) => path is Ok && path->Ok_0@ == found,
            None => path is Err && path->Err_0 is Other,
        },
{
    if key.as_bytes().len() > usize::MAX - 3 {
        return Err(Error::Other(String::from_str("the key is too long to be read")));
    }
    match decode(key) {
        Err(error) => Err(Error::Other(describe(&error))),
        Ok(bytes) => match text_of(bytes) {
            Some(path) => Ok(path),
            None => Err(Error::Other(String::from_str("the key does not hold a text"))),
        },
    }
}

} // verus!

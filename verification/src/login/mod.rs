//! Logging in: the secrets that are made up for one login.

pub mod callback_endpoint;
pub mod db;

use vstd::prelude::*;
use vstd::utf8::encode_utf8;
use crate::codec::{base64_text, encode};
use crate::text::{holds, remove, without};

verus! {

/// The number of characters of a verifier.
pub const VERIFIER_LENGTH: usize = 96;

/// The number of characters of a state.
pub const STATE_LENGTH: usize = 32;

/// A character of base64 that cannot stand in an address.
pub const PLUS: char = '+';

/// The other character of base64 that cannot stand in an address.
pub const SLASH: char = '/';

/// The character that fills a base64 text up.
pub const PADDING: char = '=';

/// Whether the character is an ASCII letter or digit.
pub open spec fn is_alphanumeric(c: char) -> bool {
    ||| 'a' <= c <= 'z'
    ||| 'A' <= c <= 'Z'
    ||| '0' <= c <= '9'
}

/// Whether the text is made of ASCII letters and digits alone.
pub open spec fn all_alphanumeric(text: Seq<char>) -> bool {
    forall|i: int| 0 <= i < text.len() ==> is_alphanumeric(#[trigger] text[i])
}

/// The SHA-256 digest of `bytes`, as `sha2` computes it.
pub uninterp spec fn sha256(bytes: Seq<u8>) -> Seq<u8>;

/// Draws `length` characters from the thread's random number generator of
/// `rand`, each an ASCII letter or digit. Which ones is left open.
#[verifier::external_body]
fn random_text(length: usize) -> (text: String)
    ensures
        text@.len() == length,
        all_alphanumeric(text@),
{
    rand::Rng::sample_iter(rand::thread_rng(), rand::distributions::Alphanumeric)
        .take(length)
        .map(char::from)
        .collect()
}

/// Draws a number from 4000 up to, not including, 8000 from the thread's
/// random number generator of `rand`. Which one is left open.
#[verifier::external_body]
fn random_port() -> (port: u16)
    ensures
        4000 <= port < 8000,
{
    rand::Rng::gen_range(&mut rand::thread_rng(), 4000..8000)
}

/// Calls `Digest::digest` of `sha2::Sha256`. The contract names the
/// digest and gives its length, thirty-two bytes.
#[verifier::external_body]
fn digest(bytes: &[u8]) -> (out: Vec<u8>)
    ensures
        out@ == sha256(bytes@),
        out@.len() == 32,
{
    <sha2::Sha256 as sha2::Digest>::digest(bytes).to_vec()
}

/// The challenge that a base64 text makes: none where the text holds a
/// plus sign or a slash, else the text without its padding.
pub open spec fn safe_form(text: Seq<char>) -> Option<Seq<char>> {
    if text.contains(PLUS) || text.contains(SLASH) {
        None
    } else {
        Some(without(text, PADDING))
    }
}

/// The challenge that goes with a verifier: the base64 text of the
/// SHA-256 digest of the verifier, in the form that can stand in an
/// address; none where that text has no such form.
pub open spec fn challenge_of(verifier: Seq<char>) -> Option<Seq<char>> {
    safe_form(base64_text(sha256(encode_utf8(verifier))))
}

/// The challenge that a base64 text makes.
pub fn url_safe(text: &str) -> (challenge: Option<String>)
    ensures
        match safe_form(text@) {
            Some(form) => challenge is Some && challenge->Some_0@ == form,
            None => challenge is None,
        },
{
    if holds(text, PLUS) || holds(text, SLASH) {
        None
    } else {
        Some(remove(text, PADDING))
    }
}

/// The challenge that goes with a verifier.
pub fn code_challenge(verifier: &str) -> (challenge: Option<String>)
    ensures
        match challenge_of(verifier@) {
            Some(form) => challenge is Some && challenge->Some_0@ == form,
            None => challenge is None,
        },
{
    let hashed = digest(verifier.as_bytes());
    let text = encode(hashed.as_slice());
    url_safe(text.as_str())
}

/// Makes up a verifier of ninety-six letters and digits and the challenge
/// that goes with it. A verifier whose challenge has no form that can
/// stand in an address is thrown away; after `tries` such verifiers there
/// is no result.
pub fn generate_code(tries: usize) -> (code: Option<(String, String)>)
    ensures
        match code {
            Some((verifier, challenge)) => {
                &&& verifier@.len() == VERIFIER_LENGTH
                &&& all_alphanumeric(verifier@)
                &&& challenge_of(verifier@) == Some(challenge@)
            },
            None => true,
        },
        tries == 0 ==> code is None,
{
    let mut left = tries;
    while left > 0
        invariant
            left <= tries,
        decreases left,
    {
        let verifier = random_text(VERIFIER_LENGTH);
        match code_challenge(verifier.as_str()) {
            Some(challenge) => {
                return Some((verifier, challenge));
            },
            None => {},
        }
        left -= 1;
    }
    None
}

/// Makes up the text by which the answer to a login is told from any
/// other: thirty-two letters and digits.
pub fn state_parameter() -> (state: String)
    ensures
        state@.len() == STATE_LENGTH,
        all_alphanumeric(state@),
{
    random_text(STATE_LENGTH)
}

/// Makes up a port to listen on for the answer to a login.
pub fn candidate_port() -> (port: u16)
    ensures
        4000 <= port < 8000,
{
    random_port()
}

} // verus!

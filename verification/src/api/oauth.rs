//! Tokens: which one to use, and when one has to be fetched anew.

use vstd::prelude::*;
use crate::api::optional_text;

verus! {

/// What a login or a refresh hands out.
#[derive(Debug, Clone, PartialEq, Eq)]
pub struct LoginData {
    pub refresh_token: Option<String>,
    pub access_token: String,
    /// The seconds for which the access token is good.
    pub expires_in: i64,
}

/// The mathematical value of a [`LoginData`].
pub struct Login {
    pub refresh_token: Option<Seq<char>>,
    pub access_token: Seq<char>,
    pub expires_in: i64,
}

impl View for LoginData {
    type V = Login;

    open spec fn view(&self) -> Login {
        Login {
            refresh_token: optional_text(self.refresh_token),
            access_token: self.access_token@,
            expires_in: self.expires_in,
        }
    }
}

/// The tokens that are kept between runs.
#[derive(Debug, Clone, PartialEq, Eq)]
pub struct StoredToken {
    pub access_token: String,
    pub refresh_token: String,
    /// The second at which the access token expires.
    pub expiry: i64,
}

/// What to do to have an access token.
#[derive(Debug, Clone, PartialEq, Eq)]
pub enum TokenUse {
    /// Use this access token.
    Stored(String),
    /// Fetch a new access token with this refresh token.
    Refresh(String),
    /// There is none: nobody has logged in.
    Missing,
}

/// The seconds before its expiry from which a token is fetched anew.
pub const MARGIN: i64 = 60;

/// Whether a token that expires at `expiry` is to be fetched anew at
/// `now`: it is from a minute before it expires.
pub open spec fn expired(now: i64, expiry: i64) -> bool {
    now > expiry - MARGIN
}

/// Whether a token that expires at `expiry` is to be fetched anew at
/// `now`.
pub fn is_expired(now: i64, expiry: i64) -> (out: bool)
    ensures
        out == expired(now, expiry),
{
    if expiry < i64::MIN + MARGIN {
        true
    } else {
        now > expiry - MARGIN
    }
}

/// What to do at `now` to have an access token, given the tokens that are
/// kept: use the one that is there unless it is about to expire, and
/// fetch a new one if it is.
pub fn get_access_token(stored: Option<StoredToken>, now: i64) -> (out: TokenUse)
    ensures
        out == (match stored {
            None => TokenUse::Missing,
            Some(token) => if expired(now, token.expiry) {
                TokenUse::Refresh(token.refresh_token)
            } else {
                TokenUse::Stored(token.access_token)
            },
        }),
{
    match stored {
        None => TokenUse::Missing,
        Some(token) => if is_expired(now, token.expiry) {
            TokenUse::Refresh(token.refresh_token)
        } else {
            TokenUse::Stored(token.access_token)
        },
    }
}

} // verus!

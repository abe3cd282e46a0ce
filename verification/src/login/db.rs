//! How the tokens of a login are kept.

use vstd::prelude::*;
use crate::api::oauth::{Login, LoginData};

verus! {

/// A write of tokens to the durable store.
#[derive(Debug, Clone, PartialEq, Eq)]
pub enum TokenWrite {
    /// Put these tokens in the place of all that are kept.
    Replace { refresh_token: String, access_token: String, expiry: i64 },
    /// Give the tokens that are kept this access token and expiry.
    Update { access_token: String, expiry: i64 },
}

/// The mathematical value of a [`TokenWrite`].
pub enum TokenChange {
    Replace { refresh_token: Seq<char>, access_token: Seq<char>, expiry: i64 },
    Update { access_token: Seq<char>, expiry: i64 },
}

impl View for TokenWrite {
    type V = TokenChange;

    open spec fn view(&self) -> TokenChange {
        match self {
            TokenWrite::Replace { refresh_token, access_token, expiry } => TokenChange::Replace {
                refresh_token: refresh_token@,
                access_token: access_token@,
                expiry: *expiry,
            },
            TokenWrite::Update { access_token, expiry } => TokenChange::Update {
                access_token: access_token@,
                expiry: *expiry,
            },
        }
    }
}

/// Whether the second at which tokens handed out at `now` expire is one
/// that the machine can count.
pub open spec fn expiry_fits(now: i64, login: Login) -> bool {
    i64::MIN <= now + login.expires_in <= i64::MAX
}

/// The write that keeps what was handed out at `now`. Tokens that come
/// with a refresh token replace all that are kept; an access token alone
/// renews what is kept.
pub open spec fn token_change(now: i64, login: Login) -> TokenChange {
    let expiry = (now + login.expires_in) as i64;
    match login.refresh_token {
        Some(refresh_token) => TokenChange::Replace {
            refresh_token,
            access_token: login.access_token,
            expiry,
        },
        None => TokenChange::Update { access_token: login.access_token, expiry },
    }
}

/// The write that keeps what was handed out at `now`.
pub fn save_to_database(login_data: &LoginData, now: i64) -> (write: TokenWrite)
    requires
        expiry_fits(now, login_data@),
    ensures
        write@ == token_change(now, login_data@),
{
    let expiry = now + login_data.expires_in;
    match &login_data.refresh_token {
        Some(refresh_token) => TokenWrite::Replace {
            refresh_token: refresh_token.clone(),
            access_token: login_data.access_token.clone(),
            expiry,
        },
        None => TokenWrite::Update { access_token: login_data.access_token.clone(), expiry },
    }
}

} // verus!

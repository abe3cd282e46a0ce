//! The answer to a login, as it arrives at the local address.

use vstd::prelude::*;
use crate::api::optional_text;

verus! {

/// What to make of an answer.
#[derive(Debug, Clone, PartialEq, Eq)]
pub enum Answer {
    /// The login was refused; the text says why.
    Refused(String),
    /// The answer belongs to another login.
    Foreign,
    /// The login was granted; the code can be exchanged for tokens.
    Granted(String),
}

/// The mathematical value of an [`Answer`].
pub enum Verdict {
    Refused(Seq<char>),
    Foreign,
    Granted(Seq<char>),
}

impl View for Answer {
    type V = Verdict;

    open spec fn view(&self) -> Verdict {
        match self {
            Answer::Refused(reason) => Verdict::Refused(reason@),
            Answer::Foreign => Verdict::Foreign,
            Answer::Granted(code) => Verdict::Granted(code@),
        }
    }
}

/// What to make of an answer with the given parts when `expected` is the
/// state that went out with the login. An error decides first; then the
/// state has to be the one that went out.
pub open spec fn verdict(
    expected: Seq<char>,
    code: Option<Seq<char>>,
    error: Option<Seq<char>>,
    state: Seq<char>,
) -> Verdict {
    match error {
        Some(reason) => Verdict::Refused(reason),
        None => if state != expected {
            Verdict::Foreign
        } else {
            Verdict::Granted(code->Some_0)
        },
    }
}

/// What to make of an answer to a login. An answer without an error
/// carries a code.
pub fn authorization(expected: &str, code: Option<String>, error: Option<String>, state: &str) -> (out:
    Answer)
    requires
        error is None ==> code is Some,
    ensures
        out@ == verdict(expected@, optional_text(code), optional_text(error), state@),
{
    match error {
        Some(reason) => Answer::Refused(reason),
        None => {
            if !crate::text::same_text(state, expected) {
                Answer::Foreign
            } else {
                match code {
                    Some(code) => Answer::Granted(code),
                    None => vstd::pervasive::unreached(),
                }
            }
        },
    }
}

} // verus!

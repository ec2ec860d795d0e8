//! Who may use the store: a caller that is signed in and shows the token
//! that the service was started with.

use vstd::prelude::*;

verus! {

/// A user is signed in, and the token shown is the token expected.
pub open spec fn is_authorized(signed_in: bool, shown: Option<Seq<char>>, expected: Seq<char>) -> bool {
    signed_in && shown == Some(expected)
}

/// The characters of the token shown, if one was shown.
pub open spec fn token_view(shown: Option<&String>) -> Option<Seq<char>> {
    match shown {
        Some(token) => Some(token@),
        None => None,
    }
}

/// Decides whether a caller may use the store.
pub fn authorized(signed_in: bool, shown: Option<&String>, expected: &String) -> (allowed: bool)
    ensures
        allowed == is_authorized(signed_in, token_view(shown), expected@),
{
    match shown {
        Some(token) => signed_in && *token == *expected,
        None => false,
    }
}

} // verus!

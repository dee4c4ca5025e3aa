//! Generation of fresh mirror-group identifiers.

use vstd::prelude::*;

use rand::Rng;

use crate::registry::GROUP_ID_LEN;

verus! {

/// The character is an ASCII letter or digit.
pub open spec fn is_alnum_char(c: char) -> bool {
    ('A' <= c && c <= 'Z') || ('a' <= c && c <= 'z') || ('0' <= c && c <= '9')
}

/// Relies on rand's `thread_rng` sampled through the `Alphanumeric`
/// distribution, which yields only ASCII letters and digits; `take` fixes
/// the length. Nothing more is assumed of a random result.
#[verifier::external_body]
pub(crate) fn random_ident() -> (r: String)
    ensures
        r@.len() == GROUP_ID_LEN,
        forall|i: int| 0 <= i < r@.len() ==> is_alnum_char(#[trigger] r@[i]),
{
    rand::thread_rng()
        .sample_iter(&rand::distributions::Alphanumeric)
        .take(GROUP_ID_LEN)
        .map(char::from)
        .collect()
}

} // verus!

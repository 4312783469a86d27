//! Small helpers.

use crate::text::is_ascii_alnum;
use rand::distributions::Alphanumeric;
use rand::{thread_rng, Rng};
use vstd::prelude::*;

verus! {

/// `thread_rng` of the `rand` crate, sampled `len` times with its
/// `Alphanumeric` distribution: `len` characters, each a letter or a digit of
/// ASCII. Which ones is left to chance.
#[verifier::external_body]
pub fn random_str(len: usize) -> (s: String)
    ensures
        s@.len() == len,
        forall|i: int| 0 <= i < s@.len() ==> is_ascii_alnum(#[trigger] s@[i]),
{
    let rng = thread_rng();
    rng.sample_iter(&Alphanumeric).take(len).map(char::from).collect()
}

} // verus!

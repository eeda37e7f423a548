//! Chance.
use rand::seq::SliceRandom;
use vstd::prelude::*;

verus! {

/// `SliceRandom::choose` with `rand::thread_rng`: some item of the list; nothing where it
/// is empty.
#[verifier::external_body]
pub(crate) fn chosen<T>(list: &Vec<T>) -> (r: Option<&T>)
    ensures
        r is None == (list@.len() == 0),
        r is Some ==> list@.contains(*r->0),
{
    list.choose(&mut rand::thread_rng())
}

} // verus!

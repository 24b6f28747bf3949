use crate::messages::{CardID, PriorityAction};
use rand::seq::IndexedRandom;
use rand::seq::SliceRandom;
use vstd::prelude::*;

verus! {

/// Relies on rand's `SliceRandom::shuffle`: permutes the slice in place, so
/// the contents (as a multiset) and the length are preserved. Which
/// permutation comes out depends on the thread's generator, so nothing more
/// can be promised of it.
#[verifier::external_body]
pub fn shuffle_cards(v: &mut Vec<CardID>)
    ensures
        final(v)@.to_multiset() == old(v)@.to_multiset(),
        final(v)@.len() == old(v)@.len(),
{
    v.shuffle(&mut rand::rng());
}

/// Relies on rand's `IndexedRandom::choose`: `Some` of a uniformly sampled
/// element of the slice, `None` exactly when the slice is empty.
#[verifier::external_body]
pub fn choose_action(actions: &Vec<PriorityAction>) -> (r: Option<PriorityAction>)
    ensures
        r is Some <==> actions@.len() > 0,
        r matches Some(a) ==> actions@.contains(a),
{
    actions.choose(&mut rand::rng()).copied()
}

/// Relies on rand's `IndexedRandom::sample`: `min(n, len)` elements of the
/// slice, sampled without repetition; every element of the result is a
/// member of the slice.
#[verifier::external_body]
pub fn choose_cards(cards: &Vec<CardID>, n: usize) -> (r: Vec<CardID>)
    ensures
        r@.len() == if n <= cards@.len() {
            n as int
        } else {
            cards@.len() as int
        },
        forall|i: int| 0 <= i < r@.len() ==> cards@.contains(r@[i]),
{
    cards.sample(&mut rand::rng(), n).cloned().collect()
}

} // verus!

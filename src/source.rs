use vstd::prelude::*;

verus! {

/// Relies on rand::thread_rng and Rng::gen_range: a number drawn from `0..n`. gen_range panics
/// on an empty range, hence `n > 0`.
#[verifier::external_body]
fn random_below(n: usize) -> (r: usize)
    requires
        n > 0,
    ensures
        r < n,
{
    rand::Rng::gen_range(&mut rand::thread_rng(), 0..n)
}

/// Picks the secret word for a game at random among `words`; an empty list gives none.
pub fn pick_word(words: &Vec<String>) -> (r: Option<String>)
    ensures
        r is None <==> words@.len() == 0,
        r matches Some(w) ==> exists|i: int| 0 <= i < words@.len() && w@ == (#[trigger] words@[i])@,
{
    if words.len() == 0 {
        return None;
    }
    let i = random_below(words.len());
    let w = words[i].clone();
    assert(w@ == words@[i as int]@);
    Some(w)
}

} // verus!

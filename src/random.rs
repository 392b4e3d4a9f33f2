//! Random choices: a uniform index, and a file picked with a probability
//! proportional to its size.
use rand::seq::SliceRandom;
use rand::Rng;
use crate::error::FortuneError;
use vstd::prelude::*;

verus! {

/// Relies on rand's `Rng::gen_range` on the thread-local generator: a number in
/// `[0, i)`. The call panics on an empty range, so `i` must be positive.
#[verifier::external_body]
pub fn random(i: usize) -> (r: usize)
    requires
        i > 0,
    ensures
        r < i,
{
    rand::thread_rng().gen_range(0..i)
}

} // verus!

verus! {

/// Sum of all sizes.
pub open spec fn total_size(sizes: Seq<u64>) -> nat
    decreases sizes.len(),
{
    if sizes.len() == 0 {
        0
    } else {
        total_size(sizes.drop_last()) + sizes.last() as nat
    }
}

/// Some size is positive.
pub open spec fn has_positive(sizes: Seq<u64>) -> bool {
    exists|i: int| 0 <= i < sizes.len() && sizes[i] > 0
}

/// Relies on rand's `SliceRandom::choose_weighted` (which builds a `WeightedIndex`):
/// it fails when there is no item or when all weights are zero, and otherwise
/// returns an item drawn with probability weight / total, so never one of weight
/// zero. Summing the weights overflows (and panics) unless the total fits in `u64`.
#[verifier::external_body]
fn choose_weighted_index(sizes: &Vec<u64>) -> (r: Option<usize>)
    requires
        total_size(sizes@) <= u64::MAX,
    ensures
        r is None <==> !has_positive(sizes@),
        r matches Some(i) ==> i < sizes.len() && sizes[i as int] > 0,
{
    let items: Vec<(usize, u64)> = sizes.iter().copied().enumerate().collect();
    items.choose_weighted(&mut rand::thread_rng(), |item| item.1).ok().map(|item| item.0)
}

/// Picks a file uniformly among `n_files`, regardless of size.
pub fn pick_file(n_files: usize) -> (r: Result<usize, FortuneError>)
    ensures
        n_files == 0 <==> r == Err::<usize, FortuneError>(FortuneError::EmptyCorpus),
        n_files > 0 <==> r is Ok,
        r matches Ok(i) ==> i < n_files,
{
    if n_files == 0 {
        Err(FortuneError::EmptyCorpus)
    } else {
        Ok(random(n_files))
    }
}

/// Picks the index of a file with probability proportional to its size. When
/// every file is empty the pick falls back to a uniform one.
pub fn get_random_file_weighted(sizes: &Vec<u64>) -> (r: Result<usize, FortuneError>)
    requires
        total_size(sizes@) <= u64::MAX,
    ensures
        sizes.len() == 0 <==> r == Err::<usize, FortuneError>(FortuneError::EmptyCorpus),
        sizes.len() > 0 <==> r is Ok,
        r matches Ok(i) ==> i < sizes.len() && (has_positive(sizes@) ==> sizes[i as int] > 0),
{
    if sizes.len() == 0 {
        return Err(FortuneError::EmptyCorpus);
    }
    match choose_weighted_index(sizes) {
        Some(i) => Ok(i),
        None => pick_file(sizes.len()),
    }
}

} // verus!

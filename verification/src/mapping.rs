//! From cluster ids back to colours.

use vstd::prelude::*;
use rayon::iter::{IntoParallelRefIterator, ParallelIterator};
use crate::color::Color;

verus! {

/// The place of id `id` among `n` centroids: the id itself, or the last place
/// where the id is beyond it.
pub open spec fn centroid_slot(id: u8, n: int) -> int {
    if id < n {
        id as int
    } else {
        n - 1
    }
}

/// A colour type whose cluster ids can be mapped back to centroids.
pub trait MapColor: Sized {
    /// The centroid of each id, in the order of the ids. An id beyond the
    /// last centroid stands for the last one.
    fn map_indices_to_centroids(centroids: &[Self], indices: &[u8]) -> (mapped: Vec<Self>)
        requires
            indices@.len() > 0 ==> centroids@.len() > 0,
        ensures
            mapped@.len() == indices@.len(),
            forall|i: int|
                0 <= i < indices@.len() ==> #[trigger] mapped@[i] == centroids@[centroid_slot(
                    indices@[i],
                    centroids@.len() as int,
                )],
    ;
}

/// The centroid that id `id` stands for.
pub fn centroid_of(centroids: &[Color], id: u8) -> (c: Color)
    requires
        centroids@.len() > 0,
    ensures
        c == centroids@[centroid_slot(id, centroids@.len() as int)],
{
    if (id as usize) < centroids.len() {
        centroids[id as usize]
    } else {
        centroids[centroids.len() - 1]
    }
}

/// Hands the ids out to rayon's worker threads: `par_iter` on the slice of
/// ids, `map` with `centroid_of`, and `collect` into a `Vec`. On a slice the
/// parallel iterator is indexed, and `collect` then places each result at the
/// index of the item it was made from. `centroid_of` is only run where there
/// is an id, so it finds a centroid.
#[verifier::external_body]
fn map_in_parallel(centroids: &[Color], indices: &[u8]) -> (mapped: Vec<Color>)
    requires
        indices@.len() > 0 ==> centroids@.len() > 0,
    ensures
        mapped@.len() == indices@.len(),
        forall|i: int|
            0 <= i < indices@.len() ==> #[trigger] mapped@[i] == centroids@[centroid_slot(
                indices@[i],
                centroids@.len() as int,
            )],
{
    indices.par_iter().map(|id: &u8| centroid_of(centroids, *id)).collect()
}

impl MapColor for Color {
    fn map_indices_to_centroids(centroids: &[Color], indices: &[u8]) -> (mapped: Vec<Color>) {
        map_in_parallel(centroids, indices)
    }
}

} // verus!

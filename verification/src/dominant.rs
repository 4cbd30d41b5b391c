//! The dominant colour of a clustering: the centroid with the most members.

use vstd::prelude::*;
use crate::color::{Color, MAX_CLUSTERS};
use crate::standard::member_count;

verus! {

/// A centroid with the number of samples that carry its id.
#[derive(Clone, Copy, Debug, PartialEq, Eq, Structural)]
pub struct CentroidData {
    pub centroid: Color,
    pub population: usize,
    pub index: u8,
}

/// Entry `i` has the largest population, and is the last of those that have.
pub open spec fn is_dominant(data: Seq<CentroidData>, i: int) -> bool {
    &&& 0 <= i < data.len()
    &&& forall|j: int| 0 <= j < data.len() ==> (#[trigger] data[j]).population <= data[i].population
    &&& forall|j: int| i < j < data.len() ==> (#[trigger] data[j]).population < data[i].population
}

/// The centroid with the largest population, the last of several; `None`
/// where there is no centroid.
pub fn get_dominant_color(data: &[CentroidData]) -> (dominant: Option<Color>)
    ensures
        data@.len() == 0 <==> dominant is None,
        dominant matches Some(c) ==> exists|i: int| is_dominant(data@, i) && data@[i].centroid == c,
{
    if data.len() == 0 {
        return None;
    }
    let mut best: usize = 0;
    let mut i: usize = 1;
    while i < data.len()
        invariant
            1 <= i <= data@.len(),
            best < i,
            forall|j: int| 0 <= j < i ==> (#[trigger] data@[j]).population <= data@[best as int].population,
            forall|j: int|
                best < j < i ==> (#[trigger] data@[j]).population < data@[best as int].population,
        decreases data@.len() - i,
    {
        if data[i].population >= data[best].population {
            best = i;
        }
        i += 1;
    }
    proof {
        assert(is_dominant(data@, best as int));
    }
    Some(data[best].centroid)
}

/// Each centroid with its population under `indices`, in the order of the
/// centroids.
pub fn populations(centroids: &[Color], indices: &[u8]) -> (data: Vec<CentroidData>)
    requires
        centroids@.len() <= MAX_CLUSTERS,
    ensures
        data@.len() == centroids@.len(),
        forall|id: int|
            0 <= id < data@.len() ==> (#[trigger] data@[id]).centroid == centroids@[id]
                && data@[id].index == id && data@[id].population == member_count(
                indices@,
                id,
                indices@.len() as int,
            ),
{
    let mut data: Vec<CentroidData> = Vec::new();
    let mut id: usize = 0;
    while id < centroids.len()
        invariant
            id <= centroids@.len() <= MAX_CLUSTERS,
            data@.len() == id,
            forall|m: int|
                0 <= m < id ==> (#[trigger] data@[m]).centroid == centroids@[m] && data@[m].index
                    == m && data@[m].population == member_count(
                    indices@,
                    m,
                    indices@.len() as int,
                ),
        decreases centroids@.len() - id,
    {
        let mut count: usize = 0;
        let mut j: usize = 0;
        while j < indices.len()
            invariant
                j <= indices@.len(),
                count <= j,
                count == member_count(indices@, id as int, j as int),
            decreases indices@.len() - j,
        {
            if indices[j] as usize == id {
                count = count + 1;
            }
            j += 1;
        }
        data.push(CentroidData { centroid: centroids[id], population: count, index: id as u8 });
        id += 1;
    }
    data
}

} // verus!

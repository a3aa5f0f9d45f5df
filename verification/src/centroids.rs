//! Centroid sets: how one is first chosen, and when two of them are close
//! enough to stop iterating.

use vstd::prelude::*;
use crate::dataset::{rectangular, vectors, Dataset};
use crate::distance::{
    distance_spec, lemma_distance_non_negative, lemma_floor_sqrt_below, squared_distance,
    squared_distance_spec,
};
use crate::error::KMeansError;

verus! {

/// Two centroid sets of the same size are within `tolerance` of each other:
/// every centroid of `current` is at a distance below `tolerance` from the
/// one of `previous` at the same index.
pub open spec fn converged_spec(
    previous: Seq<Seq<i64>>,
    current: Seq<Seq<i64>>,
    tolerance: nat,
) -> bool {
    forall|i: int|
        0 <= i < previous.len() ==> #[trigger] distance_spec(previous[i], current[i]) < tolerance
}

/// The first `k` observations of the dataset, in order, as the initial
/// centroid set. A dataset with fewer than `k` observations is refused.
pub fn initialize_centroids(data: &Dataset, k: usize) -> (r: Result<Vec<Vec<i64>>, KMeansError>)
    ensures
        data@.len() < k ==> r == Err::<Vec<Vec<i64>>, KMeansError>(KMeansError::InsufficientData),
        data@.len() >= k ==> r is Ok && vectors(r->Ok_0@) == data@.take(k as int),
        r is Ok ==> r->Ok_0@.len() == k && rectangular(vectors(r->Ok_0@), data.width()),
{
    proof {
        use_type_invariant(data);
    }
    if data.len() < k {
        return Err(KMeansError::InsufficientData);
    }
    let mut centroids: Vec<Vec<i64>> = Vec::new();
    let mut i: usize = 0;
    while i < k
        invariant
            i <= k <= data@.len(),
            centroids@.len() == i,
            forall|c: int| 0 <= c < i ==> (#[trigger] centroids@[c])@ == data@[c],
        decreases k - i,
    {
        let point = data.row(i);
        centroids.push(point);
        i = i + 1;
    }
    assert(vectors(centroids@) =~= data@.take(k as int));
    Ok(centroids)
}

/// Whether every centroid moved by less than `tolerance` between `previous`
/// and `current`. One centroid that moved further blocks convergence for the
/// set. A tolerance is a whole number of units, so the rounding of the
/// distance decides nothing: the squared distance is held against the
/// squared tolerance.
pub fn has_converged(
    previous: &Vec<Vec<i64>>,
    current: &Vec<Vec<i64>>,
    tolerance: u64,
) -> (r: bool)
    requires
        previous@.len() == current@.len(),
        forall|i: int|
            0 <= i < previous@.len() ==> (#[trigger] vectors(previous@)[i]).len() == vectors(
                current@,
            )[i].len(),
    ensures
        r == converged_spec(vectors(previous@), vectors(current@), tolerance as nat),
        r == forall|i: int|
            0 <= i < previous@.len() ==> #[trigger] squared_distance_spec(
                vectors(previous@)[i],
                vectors(current@)[i],
            ) < tolerance * tolerance,
{
    let k = previous.len();
    assert(tolerance * tolerance <= u128::MAX) by (nonlinear_arith)
        requires
            0 <= tolerance <= 0xffff_ffff_ffff_ffff,
    ;
    let limit: u128 = (tolerance as u128) * (tolerance as u128);
    let ghost before = vectors(previous@);
    let ghost after = vectors(current@);
    let mut i: usize = 0;
    while i < k
        invariant
            i <= k,
            k == previous@.len(),
            k == current@.len(),
            before == vectors(previous@),
            after == vectors(current@),
            limit == tolerance * tolerance,
            forall|c: int| 0 <= c < k ==> (#[trigger] before[c]).len() == after[c].len(),
            forall|c: int| 0 <= c < i ==> #[trigger] distance_spec(before[c], after[c]) < tolerance,
            forall|c: int|
                0 <= c < i ==> #[trigger] squared_distance_spec(before[c], after[c]) < tolerance
                    * tolerance,
        decreases k - i,
    {
        assert(before[i as int].len() == after[i as int].len());
        let moved = squared_distance(&previous[i], &current[i]);
        proof {
            lemma_floor_sqrt_below(
                squared_distance_spec(before[i as int], after[i as int]) as nat,
                tolerance as nat,
            );
            lemma_distance_non_negative(before[i as int], after[i as int]);
        }
        if moved.high > 0 || moved.low >= limit {
            assert(!(distance_spec(before[i as int], after[i as int]) < tolerance));
            assert(!(squared_distance_spec(before[i as int], after[i as int]) < tolerance
                * tolerance));
            return false;
        }
        i = i + 1;
    }
    true
}

} // verus!

//! The assignment step: each observation is labelled with its nearest
//! centroid.

use vstd::prelude::*;
use crate::dataset::{rectangular, vectors, Dataset};
use crate::distance::{
    distance_spec, lemma_floor_sqrt_monotonic, lemma_squared_distance_range, squared_distance,
    squared_distance_spec,
};

verus! {

/// `best` is the index of the centroid nearest to `point`, and the lowest
/// such index where several centroids are equally near.
pub open spec fn is_nearest(point: Seq<i64>, centroids: Seq<Seq<i64>>, best: int) -> bool {
    &&& 0 <= best < centroids.len()
    &&& forall|j: int|
        0 <= j < centroids.len() ==> squared_distance_spec(point, centroids[best])
            <= squared_distance_spec(point, #[trigger] centroids[j])
    &&& forall|j: int|
        0 <= j < best ==> squared_distance_spec(point, centroids[best]) < squared_distance_spec(
            point,
            #[trigger] centroids[j],
        )
}

/// The index of the centroid nearest to `point`.
pub open spec fn nearest_spec(point: Seq<i64>, centroids: Seq<Seq<i64>>) -> usize {
    choose|best: usize| is_nearest(point, centroids, best as int)
}

/// The label of every observation of `data` under `centroids`.
pub open spec fn assignment_spec(data: Seq<Seq<i64>>, centroids: Seq<Seq<i64>>) -> Seq<usize> {
    Seq::new(data.len(), |i: int| nearest_spec(data[i], centroids))
}

/// No point has two nearest centroids.
pub proof fn lemma_nearest_unique(point: Seq<i64>, centroids: Seq<Seq<i64>>, a: int, b: int)
    requires
        is_nearest(point, centroids, a),
        is_nearest(point, centroids, b),
    ensures
        a == b,
{
    if a < b {
        assert(squared_distance_spec(point, centroids[b]) < squared_distance_spec(
            point,
            centroids[a],
        ));
        assert(squared_distance_spec(point, centroids[a]) <= squared_distance_spec(
            point,
            centroids[b],
        ));
    } else if b < a {
        assert(squared_distance_spec(point, centroids[a]) < squared_distance_spec(
            point,
            centroids[b],
        ));
        assert(squared_distance_spec(point, centroids[b]) <= squared_distance_spec(
            point,
            centroids[a],
        ));
    }
}

/// The nearest centroid is at the least distance: no centroid is at a
/// smaller rounded distance from the point than the one that is nearest by
/// the exact squares.
pub proof fn lemma_nearest_minimises_distance(
    point: Seq<i64>,
    centroids: Seq<Seq<i64>>,
    best: int,
)
    requires
        is_nearest(point, centroids, best),
        rectangular(centroids, point.len()),
    ensures
        forall|j: int|
            0 <= j < centroids.len() ==> distance_spec(point, centroids[best]) <= distance_spec(
                point,
                #[trigger] centroids[j],
            ),
{
    assert forall|j: int| 0 <= j < centroids.len() implies distance_spec(point, centroids[best])
        <= distance_spec(point, #[trigger] centroids[j]) by {
        lemma_squared_distance_range(point, centroids[best]);
        lemma_squared_distance_range(point, centroids[j]);
        lemma_floor_sqrt_monotonic(
            squared_distance_spec(point, centroids[best]) as nat,
            squared_distance_spec(point, centroids[j]) as nat,
        );
    }
}

/// Among the first `upto` centroids there is one nearest to `point` that no
/// earlier centroid equals in distance.
proof fn lemma_first_minimum(point: Seq<i64>, centroids: Seq<Seq<i64>>, upto: int) -> (best: int)
    requires
        1 <= upto <= centroids.len(),
    ensures
        is_nearest(point, centroids.take(upto), best),
    decreases upto,
{
    let prefix = centroids.take(upto);
    if upto == 1 {
        0
    } else {
        let earlier = lemma_first_minimum(point, centroids, upto - 1);
        let shorter = centroids.take(upto - 1);
        assert forall|j: int| 0 <= j < upto - 1 implies #[trigger] prefix[j] == shorter[j] by {}
        let best = if squared_distance_spec(point, centroids[upto - 1]) < squared_distance_spec(
            point,
            centroids[earlier],
        ) {
            upto - 1
        } else {
            earlier
        };
        assert forall|j: int| 0 <= j < upto implies squared_distance_spec(point, prefix[best])
            <= squared_distance_spec(point, #[trigger] prefix[j]) by {
            if j < upto - 1 {
                assert(squared_distance_spec(point, shorter[earlier]) <= squared_distance_spec(
                    point,
                    shorter[j],
                ));
            }
        }
        assert forall|j: int| 0 <= j < best implies squared_distance_spec(point, prefix[best])
            < squared_distance_spec(point, #[trigger] prefix[j]) by {
            if j < earlier {
                assert(squared_distance_spec(point, shorter[earlier]) < squared_distance_spec(
                    point,
                    shorter[j],
                ));
            } else {
                assert(squared_distance_spec(point, shorter[earlier]) <= squared_distance_spec(
                    point,
                    shorter[j],
                ));
            }
        }
        best
    }
}

/// Every point has a nearest centroid in a set that is not empty.
pub proof fn lemma_nearest_exists(point: Seq<i64>, centroids: Seq<Seq<i64>>)
    requires
        1 <= centroids.len() <= usize::MAX,
    ensures
        is_nearest(point, centroids, nearest_spec(point, centroids) as int),
{
    let best = lemma_first_minimum(point, centroids, centroids.len() as int);
    assert(centroids.take(centroids.len() as int) =~= centroids);
    assert(is_nearest(point, centroids, (best as usize) as int));
}

/// An assignment has one label for each observation, and every label names
/// one of the centroids.
pub proof fn lemma_assignment_in_range(data: Seq<Seq<i64>>, centroids: Seq<Seq<i64>>)
    requires
        1 <= centroids.len() <= usize::MAX,
    ensures
        assignment_spec(data, centroids).len() == data.len(),
        forall|i: int|
            0 <= i < data.len() ==> #[trigger] assignment_spec(data, centroids)[i]
                < centroids.len(),
{
    assert forall|i: int| 0 <= i < data.len() implies #[trigger] assignment_spec(
        data,
        centroids,
    )[i] < centroids.len() by {
        lemma_nearest_exists(data[i], centroids);
    }
}

/// The index of the centroid nearest to `point`; among equally near
/// centroids, the first.
pub fn find_closest_centroid(point: &Vec<i64>, centroids: &Vec<Vec<i64>>) -> (best: usize)
    requires
        centroids@.len() >= 1,
        rectangular(vectors(centroids@), point@.len()),
    ensures
        is_nearest(point@, vectors(centroids@), best as int),
        best == nearest_spec(point@, vectors(centroids@)),
        forall|j: int|
            0 <= j < centroids@.len() ==> distance_spec(point@, vectors(centroids@)[best as int])
                <= distance_spec(point@, #[trigger] vectors(centroids@)[j]),
{
    let k = centroids.len();
    let ghost set = vectors(centroids@);
    assert(set[0].len() == point@.len());
    let mut best: usize = 0;
    let mut least = squared_distance(point, &centroids[0]);
    let mut j: usize = 1;
    while j < k
        invariant
            1 <= j <= k,
            k == centroids@.len(),
            set == vectors(centroids@),
            rectangular(set, point@.len()),
            best < j,
            least.value() == squared_distance_spec(point@, set[best as int]),
            forall|m: int|
                0 <= m < j ==> least.value() <= squared_distance_spec(point@, #[trigger] set[m]),
            forall|m: int|
                0 <= m < best ==> least.value() < squared_distance_spec(point@, #[trigger] set[m]),
        decreases k - j,
    {
        assert(set[j as int].len() == point@.len());
        let gap = squared_distance(point, &centroids[j]);
        if gap.less_than(&least) {
            best = j;
            least = gap;
        }
        j = j + 1;
    }
    proof {
        assert(is_nearest(point@, set, best as int));
        let chosen = nearest_spec(point@, set);
        lemma_nearest_unique(point@, set, best as int, chosen as int);
        lemma_nearest_minimises_distance(point@, set, best as int);
    }
    best
}

/// Overwrites `labels` so that each observation carries the index of its
/// nearest centroid.
pub fn assign_labels(data: &Dataset, centroids: &Vec<Vec<i64>>, labels: &mut Vec<usize>)
    requires
        centroids@.len() >= 1,
        rectangular(vectors(centroids@), data.width()),
        old(labels)@.len() == data@.len(),
    ensures
        final(labels)@ == assignment_spec(data@, vectors(centroids@)),
        final(labels)@.len() == data@.len(),
        forall|i: int| 0 <= i < data@.len() ==> #[trigger] final(labels)@[i] < centroids@.len(),
        forall|i: int|
            0 <= i < data@.len() ==> is_nearest(
                data@[i],
                vectors(centroids@),
                #[trigger] final(labels)@[i] as int,
            ),
{
    proof {
        use_type_invariant(data);
    }
    let n = data.len();
    let mut i: usize = 0;
    while i < n
        invariant
            data.wf(),
            centroids@.len() >= 1,
            rectangular(vectors(centroids@), data.width()),
            i <= n,
            n == data@.len(),
            labels@.len() == n,
            forall|m: int|
                0 <= m < i ==> is_nearest(data@[m], vectors(centroids@), #[trigger] labels@[m] as int)
                    && labels@[m] == nearest_spec(data@[m], vectors(centroids@)),
        decreases n - i,
    {
        let point = data.row(i);
        assert(data@[i as int].len() == data.width());
        let label = find_closest_centroid(&point, centroids);
        labels.set(i, label);
        i = i + 1;
    }
    assert(labels@ =~= assignment_spec(data@, vectors(centroids@)));
}

} // verus!

//! The centroid update: every centroid becomes the mean of the observations
//! that carry its label.

use vstd::prelude::*;
use vstd::arithmetic::div_mod::{
    lemma_div_is_ordered, lemma_div_multiples_vanish, lemma_hoist_over_denominator,
};
use crate::dataset::{rectangular, vectors, Dataset};

verus! {

/// How many of `labels` are `cluster`.
pub open spec fn cluster_count(labels: Seq<usize>, cluster: int) -> nat
    decreases labels.len(),
{
    if labels.len() == 0 {
        0
    } else {
        cluster_count(labels.drop_last(), cluster) + if labels.last() == cluster {
            1nat
        } else {
            0nat
        }
    }
}

/// The sum of coordinate `axis` over the observations labelled `cluster`.
pub open spec fn cluster_sum(data: Seq<Seq<i64>>, labels: Seq<usize>, cluster: int, axis: int) -> int
    recommends
        data.len() == labels.len(),
    decreases data.len(),
{
    if data.len() == 0 {
        0
    } else {
        cluster_sum(data.drop_last(), labels.drop_last(), cluster, axis) + if labels.last()
            == cluster {
            data.last()[axis] as int
        } else {
            0int
        }
    }
}

/// Coordinate `axis` of the centroid of `cluster`: the mean of the members'
/// coordinates, rounded down to a whole unit, and zero for a cluster without
/// members.
pub open spec fn cluster_mean(data: Seq<Seq<i64>>, labels: Seq<usize>, cluster: int, axis: int) -> int
    recommends
        data.len() == labels.len(),
{
    let members = cluster_count(labels, cluster);
    if members == 0 {
        0
    } else {
        cluster_sum(data, labels, cluster, axis) / (members as int)
    }
}

/// The centroid set of `k` centroids of `dim` coordinates that `labels`
/// gives to `data`.
pub open spec fn update_spec(data: Seq<Seq<i64>>, labels: Seq<usize>, k: nat, dim: nat) -> Seq<
    Seq<i64>,
> {
    Seq::new(
        k,
        |cluster: int| Seq::new(dim, |axis: int| cluster_mean(data, labels, cluster, axis) as i64),
    )
}

/// A cluster has no more members than there are labels.
pub proof fn lemma_cluster_count_bound(labels: Seq<usize>, cluster: int)
    ensures
        cluster_count(labels, cluster) <= labels.len(),
    decreases labels.len(),
{
    if labels.len() > 0 {
        lemma_cluster_count_bound(labels.drop_last(), cluster);
    }
}

/// A cluster's sum lies between its member count times the least and times
/// the greatest value of a coordinate.
pub proof fn lemma_cluster_sum_bounds(
    data: Seq<Seq<i64>>,
    labels: Seq<usize>,
    cluster: int,
    axis: int,
)
    requires
        data.len() == labels.len(),
    ensures
        i64::MIN * cluster_count(labels, cluster) <= cluster_sum(data, labels, cluster, axis)
            <= i64::MAX * cluster_count(labels, cluster),
    decreases data.len(),
{
    if data.len() > 0 {
        lemma_cluster_sum_bounds(data.drop_last(), labels.drop_last(), cluster, axis);
        let before = cluster_count(labels.drop_last(), cluster);
        assert(i64::MIN * (before + 1) == i64::MIN * before + i64::MIN) by (nonlinear_arith);
        assert(i64::MAX * (before + 1) == i64::MAX * before + i64::MAX) by (nonlinear_arith);
    }
}

/// A mean of `i64` coordinates is itself an `i64`: no centroid leaves the
/// grid of the observations.
pub proof fn lemma_cluster_mean_range(
    data: Seq<Seq<i64>>,
    labels: Seq<usize>,
    cluster: int,
    axis: int,
)
    requires
        data.len() == labels.len(),
    ensures
        i64::MIN <= cluster_mean(data, labels, cluster, axis) <= i64::MAX,
{
    let members = cluster_count(labels, cluster) as int;
    if members > 0 {
        let total = cluster_sum(data, labels, cluster, axis);
        lemma_cluster_sum_bounds(data, labels, cluster, axis);
        lemma_div_is_ordered(i64::MIN * members, total, members);
        lemma_div_is_ordered(total, i64::MAX * members, members);
        assert(i64::MIN * members == members * i64::MIN) by (nonlinear_arith);
        assert(i64::MAX * members == members * i64::MAX) by (nonlinear_arith);
        lemma_div_multiples_vanish(i64::MIN as int, members);
        lemma_div_multiples_vanish(i64::MAX as int, members);
    }
}

/// A cluster without members gets the all-zero centroid.
pub proof fn lemma_empty_cluster_is_zero(
    data: Seq<Seq<i64>>,
    labels: Seq<usize>,
    k: nat,
    dim: nat,
    cluster: int,
)
    requires
        0 <= cluster < k,
        cluster_count(labels, cluster) == 0,
    ensures
        update_spec(data, labels, k, dim)[cluster] == Seq::new(dim, |axis: int| 0i64),
{
    assert(update_spec(data, labels, k, dim)[cluster] =~= Seq::new(dim, |axis: int| 0i64));
}

/// `total / members`, rounded down.
fn floor_mean(total: i128, members: usize) -> (mean: i64)
    requires
        members >= 1,
        i64::MIN * members <= total <= i64::MAX * members,
    ensures
        mean == (total as int) / (members as int),
{
    let count: u128 = members as u128;
    assert(0x8000_0000_0000_0000 * count <= 0x8000_0000_0000_0000 * 0xffff_ffff_ffff_ffff
        && -0x8000_0000_0000_0000 * count <= total <= 0x7fff_ffff_ffff_ffff * count
        && 0x8000_0000_0000_0000 * count + 0x7fff_ffff_ffff_ffff * count == 0xffff_ffff_ffff_ffff
        * count && 0xffff_ffff_ffff_ffff * count <= 0xffff_ffff_ffff_ffff * 0xffff_ffff_ffff_ffff)
        by (nonlinear_arith)
        requires
            1 <= count <= 0xffff_ffff_ffff_ffff,
            -0x8000_0000_0000_0000 * count <= total <= 0x7fff_ffff_ffff_ffff * count,
    ;
    let offset: u128 = 0x8000_0000_0000_0000 * count;
    let lifted: u128 = if total >= 0 {
        offset + total as u128
    } else {
        offset - ((-total) as u128)
    };
    let quotient: u128 = lifted / count;
    proof {
        assert(lifted == total + 0x8000_0000_0000_0000 * members);
        lemma_hoist_over_denominator(total as int, 0x8000_0000_0000_0000, members as nat);
        assert(quotient == (total as int) / (members as int) + 0x8000_0000_0000_0000);
        lemma_div_is_ordered(lifted as int, 0xffff_ffff_ffff_ffff * count, count as int);
        assert(0xffff_ffff_ffff_ffff * count == count * 0xffff_ffff_ffff_ffff)
            by (nonlinear_arith);
        lemma_div_multiples_vanish(0xffff_ffff_ffff_ffff, count as int);
        assert(quotient <= 0xffff_ffff_ffff_ffff);
    }
    (quotient as i128 - 0x8000_0000_0000_0000) as i64
}

/// `sums` with the coordinates of `point` added, each to its own.
fn add_point(sums: &Vec<i128>, point: &Vec<i64>) -> (r: Vec<i128>)
    requires
        sums@.len() == point@.len(),
        forall|j: int|
            0 <= j < sums@.len() ==> i128::MIN - i64::MIN <= #[trigger] sums@[j] <= i128::MAX
                - i64::MAX,
    ensures
        r@.len() == sums@.len(),
        forall|j: int| 0 <= j < sums@.len() ==> #[trigger] r@[j] == sums@[j] + point@[j],
{
    let d = sums.len();
    let mut r: Vec<i128> = Vec::new();
    let mut j: usize = 0;
    while j < d
        invariant
            j <= d,
            d == sums@.len(),
            d == point@.len(),
            r@.len() == j,
            forall|m: int|
                0 <= m < d ==> i128::MIN - i64::MIN <= #[trigger] sums@[m] <= i128::MAX
                    - i64::MAX,
            forall|m: int| 0 <= m < j ==> #[trigger] r@[m] == sums@[m] + point@[m],
        decreases d - j,
    {
        r.push(sums[j] + point[j] as i128);
        j = j + 1;
    }
    r
}

/// A vector of `len` zeros.
fn zeros(len: usize) -> (r: Vec<i128>)
    ensures
        r@.len() == len,
        forall|j: int| 0 <= j < len ==> #[trigger] r@[j] == 0,
{
    let mut r: Vec<i128> = Vec::new();
    let mut j: usize = 0;
    while j < len
        invariant
            j <= len,
            r@.len() == j,
            forall|m: int| 0 <= m < j ==> #[trigger] r@[m] == 0,
        decreases len - j,
    {
        r.push(0);
        j = j + 1;
    }
    r
}

/// The centroid set that the labels give: centroid `c` is the mean, rounded
/// down coordinate by coordinate, of the observations labelled `c`, and the
/// all-zero vector where no observation is.
pub fn recompute_centroids(data: &Dataset, labels: &Vec<usize>, k: usize) -> (r: Vec<Vec<i64>>)
    requires
        labels@.len() == data@.len(),
        forall|i: int| 0 <= i < labels@.len() ==> #[trigger] labels@[i] < k,
    ensures
        vectors(r@) == update_spec(data@, labels@, k as nat, data.width()),
        r@.len() == k,
        rectangular(vectors(r@), data.width()),
        forall|c: int, j: int|
            0 <= c < k && 0 <= j < data.width() ==> #[trigger] r@[c]@[j] == cluster_mean(
                data@,
                labels@,
                c,
                j,
            ),
        forall|c: int, j: int|
            0 <= c < k && 0 <= j < data.width() && cluster_count(labels@, c) == 0
                ==> #[trigger] r@[c]@[j] == 0,
{
    proof {
        use_type_invariant(data);
    }
    let n = data.len();
    let d = data.dim();
    let mut sums: Vec<Vec<i128>> = Vec::new();
    let mut counts: Vec<usize> = Vec::new();
    let mut c: usize = 0;
    while c < k
        invariant
            c <= k,
            sums@.len() == c,
            counts@.len() == c,
            forall|m: int| 0 <= m < c ==> (#[trigger] sums@[m])@.len() == d,
            forall|m: int, j: int| 0 <= m < c && 0 <= j < d ==> #[trigger] sums@[m]@[j] == 0,
            forall|m: int| 0 <= m < c ==> #[trigger] counts@[m] == 0,
        decreases k - c,
    {
        sums.push(zeros(d));
        counts.push(0);
        c = c + 1;
    }
    let mut i: usize = 0;
    while i < n
        invariant
            data.wf(),
            d == data.width(),
            n == data@.len(),
            n == labels@.len(),
            i <= n,
            forall|m: int| 0 <= m < labels@.len() ==> #[trigger] labels@[m] < k,
            sums@.len() == k,
            counts@.len() == k,
            forall|m: int| 0 <= m < k ==> (#[trigger] sums@[m])@.len() == d,
            forall|m: int, j: int|
                0 <= m < k && 0 <= j < d ==> #[trigger] sums@[m]@[j] == cluster_sum(
                    data@.take(i as int),
                    labels@.take(i as int),
                    m,
                    j,
                ),
            forall|m: int|
                0 <= m < k ==> #[trigger] counts@[m] == cluster_count(labels@.take(i as int), m),
        decreases n - i,
    {
        let point = data.row(i);
        let cluster = labels[i];
        proof {
            assert(data@[i as int].len() == d);
            assert(data@.take(i + 1).drop_last() =~= data@.take(i as int));
            assert(labels@.take(i + 1).drop_last() =~= labels@.take(i as int));
            lemma_cluster_count_bound(labels@.take(i as int), cluster as int);
            assert forall|j: int| 0 <= j < d implies i128::MIN - i64::MIN <= #[trigger] sums@[cluster as int]@[j]
                <= i128::MAX - i64::MAX by {
                lemma_cluster_sum_bounds(
                    data@.take(i as int),
                    labels@.take(i as int),
                    cluster as int,
                    j,
                );
                let members = cluster_count(labels@.take(i as int), cluster as int);
                assert(-0x8000_0000_0000_0000 * 0xffff_ffff_ffff_ffff <= i64::MIN * members
                    && i64::MAX * members <= 0x7fff_ffff_ffff_ffff * 0xffff_ffff_ffff_ffff)
                    by (nonlinear_arith)
                    requires
                        0 <= members <= 0xffff_ffff_ffff_ffff,
                ;
            }
        }
        let grown = add_point(&sums[cluster], &point);
        let members = counts[cluster] + 1;
        sums.set(cluster, grown);
        counts.set(cluster, members);
        i = i + 1;
    }
    proof {
        assert(data@.take(n as int) =~= data@);
        assert(labels@.take(n as int) =~= labels@);
    }
    let mut centroids: Vec<Vec<i64>> = Vec::new();
    let mut c: usize = 0;
    while c < k
        invariant
            c <= k,
            n == data@.len(),
            n == labels@.len(),
            sums@.len() == k,
            counts@.len() == k,
            centroids@.len() == c,
            forall|m: int| 0 <= m < k ==> (#[trigger] sums@[m])@.len() == d,
            forall|m: int, j: int|
                0 <= m < k && 0 <= j < d ==> #[trigger] sums@[m]@[j] == cluster_sum(
                    data@,
                    labels@,
                    m,
                    j,
                ),
            forall|m: int| 0 <= m < k ==> #[trigger] counts@[m] == cluster_count(labels@, m),
            forall|m: int| 0 <= m < c ==> (#[trigger] centroids@[m])@.len() == d,
            forall|m: int, j: int|
                0 <= m < c && 0 <= j < d ==> #[trigger] centroids@[m]@[j] == cluster_mean(
                    data@,
                    labels@,
                    m,
                    j,
                ),
        decreases k - c,
    {
        let members = counts[c];
        let mut centroid: Vec<i64> = Vec::new();
        let mut j: usize = 0;
        while j < d
            invariant
                j <= d,
                c < k,
                n == data@.len(),
                n == labels@.len(),
                sums@.len() == k,
                sums@[c as int]@.len() == d,
                members == cluster_count(labels@, c as int),
                forall|a: int|
                    0 <= a < d ==> #[trigger] sums@[c as int]@[a] == cluster_sum(
                        data@,
                        labels@,
                        c as int,
                        a,
                    ),
                centroid@.len() == j,
                forall|a: int|
                    0 <= a < j ==> #[trigger] centroid@[a] == cluster_mean(
                        data@,
                        labels@,
                        c as int,
                        a,
                    ),
            decreases d - j,
        {
            let mean: i64 = if members == 0 {
                0
            } else {
                proof {
                    lemma_cluster_sum_bounds(data@, labels@, c as int, j as int);
                }
                floor_mean(sums[c][j], members)
            };
            centroid.push(mean);
            j = j + 1;
        }
        centroids.push(centroid);
        c = c + 1;
    }
    proof {
        assert forall|m: int| 0 <= m < k implies #[trigger] vectors(centroids@)[m] =~= update_spec(
            data@,
            labels@,
            k as nat,
            d as nat,
        )[m] by {
            assert forall|j: int| 0 <= j < d implies vectors(centroids@)[m][j] == update_spec(
                data@,
                labels@,
                k as nat,
                d as nat,
            )[m][j] by {
                lemma_cluster_mean_range(data@, labels@, m, j);
            }
        }
        assert(vectors(centroids@) =~= update_spec(data@, labels@, k as nat, d as nat));
    }
    centroids
}

} // verus!

//! The iteration driver: initialise, then assign, update and test for
//! convergence until the centroids settle or the budget of rounds is spent.

use vstd::prelude::*;
use crate::assign::{assign_labels, assignment_spec};
use crate::centroids::{converged_spec, has_converged, initialize_centroids};
use crate::dataset::{rectangular, vectors, Dataset};
use crate::distance::{distance_spec, lemma_distance_to_self, lemma_distance_zero_iff_equal};
use crate::error::KMeansError;
use crate::update::{cluster_count, recompute_centroids, update_spec};

verus! {

/// How a run ended.
#[derive(Clone, Copy, Debug, PartialEq, Eq, Structural)]
pub enum Termination {
    /// The last round moved every centroid by less than the tolerance.
    Converged,
    /// The budget of rounds was spent before the centroids settled. The
    /// result is usable, but not a fixed point.
    IterationLimitReached,
}

/// The result of a run: the final centroid set, and the label of every
/// observation, in the order of the dataset.
#[derive(Debug)]
pub struct Clustering {
    pub centroids: Vec<Vec<i64>>,
    pub labels: Vec<usize>,
    pub termination: Termination,
    /// The number of rounds that were run.
    pub iterations: usize,
}

/// The centroid set after `rounds` rounds: the first `k` observations, then
/// one assignment and one update for each round.
pub open spec fn centroids_after(data: Seq<Seq<i64>>, k: nat, dim: nat, rounds: nat) -> Seq<
    Seq<i64>,
>
    decreases rounds,
{
    if rounds == 0 {
        data.take(k as int)
    } else {
        update_spec(
            data,
            assignment_spec(data, centroids_after(data, k, dim, (rounds - 1) as nat)),
            k,
            dim,
        )
    }
}

/// The labels that round `round` assigns: those under the centroids that the
/// round started from.
pub open spec fn labels_after(data: Seq<Seq<i64>>, k: nat, dim: nat, round: nat) -> Seq<usize>
    recommends
        round >= 1,
{
    assignment_spec(data, centroids_after(data, k, dim, (round - 1) as nat))
}

/// Round `round` moved every centroid by less than `tolerance`.
pub open spec fn settled_at(
    data: Seq<Seq<i64>>,
    k: nat,
    dim: nat,
    tolerance: nat,
    round: nat,
) -> bool
    recommends
        round >= 1,
{
    converged_spec(
        centroids_after(data, k, dim, (round - 1) as nat),
        centroids_after(data, k, dim, round),
        tolerance,
    )
}

/// The error, if any, with which a run is refused. Parameters are judged
/// before the size of the dataset.
pub open spec fn run_error(n: nat, k: usize, max_iterations: usize, tolerance: u64) -> Option<
    KMeansError,
> {
    if k == 0 || max_iterations == 0 || tolerance == 0 {
        Some(KMeansError::InvalidParameter)
    } else if n < k {
        Some(KMeansError::InsufficientData)
    } else {
        None
    }
}

/// `result` is what a run on `data` returns: it stopped at the first round
/// that settled, or at the last round of the budget if none did, and holds
/// the centroids and labels of that round.
pub open spec fn is_run_of(
    result: Clustering,
    data: Seq<Seq<i64>>,
    k: nat,
    dim: nat,
    max_iterations: nat,
    tolerance: nat,
) -> bool {
    let rounds = result.iterations as nat;
    &&& 1 <= rounds <= max_iterations
    &&& forall|earlier: nat| 1 <= earlier < rounds ==> !settled_at(data, k, dim, tolerance, earlier)
    &&& result.termination == Termination::Converged <==> settled_at(
        data,
        k,
        dim,
        tolerance,
        rounds,
    )
    &&& result.termination == Termination::IterationLimitReached ==> rounds == max_iterations
    &&& vectors(result.centroids@) == centroids_after(data, k, dim, rounds)
    &&& result.labels@ == labels_after(data, k, dim, rounds)
}

/// Every centroid set of a run has `k` centroids of `dim` coordinates.
pub proof fn lemma_centroids_shape(data: Seq<Seq<i64>>, k: nat, dim: nat, rounds: nat)
    requires
        rectangular(data, dim),
        k <= data.len(),
    ensures
        centroids_after(data, k, dim, rounds).len() == k,
        rectangular(centroids_after(data, k, dim, rounds), dim),
{
}

/// A run has one result: two results of the same request agree on the
/// centroids, the labels, the number of rounds and the way it ended.
pub proof fn lemma_run_is_deterministic(
    first: Clustering,
    second: Clustering,
    data: Seq<Seq<i64>>,
    k: nat,
    dim: nat,
    max_iterations: nat,
    tolerance: nat,
)
    requires
        is_run_of(first, data, k, dim, max_iterations, tolerance),
        is_run_of(second, data, k, dim, max_iterations, tolerance),
    ensures
        first.iterations == second.iterations,
        first.termination == second.termination,
        vectors(first.centroids@) == vectors(second.centroids@),
        first.labels@ == second.labels@,
{
    let a = first.iterations as nat;
    let b = second.iterations as nat;
    if a < b {
        assert(!settled_at(data, k, dim, tolerance, a));
    } else if b < a {
        assert(!settled_at(data, k, dim, tolerance, b));
    }
}

/// A settled round is a fixed point where the labels no longer change, and
/// always at the finest tolerance of one unit: a further assignment and
/// update reproduce the same centroid set.
pub proof fn lemma_settled_is_fixed_point(
    data: Seq<Seq<i64>>,
    k: nat,
    dim: nat,
    tolerance: nat,
    round: nat,
)
    requires
        rectangular(data, dim),
        k <= data.len(),
        round >= 1,
        tolerance >= 1,
        settled_at(data, k, dim, tolerance, round),
        tolerance == 1 || labels_after(data, k, dim, round + 1) == labels_after(
            data,
            k,
            dim,
            round,
        ),
    ensures
        centroids_after(data, k, dim, round + 1) == centroids_after(data, k, dim, round),
        settled_at(data, k, dim, tolerance, round + 1),
{
    let before = centroids_after(data, k, dim, (round - 1) as nat);
    let now = centroids_after(data, k, dim, round);
    lemma_centroids_shape(data, k, dim, (round - 1) as nat);
    lemma_centroids_shape(data, k, dim, round);
    if tolerance == 1 {
        assert forall|c: int| 0 <= c < k implies before[c] == now[c] by {
            assert(distance_spec(before[c], now[c]) < 1);
            lemma_distance_zero_iff_equal(before[c], now[c]);
        }
        assert(before =~= now);
    }
    assert(centroids_after(data, k, dim, round + 1) == now);
    assert forall|c: int| 0 <= c < now.len() implies #[trigger] distance_spec(
        now[c],
        now[c],
    ) < tolerance by {
        lemma_distance_to_self(now[c]);
    }
}

/// A cluster that a round leaves without members has the all-zero vector as
/// its centroid after that round, whatever its centroid was before.
pub proof fn lemma_emptied_cluster_is_zero(
    data: Seq<Seq<i64>>,
    k: nat,
    dim: nat,
    round: nat,
    cluster: int,
)
    requires
        round >= 1,
        0 <= cluster < k,
        cluster_count(labels_after(data, k, dim, round), cluster) == 0,
    ensures
        centroids_after(data, k, dim, round)[cluster] == Seq::new(dim, |axis: int| 0i64),
{
    assert(centroids_after(data, k, dim, round)[cluster] =~= Seq::new(dim, |axis: int| 0i64));
}

/// A vector of `len` labels, all zero.
fn zero_labels(len: usize) -> (r: Vec<usize>)
    ensures
        r@.len() == len,
        forall|i: int| 0 <= i < len ==> #[trigger] r@[i] == 0,
{
    let mut r: Vec<usize> = Vec::new();
    let mut i: usize = 0;
    while i < len
        invariant
            i <= len,
            r@.len() == i,
            forall|m: int| 0 <= m < i ==> #[trigger] r@[m] == 0,
        decreases len - i,
    {
        r.push(0);
        i = i + 1;
    }
    r
}

/// Clusters `data` into `k` groups by Lloyd's algorithm, starting from the
/// first `k` observations and running at most `max_iterations` rounds. A
/// round that moves every centroid by less than `tolerance` ends the run as
/// converged.
pub fn kmeans(data: &Dataset, k: usize, max_iterations: usize, tolerance: u64) -> (r: Result<
    Clustering,
    KMeansError,
>)
    ensures
        match run_error(data@.len(), k, max_iterations, tolerance) {
            Some(e) => r == Err::<Clustering, KMeansError>(e),
            None => {
                &&& r is Ok
                &&& is_run_of(
                    r->Ok_0,
                    data@,
                    k as nat,
                    data.width(),
                    max_iterations as nat,
                    tolerance as nat,
                )
                &&& r->Ok_0.centroids@.len() == k
                &&& rectangular(vectors(r->Ok_0.centroids@), data.width())
                &&& r->Ok_0.labels@.len() == data@.len()
                &&& forall|i: int| 0 <= i < data@.len() ==> #[trigger] r->Ok_0.labels@[i] < k
            },
        },
{
    proof {
        use_type_invariant(data);
    }
    if k == 0 || max_iterations == 0 || tolerance == 0 {
        return Err(KMeansError::InvalidParameter);
    }
    let mut centroids = match initialize_centroids(data, k) {
        Ok(first) => first,
        Err(e) => {
            return Err(e);
        },
    };
    let mut labels = zero_labels(data.len());
    let mut round: usize = 0;
    let ghost rows = data@;
    let ghost dim = data.width();
    loop
        invariant
            data.wf(),
            rows == data@,
            dim == data.width(),
            1 <= k <= rows.len(),
            tolerance >= 1,
            round < max_iterations,
            labels@.len() == rows.len(),
            centroids@.len() == k,
            rectangular(vectors(centroids@), dim),
            vectors(centroids@) == centroids_after(rows, k as nat, dim, round as nat),
            forall|earlier: nat|
                1 <= earlier <= round ==> !settled_at(rows, k as nat, dim, tolerance as nat, earlier),
        decreases max_iterations - round,
    {
        assign_labels(data, &centroids, &mut labels);
        let candidate = recompute_centroids(data, &labels, k);
        let settled = has_converged(&centroids, &candidate, tolerance);
        round = round + 1;
        centroids = candidate;
        if settled {
            return Ok(
                Clustering { centroids, labels, termination: Termination::Converged, iterations: round },
            );
        }
        if round == max_iterations {
            return Ok(
                Clustering {
                    centroids,
                    labels,
                    termination: Termination::IterationLimitReached,
                    iterations: round,
                },
            );
        }
    }
}

} // verus!

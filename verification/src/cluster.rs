//! Assignment of the occupied bins to their nearest centroids, round by
//! round.
//!
//! Before each round the caller measures, for every occupied bin, the squared
//! distance from the bin's mean colour to each centroid as it then is, and
//! hands the measurements over as single-precision bit patterns. A bin
//! belongs to the centroid with the least distance, the first of them where
//! several are equally near. After the round the caller moves each centroid
//! to the mean colour of its cluster.

use crate::histogram::{
    lemma_weight_sum_of_zeros, lemma_weight_sum_raise, weight_sum, Histogram, HISTOGRAM_SIZE,
};
use crate::order::{order_key, order_rank};
use vstd::prelude::*;

verus! {

/// Whether `centroid` is the nearest in a row of distances: none is less, and
/// every one before it is greater.
pub open spec fn is_nearest(row: Seq<u32>, centroid: int) -> bool {
    &&& 0 <= centroid < row.len()
    &&& forall|other: int|
        0 <= other < row.len() ==> order_rank(row[centroid]) <= order_rank(#[trigger] row[other])
    &&& forall|other: int|
        0 <= other < centroid ==> order_rank(row[centroid]) < order_rank(#[trigger] row[other])
}

/// A sequence of indices as integers.
pub open spec fn as_ints(indices: Seq<usize>) -> Seq<int> {
    Seq::new(indices.len(), |at: int| indices[at] as int)
}

/// The rows of a table of distances, one for each bin.
pub open spec fn table_of(distances: Seq<Vec<u32>>) -> Seq<Seq<u32>> {
    Seq::new(distances.len(), |bin: int| distances[bin]@)
}

/// Whether a table has a row for each bin, and in the row of every occupied
/// bin one distance for each of the `centroids`.
pub open spec fn table_fits(weights: Seq<nat>, table: Seq<Seq<u32>>, centroids: int) -> bool {
    &&& table.len() == HISTOGRAM_SIZE
    &&& forall|bin: int|
        0 <= bin < HISTOGRAM_SIZE && weights[bin] > 0 ==> (#[trigger] table[bin]).len() == centroids
}

/// Whether a bin takes part in a round: it is occupied, and there is a
/// centroid to go to.
pub open spec fn takes_part(weights: Seq<nat>, table: Seq<Seq<u32>>, bin: int) -> bool {
    weights[bin] > 0 && table[bin].len() > 0
}

/// Whether `after` is what one round of assignment makes of `before`: every
/// occupied bin goes to its nearest centroid, every other bin stays. Without a
/// centroid every bin stays.
pub open spec fn reassigned(
    weights: Seq<nat>,
    table: Seq<Seq<u32>>,
    before: Seq<int>,
    after: Seq<int>,
) -> bool {
    &&& after.len() == HISTOGRAM_SIZE
    &&& forall|bin: int|
        0 <= bin < HISTOGRAM_SIZE ==> if takes_part(weights, table, bin) {
            is_nearest(table[bin], #[trigger] after[bin])
        } else {
            after[bin] == before[bin]
        }
}

/// The assignment before the first round: every bin with the first centroid.
pub open spec fn unassigned() -> Seq<int> {
    Seq::new(HISTOGRAM_SIZE as nat, |bin: int| 0int)
}

/// How many of the first `n` bins are occupied and changed their centroid.
pub open spec fn changed_among(weights: Seq<nat>, before: Seq<int>, after: Seq<int>, n: int) -> nat
    decreases n,
{
    if n <= 0 {
        0
    } else {
        changed_among(weights, before, after, n - 1) + if weights[n - 1] > 0 && before[n - 1]
            != after[n - 1] {
            1nat
        } else {
            0nat
        }
    }
}

/// How many occupied bins changed their centroid.
pub open spec fn changed(weights: Seq<nat>, before: Seq<int>, after: Seq<int>) -> nat {
    changed_among(weights, before, after, HISTOGRAM_SIZE as int)
}

/// The weight that the first `n` bins give to `cluster`: the sum of the
/// weights of those assigned to it.
pub open spec fn cluster_weight_among(
    weights: Seq<nat>,
    assignment: Seq<int>,
    cluster: int,
    n: int,
) -> nat
    decreases n,
{
    if n <= 0 {
        0
    } else {
        cluster_weight_among(weights, assignment, cluster, n - 1) + if assignment[n - 1]
            == cluster {
            weights[n - 1]
        } else {
            0nat
        }
    }
}

/// The weight of each of the `centroids` clusters.
pub open spec fn cluster_weights(weights: Seq<nat>, assignment: Seq<int>, centroids: int) -> Seq<nat> {
    Seq::new(
        centroids as nat,
        |cluster: int| cluster_weight_among(weights, assignment, cluster, HISTOGRAM_SIZE as int),
    )
}

/// A row has one nearest centroid only.
pub proof fn lemma_nearest_unique(row: Seq<u32>, a: int, b: int)
    requires
        is_nearest(row, a),
        is_nearest(row, b),
    ensures
        a == b,
{
    if a < b {
        assert(order_rank(row[a]) <= order_rank(row[b]));
    } else if b < a {
        assert(order_rank(row[b]) <= order_rank(row[a]));
    }
}

/// A round has one outcome only.
pub proof fn lemma_reassigned_unique(
    weights: Seq<nat>,
    table: Seq<Seq<u32>>,
    before: Seq<int>,
    a: Seq<int>,
    b: Seq<int>,
)
    requires
        reassigned(weights, table, before, a),
        reassigned(weights, table, before, b),
    ensures
        a == b,
{
    assert forall|bin: int| 0 <= bin < HISTOGRAM_SIZE implies a[bin] == b[bin] by {
        if takes_part(weights, table, bin) {
            lemma_nearest_unique(table[bin], a[bin], b[bin]);
        }
    }
}

/// Where nothing differs, nothing changed.
pub proof fn lemma_changed_among_same(weights: Seq<nat>, assignment: Seq<int>, n: int)
    ensures
        changed_among(weights, assignment, assignment, n) == 0,
    decreases n,
{
    if n > 0 {
        lemma_changed_among_same(weights, assignment, n - 1);
    }
}

/// The count of changes among the first `n` bins looks at those bins only.
proof fn lemma_changed_among_frame(
    weights: Seq<nat>,
    before: Seq<int>,
    a: Seq<int>,
    b: Seq<int>,
    n: int,
)
    requires
        0 <= n <= a.len(),
        n <= b.len(),
        forall|bin: int| 0 <= bin < n ==> a[bin] == b[bin],
    ensures
        changed_among(weights, before, a, n) == changed_among(weights, before, b, n),
    decreases n,
{
    if n > 0 {
        lemma_changed_among_frame(weights, before, a, b, n - 1);
    }
}

/// The weight of a cluster among the first `n` bins looks at those bins only.
proof fn lemma_cluster_weight_frame(
    weights: Seq<nat>,
    a: Seq<int>,
    b: Seq<int>,
    cluster: int,
    n: int,
)
    requires
        0 <= n <= a.len(),
        n <= b.len(),
        forall|bin: int| 0 <= bin < n ==> a[bin] == b[bin],
    ensures
        cluster_weight_among(weights, a, cluster, n) == cluster_weight_among(
            weights,
            b,
            cluster,
            n,
        ),
    decreases n,
{
    if n > 0 {
        lemma_cluster_weight_frame(weights, a, b, cluster, n - 1);
    }
}

/// A cluster weighs no more than the bins looked at.
pub proof fn lemma_cluster_weight_bounded(
    weights: Seq<nat>,
    assignment: Seq<int>,
    cluster: int,
    n: int,
)
    ensures
        cluster_weight_among(weights, assignment, cluster, n) <= weight_sum(weights, n),
    decreases n,
{
    if n > 0 {
        lemma_cluster_weight_bounded(weights, assignment, cluster, n - 1);
    }
}

/// A sum of weights grows with the number of bins it reaches.
proof fn lemma_weight_sum_grows(weights: Seq<nat>, m: int, n: int)
    requires
        m <= n,
    ensures
        weight_sum(weights, m) <= weight_sum(weights, n),
    decreases n - m,
{
    if m < n {
        lemma_weight_sum_grows(weights, m, n - 1);
    }
}

/// The clusters of the first `n` bins weigh together what those bins weigh,
/// where every occupied one of them is with one of the `centroids`.
proof fn lemma_clusters_hold_among(weights: Seq<nat>, assignment: Seq<int>, centroids: int, n: int)
    requires
        0 <= centroids,
        forall|bin: int| 0 <= bin < n && weights[bin] > 0 ==> 0 <= #[trigger] assignment[bin] < centroids,
    ensures
        weight_sum(
            Seq::new(
                centroids as nat,
                |cluster: int| cluster_weight_among(weights, assignment, cluster, n),
            ),
            centroids,
        ) == weight_sum(weights, n),
    decreases n,
{
    let now = Seq::new(
        centroids as nat,
        |cluster: int| cluster_weight_among(weights, assignment, cluster, n),
    );
    if n <= 0 {
        lemma_weight_sum_of_zeros(now, centroids);
    } else {
        lemma_clusters_hold_among(weights, assignment, centroids, n - 1);
        let before = Seq::new(
            centroids as nat,
            |cluster: int| cluster_weight_among(weights, assignment, cluster, n - 1),
        );
        if weights[n - 1] > 0 {
            let cluster = assignment[n - 1];
            lemma_weight_sum_raise(before, cluster, weights[n - 1], centroids);
            assert(now =~= before.update(cluster, before[cluster] + weights[n - 1]));
        } else {
            assert(now =~= before);
        }
    }
}

/// No pixel is lost: after a round with one centroid at least, the clusters weigh
/// together what the histogram weighs. Every pixel is in one cluster.
pub proof fn lemma_clusters_hold_every_pixel(
    weights: Seq<nat>,
    table: Seq<Seq<u32>>,
    centroids: int,
    before: Seq<int>,
    after: Seq<int>,
)
    requires
        centroids > 0,
        table_fits(weights, table, centroids),
        reassigned(weights, table, before, after),
    ensures
        weight_sum(cluster_weights(weights, after, centroids), centroids) == weight_sum(
            weights,
            HISTOGRAM_SIZE as int,
        ),
{
    assert forall|bin: int| 0 <= bin < HISTOGRAM_SIZE && weights[bin] > 0 implies 0
        <= #[trigger] after[bin] < centroids by {}
    lemma_clusters_hold_among(weights, after, centroids, HISTOGRAM_SIZE as int);
}

/// Among bins of which none changed, an occupied bin is where it was.
proof fn lemma_unchanged_among(
    weights: Seq<nat>,
    before: Seq<int>,
    after: Seq<int>,
    n: int,
    bin: int,
)
    requires
        changed_among(weights, before, after, n) == 0,
        0 <= bin < n,
        weights[bin] > 0,
    ensures
        before[bin] == after[bin],
    decreases n,
{
    if bin < n - 1 {
        lemma_unchanged_among(weights, before, after, n - 1, bin);
    }
}

/// The fixed point: a round that changed no bin leaves the assignment as it
/// was.
pub proof fn lemma_unchanged_round_keeps_assignment(
    weights: Seq<nat>,
    table: Seq<Seq<u32>>,
    before: Seq<int>,
    after: Seq<int>,
)
    requires
        before.len() == HISTOGRAM_SIZE,
        reassigned(weights, table, before, after),
        changed(weights, before, after) == 0,
    ensures
        after == before,
{
    assert forall|bin: int| 0 <= bin < HISTOGRAM_SIZE implies after[bin] == before[bin] by {
        if weights[bin] > 0 {
            lemma_unchanged_among(weights, before, after, HISTOGRAM_SIZE as int, bin);
        }
    }
}

/// A round repeated over the same table of distances changes no bin. So
/// when a round changed no bin, and the centroids are therefore where they
/// were, to measure and to assign again changes nothing.
pub proof fn lemma_round_repeats(
    weights: Seq<nat>,
    table: Seq<Seq<u32>>,
    start: Seq<int>,
    first: Seq<int>,
    second: Seq<int>,
)
    requires
        reassigned(weights, table, start, first),
        reassigned(weights, table, first, second),
    ensures
        second == first,
        changed(weights, first, second) == 0,
{
    assert forall|bin: int| 0 <= bin < HISTOGRAM_SIZE implies second[bin] == first[bin] by {
        if takes_part(weights, table, bin) {
            lemma_nearest_unique(table[bin], first[bin], second[bin]);
        }
    }
    assert(second =~= first);
    lemma_changed_among_same(weights, first, HISTOGRAM_SIZE as int);
}

/// The nearest centroid of a row of distances: the first among the least.
pub fn nearest_centroid(row: &[u32]) -> (centroid: usize)
    requires
        row@.len() > 0,
    ensures
        is_nearest(row@, centroid as int),
{
    let mut centroid: usize = 0;
    let mut least: i64 = order_key(row[0]);
    let mut next: usize = 1;
    while next < row.len()
        invariant
            0 <= centroid < next <= row@.len(),
            least == order_rank(row@[centroid as int]),
            forall|other: int| 0 <= other < next ==> least <= order_rank(#[trigger] row@[other]),
            forall|other: int| 0 <= other < centroid ==> least < order_rank(#[trigger] row@[other]),
        decreases row@.len() - next,
    {
        let key: i64 = order_key(row[next]);
        if key < least {
            centroid = next;
            least = key;
        }
        next += 1;
    }
    centroid
}

/// For each bin the centroid it belongs to, and for each centroid the weight of its
/// cluster.
pub struct Clustering {
    assignment: Vec<usize>,
    weights: Vec<u64>,
}

/// What a clustering holds.
pub ghost struct ClusteringView {
    /// The centroid of each bin, by the bin's index.
    pub assignment: Seq<int>,
    /// The weight of each cluster, by the centroid's index.
    pub weights: Seq<nat>,
}

impl View for Clustering {
    type V = ClusteringView;

    closed spec fn view(&self) -> ClusteringView {
        ClusteringView {
            assignment: as_ints(self.assignment@),
            weights: Seq::new(self.weights@.len(), |cluster: int| self.weights@[cluster] as nat),
        }
    }
}

impl Clustering {
    /// Every bin is assigned, to one of the centroids or, where there is none, to 0.
    pub open spec fn wf(&self) -> bool {
        &&& self@.assignment.len() == HISTOGRAM_SIZE
        &&& forall|bin: int|
            0 <= bin < HISTOGRAM_SIZE ==> 0 <= #[trigger] self@.assignment[bin] && (
            self@.assignment[bin] < self@.weights.len() || self@.assignment[bin] == 0)
    }

    /// The clustering before the first round: `centroids` clusters without
    /// weight, and every bin with the first.
    pub fn new(centroids: usize) -> (clustering: Clustering)
        ensures
            clustering.wf(),
            clustering@.assignment == unassigned(),
            clustering@.weights == Seq::new(centroids as nat, |cluster: int| 0nat),
    {
        Clustering { assignment: vec![0usize; HISTOGRAM_SIZE], weights: vec![0u64; centroids] }
    }

    /// One round of assignment: every occupied bin goes to its nearest centroid,
    /// and the clusters are weighed anew. Returns how many bins changed
    /// their centroid. Without a centroid no bin changes.
    pub fn reassign(&mut self, hist: &Histogram, distances: &Vec<Vec<u32>>) -> (count: usize)
        requires
            old(self).wf(),
            hist.wf(),
            table_fits(hist@, table_of(distances@), old(self)@.weights.len() as int),
        ensures
            final(self).wf(),
            reassigned(
                hist@,
                table_of(distances@),
                old(self)@.assignment,
                final(self)@.assignment,
            ),
            final(self)@.weights == cluster_weights(
                hist@,
                final(self)@.assignment,
                old(self)@.weights.len() as int,
            ),
            count == changed(hist@, old(self)@.assignment, final(self)@.assignment),
    {
        let centroids: usize = self.weights.len();
        let ghost table = table_of(distances@);
        let ghost before = self.assignment@;
        let mut weights: Vec<u64> = vec![0u64; centroids];
        let mut count: usize = 0;
        let mut bin: usize = 0;
        proof {
            assert forall|b: int| 0 <= b < HISTOGRAM_SIZE implies (#[trigger] self.assignment@[b])
                < centroids || self.assignment@[b] == 0 by {
                assert(self@.assignment[b] == self.assignment@[b]);
            }
        }
        while bin < HISTOGRAM_SIZE
            invariant
                bin <= HISTOGRAM_SIZE,
                hist.wf(),
                table == table_of(distances@),
                table_fits(hist@, table, centroids as int),
                before.len() == HISTOGRAM_SIZE,
                self.assignment@.len() == HISTOGRAM_SIZE,
                weights@.len() == centroids,
                forall|b: int|
                    0 <= b < HISTOGRAM_SIZE ==> (#[trigger] self.assignment@[b]) < centroids
                        || self.assignment@[b] == 0,
                forall|b: int|
                    0 <= b < bin ==> if takes_part(hist@, table, b) {
                        is_nearest(table[b], #[trigger] self.assignment@[b] as int)
                    } else {
                        self.assignment@[b] == before[b]
                    },
                forall|b: int|
                    bin <= b < HISTOGRAM_SIZE ==> #[trigger] self.assignment@[b] == before[b],
                forall|cluster: int|
                    0 <= cluster < centroids ==> #[trigger] weights@[cluster] == cluster_weight_among(
                        hist@,
                        as_ints(self.assignment@),
                        cluster,
                        bin as int,
                    ),
                count == changed_among(
                    hist@,
                    as_ints(before),
                    as_ints(self.assignment@),
                    bin as int,
                ),
                count <= bin,
            decreases HISTOGRAM_SIZE - bin,
        {
            let ghost assigned = as_ints(self.assignment@);
            let weight: u64 = hist.weight(bin);
            assert(table[bin as int] == distances@[bin as int]@);
            if weight > 0 && centroids > 0 {
                let centroid: usize = nearest_centroid(distances[bin].as_slice());
                if centroid != self.assignment[bin] {
                    count += 1;
                }
                self.assignment.set(bin, centroid);
                proof {
                    let now = as_ints(self.assignment@);
                    lemma_cluster_weight_bounded(hist@, now, centroid as int, bin as int + 1);
                    lemma_weight_sum_grows(hist@, bin as int + 1, HISTOGRAM_SIZE as int);
                    lemma_cluster_weight_frame(hist@, assigned, now, centroid as int, bin as int);
                }
                let sum: u64 = weights[centroid];
                weights.set(centroid, sum + weight);
            }
            proof {
                let now = as_ints(self.assignment@);
                lemma_changed_among_frame(hist@, as_ints(before), assigned, now, bin as int);
                assert forall|cluster: int| 0 <= cluster < centroids implies #[trigger] weights@[cluster]
                    == cluster_weight_among(hist@, now, cluster, bin as int + 1) by {
                    lemma_cluster_weight_frame(hist@, assigned, now, cluster, bin as int);
                }
            }
            bin += 1;
        }
        self.weights = weights;
        count
    }

    /// The centroid of each bin, by the bin's index.
    pub fn assignment(&self) -> (assignment: &Vec<usize>)
        ensures
            assignment@.len() == self@.assignment.len(),
            forall|bin: int|
                0 <= bin < assignment@.len() ==> #[trigger] assignment@[bin]
                    == self@.assignment[bin],
    {
        &self.assignment
    }

    /// The weight of each cluster, by the centroid's index.
    pub fn weights(&self) -> (weights: &Vec<u64>)
        ensures
            weights@.len() == self@.weights.len(),
            forall|cluster: int|
                0 <= cluster < weights@.len() ==> #[trigger] weights@[cluster]
                    == self@.weights[cluster],
    {
        &self.weights
    }
}

} // verus!

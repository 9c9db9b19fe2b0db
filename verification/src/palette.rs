//! The extraction of a palette, stage by stage.
//!
//! [`extract_color_palette`] counts the pixels and returns the extraction with
//! no seed chosen. The caller then asks for one seed after another with
//! [`Extraction::select_seed`], attenuating its selection weights after each,
//! until none is returned. The seeds are the first centroids. The caller then
//! refines them round by round: it measures the distances from the occupied
//! bins to the centroids, has [`kmean_cluster_colors`] assign every bin anew,
//! and moves each centroid to the mean colour of its cluster, until the round
//! is said to be the last. The palette has one colour for each centroid, in
//! the order in which the seeds were chosen.

use crate::cluster::{
    changed, cluster_weights, lemma_reassigned_unique, lemma_round_repeats,
    lemma_unchanged_round_keeps_assignment, reassigned, table_fits, table_of, Clustering,
    ClusteringView,
};
use crate::histogram::{
    bin_of, lemma_bin_in_range, lemma_occupied_of_zeros, lemma_uniform_image_occupies_one_bin,
    occupied, pixel_count, uniform, weight_sum, weights_of, Histogram, HISTOGRAM_SIZE,
};
use crate::order::order_rank;
use crate::selection::{
    heaviest_bin, is_heaviest, lemma_distinct_occupied_bounded, lemma_heaviest_stands,
    lemma_heaviest_unique, none_stands, standing,
};
use vstd::prelude::*;

verus! {

/// The number of colours of the customary palette.
pub const PALETTE_SIZE: usize = 5;

/// The most rounds that a refinement makes. The refinement ends of itself
/// when a round changes no bin; where bins keep changing, it ends with the
/// centroids of this round.
pub const ROUND_CAP: usize = 256;

/// What follows a round of the refinement.
#[derive(Clone, Copy, Debug, PartialEq, Eq, Structural)]
pub enum Step {
    /// The centroids are to be moved and the distances measured again, for
    /// another round.
    Measure,
    /// The centroids are to be moved a last time: they are the result.
    Done,
}

/// What an extraction holds.
pub ghost struct ExtractionView {
    /// The weight of each bin of the image's histogram.
    pub weights: Seq<nat>,
    /// The number of colours asked for.
    pub palette_size: nat,
    /// The bins chosen as seeds, in the order in which they were chosen.
    pub seeds: Seq<int>,
}

/// Whether an extraction is in order: the histogram is, there are no more
/// seeds than colours asked for, and the seeds are distinct occupied bins.
pub open spec fn valid(extraction: ExtractionView) -> bool {
    &&& extraction.weights.len() == HISTOGRAM_SIZE
    &&& weight_sum(extraction.weights, HISTOGRAM_SIZE as int) <= u64::MAX
    &&& extraction.seeds.len() <= extraction.palette_size
    &&& extraction.seeds.no_duplicates()
    &&& forall|at: int|
        0 <= at < extraction.seeds.len() ==> 0 <= #[trigger] extraction.seeds[at] < HISTOGRAM_SIZE
            && extraction.weights[extraction.seeds[at]] > 0
}

/// For each bin, whether it can still be chosen as a seed: it is occupied and
/// was not chosen before.
pub open spec fn candidates(extraction: ExtractionView) -> Seq<bool> {
    Seq::new(
        HISTOGRAM_SIZE as nat,
        |bin: int| extraction.weights[bin] > 0 && !extraction.seeds.contains(bin),
    )
}

/// The extraction of an image before any seed is chosen.
pub open spec fn begun(bytes: Seq<u8>, palette_size: nat) -> ExtractionView {
    ExtractionView { weights: weights_of(bytes), palette_size, seeds: Seq::empty() }
}

/// What one request for a seed does. A seed is found as long as fewer seeds
/// were chosen than colours are asked for and some candidate bin has a
/// selection weight above zero: it is the heaviest candidate, and joins the
/// seeds. Otherwise none is found and nothing changes.
pub open spec fn selects(
    before: ExtractionView,
    ranking: Seq<u32>,
    after: ExtractionView,
    found: Option<usize>,
) -> bool {
    match found {
        Some(bin) => {
            &&& before.seeds.len() < before.palette_size
            &&& is_heaviest(candidates(before), ranking, bin as int)
            &&& after.weights == before.weights
            &&& after.palette_size == before.palette_size
            &&& after.seeds == before.seeds.push(bin as int)
        },
        None => {
            &&& before.seeds.len() >= before.palette_size || none_stands(
                candidates(before),
                ranking,
            )
            &&& after == before
        },
    }
}

/// What follows a round that changed `moved` bins, after `rounds` rounds
/// before it: the refinement is done when the round changed no bin, or when
/// with it the most rounds are made.
pub open spec fn step_after(moved: nat, rounds: nat) -> Step {
    if moved == 0 || rounds + 1 >= ROUND_CAP {
        Step::Done
    } else {
        Step::Measure
    }
}

/// What one round of the refinement does, after `rounds` rounds before it:
/// every occupied bin goes to its nearest centroid by the table of distances,
/// every other bin stays, each cluster has the weight of its bins, and what
/// follows is decided by the number of bins that changed.
pub open spec fn refines(
    weights: Seq<nat>,
    table: Seq<Seq<u32>>,
    rounds: nat,
    before: ClusteringView,
    after: ClusteringView,
    next: Step,
) -> bool {
    &&& reassigned(weights, table, before.assignment, after.assignment)
    &&& after.weights == cluster_weights(weights, after.assignment, before.weights.len() as int)
    &&& next == step_after(changed(weights, before.assignment, after.assignment), rounds)
}

/// The bytes of a palette: its colours one after another, three bytes each.
pub open spec fn flattened(palette: Seq<[u8; 3]>) -> Seq<u8> {
    Seq::new(3 * palette.len(), |at: int| palette[at / 3]@[at % 3])
}

/// An extraction under way: the histogram of the image, the number of colours
/// asked for, and the seeds chosen so far.
pub struct Extraction {
    histogram: Histogram,
    palette_size: usize,
    seeds: Vec<usize>,
    candidate: Vec<bool>,
}

impl View for Extraction {
    type V = ExtractionView;

    closed spec fn view(&self) -> ExtractionView {
        ExtractionView {
            weights: self.histogram@,
            palette_size: self.palette_size as nat,
            seeds: Seq::new(self.seeds@.len(), |at: int| self.seeds@[at] as int),
        }
    }
}

impl Extraction {
    /// The record kept of the bins that can still be chosen.
    pub closed spec fn record(&self) -> Seq<bool> {
        self.candidate@
    }

    /// The extraction is in order, and its record of candidates is true.
    pub open spec fn wf(&self) -> bool {
        &&& valid(self@)
        &&& self.record() == candidates(self@)
    }

    /// The histogram of the image.
    pub fn histogram(&self) -> (hist: &Histogram)
        requires
            self.wf(),
        ensures
            hist.wf(),
            hist@ == self@.weights,
    {
        &self.histogram
    }

    /// The number of colours asked for.
    pub fn palette_size(&self) -> (size: usize)
        ensures
            size == self@.palette_size,
    {
        self.palette_size
    }

    /// The bins chosen as seeds so far, in the order in which they were chosen.
    pub fn seeds(&self) -> (seeds: &Vec<usize>)
        ensures
            seeds@.len() == self@.seeds.len(),
            forall|at: int| 0 <= at < seeds@.len() ==> #[trigger] seeds@[at] == self@.seeds[at],
    {
        &self.seeds
    }

    /// Chooses the next seed by the selection weights in `ranking`, one
    /// single-precision bit pattern for each bin, and returns its bin. The
    /// seed is the heaviest of the occupied bins not chosen before, the last
    /// of them where several are equally heavy. Returns `None`, and changes
    /// nothing, when as many seeds were chosen as colours are asked for, or
    /// when none of those bins has a weight above zero.
    pub fn select_seed(&mut self, ranking: &[u32]) -> (found: Option<usize>)
        requires
            old(self).wf(),
            ranking@.len() == HISTOGRAM_SIZE,
        ensures
            final(self).wf(),
            selects(old(self)@, ranking@, final(self)@, found),
    {
        if self.seeds.len() >= self.palette_size {
            return None;
        }
        let found: Option<usize> = heaviest_bin(self.candidate.as_slice(), ranking);
        if let Some(bin) = found {
            let ghost before = self@;
            self.seeds.push(bin);
            self.candidate.set(bin, false);
            proof {
                let after = self@;
                assert(after.seeds =~= before.seeds.push(bin as int));
                assert forall|other: int| 0 <= other < HISTOGRAM_SIZE implies (
                after.seeds.contains(other) <==> before.seeds.contains(other) || other == bin) by {
                    if before.seeds.contains(other) {
                        let at = choose|at: int|
                            0 <= at < before.seeds.len() && before.seeds[at] == other;
                        assert(after.seeds[at] == other);
                    }
                    if other == bin {
                        assert(after.seeds[before.seeds.len() as int] == other);
                    }
                }
                assert(self.record() =~= candidates(after));
            }
        }
        found
    }
}

/// Begins the extraction of a palette of at most `palette_size` colours from
/// `image_data`, interleaved RGB bytes: counts the pixels into the histogram.
/// No seed is chosen yet, and every occupied bin is a candidate. Bytes after
/// the last whole pixel are not counted.
pub fn extract_color_palette(image_data: &[u8], palette_size: usize) -> (extraction: Extraction)
    ensures
        extraction.wf(),
        extraction@ == begun(image_data@, palette_size as nat),
{
    let histogram = Histogram::compute(image_data);
    let mut candidate: Vec<bool> = Vec::new();
    let mut bin: usize = 0;
    while bin < HISTOGRAM_SIZE
        invariant
            bin <= HISTOGRAM_SIZE,
            histogram.wf(),
            candidate@.len() == bin,
            forall|b: int| 0 <= b < bin ==> #[trigger] candidate@[b] == (histogram@[b] > 0),
        decreases HISTOGRAM_SIZE - bin,
    {
        candidate.push(histogram.weight(bin) > 0);
        bin += 1;
    }
    let extraction = Extraction { histogram, palette_size, seeds: Vec::new(), candidate };
    proof {
        assert(extraction@.seeds =~= Seq::<int>::empty());
        assert(extraction.record() =~= candidates(extraction@));
    }
    extraction
}

/// Makes one round of the refinement, after `rounds` rounds before it:
/// assigns every occupied bin to its nearest centroid by the table of
/// `distances`, which holds for each occupied bin the squared distance to each
/// centroid, as it is now, as a single-precision bit pattern, and weighs the
/// clusters. Returns `Done` when the round changed no bin, or when it is the
/// last that the cap allows; else `Measure`. Either way the caller moves each
/// centroid to the mean colour of its cluster, and leaves the centroid of a
/// cluster without weight where it is.
pub fn kmean_cluster_colors(
    clusters: &mut Clustering,
    rounds: usize,
    hist_results: &Histogram,
    distances: &Vec<Vec<u32>>,
) -> (next: Step)
    requires
        old(clusters).wf(),
        hist_results.wf(),
        table_fits(hist_results@, table_of(distances@), old(clusters)@.weights.len() as int),
    ensures
        final(clusters).wf(),
        refines(
            hist_results@,
            table_of(distances@),
            rounds as nat,
            old(clusters)@,
            final(clusters)@,
            next,
        ),
{
    let moved: usize = clusters.reassign(hist_results, distances);
    if moved == 0 || rounds >= ROUND_CAP - 1 {
        Step::Done
    } else {
        Step::Measure
    }
}

/// Lays the colours of a palette out as bytes, three for each colour.
pub fn palette_bytes(palette: &Vec<[u8; 3]>) -> (bytes: Vec<u8>)
    ensures
        bytes@ == flattened(palette@),
{
    let mut bytes: Vec<u8> = Vec::new();
    let mut at: usize = 0;
    while at < palette.len()
        invariant
            at <= palette@.len(),
            bytes@.len() == 3 * at,
            forall|i: int| 0 <= i < bytes@.len() ==> #[trigger] bytes@[i] == palette@[i / 3]@[i % 3],
        decreases palette@.len() - at,
    {
        let color: [u8; 3] = palette[at];
        bytes.push(color[0]);
        bytes.push(color[1]);
        bytes.push(color[2]);
        at += 1;
    }
    bytes
}

/// Determinism of the selection: the same extraction and the same selection
/// weights give the same seed and the same extraction after it.
pub proof fn lemma_selection_deterministic(
    before: ExtractionView,
    ranking: Seq<u32>,
    after_a: ExtractionView,
    found_a: Option<usize>,
    after_b: ExtractionView,
    found_b: Option<usize>,
)
    requires
        selects(before, ranking, after_a, found_a),
        selects(before, ranking, after_b, found_b),
    ensures
        found_a == found_b,
        after_a == after_b,
{
    match (found_a, found_b) {
        (Some(a), Some(b)) => {
            lemma_heaviest_unique(candidates(before), ranking, a as int, b as int);
        },
        (Some(a), None) => {
            lemma_heaviest_stands(candidates(before), ranking, a as int);
        },
        (None, Some(b)) => {
            lemma_heaviest_stands(candidates(before), ranking, b as int);
        },
        (None, None) => {},
    }
}

/// Determinism of the refinement: the same clustering, the same histogram
/// and the same distances give the same clustering after the round, and the
/// same step to follow.
pub proof fn lemma_refinement_deterministic(
    weights: Seq<nat>,
    table: Seq<Seq<u32>>,
    rounds: nat,
    before: ClusteringView,
    after_a: ClusteringView,
    next_a: Step,
    after_b: ClusteringView,
    next_b: Step,
)
    requires
        refines(weights, table, rounds, before, after_a, next_a),
        refines(weights, table, rounds, before, after_b, next_b),
    ensures
        after_a == after_b,
        next_a == next_b,
{
    lemma_reassigned_unique(
        weights,
        table,
        before.assignment,
        after_a.assignment,
        after_b.assignment,
    );
}

/// The cap of the refinement: a round is followed by another only where it
/// changed a bin and fewer rounds than the cap are made with it. So a caller
/// that counts its rounds from 0 makes `ROUND_CAP` rounds at most.
pub proof fn lemma_refinement_capped(
    weights: Seq<nat>,
    table: Seq<Seq<u32>>,
    rounds: nat,
    before: ClusteringView,
    after: ClusteringView,
    next: Step,
)
    requires
        refines(weights, table, rounds, before, after, next),
    ensures
        rounds + 1 >= ROUND_CAP ==> next is Done,
        next is Measure ==> rounds + 1 < ROUND_CAP && changed(
            weights,
            before.assignment,
            after.assignment,
        ) > 0,
{
}

/// The fixed point of the refinement: a round that changed no bin is the
/// last, and leaves every bin with the centroid it had. The clusters, and
/// with them the centroids, are then what they were; and a further round over
/// the same distances changes nothing either.
pub proof fn lemma_refinement_fixed_point(
    weights: Seq<nat>,
    table: Seq<Seq<u32>>,
    rounds: nat,
    before: ClusteringView,
    after: ClusteringView,
    next: Step,
    further: Seq<int>,
)
    requires
        before.assignment.len() == HISTOGRAM_SIZE,
        refines(weights, table, rounds, before, after, next),
        changed(weights, before.assignment, after.assignment) == 0,
        reassigned(weights, table, after.assignment, further),
    ensures
        next is Done,
        after.assignment == before.assignment,
        after.weights == cluster_weights(weights, before.assignment, before.weights.len() as int),
        further == after.assignment,
        changed(weights, after.assignment, further) == 0,
{
    lemma_unchanged_round_keeps_assignment(
        weights,
        table,
        before.assignment,
        after.assignment,
    );
    lemma_round_repeats(weights, table, before.assignment, after.assignment, further);
}

/// The size bound: an extraction has no more seeds than colours were asked
/// for, and no more than the histogram has occupied bins.
pub proof fn lemma_seeds_bounded(extraction: ExtractionView)
    requires
        valid(extraction),
    ensures
        extraction.seeds.len() <= extraction.palette_size,
        extraction.seeds.len() <= occupied(extraction.weights),
{
    lemma_distinct_occupied_bounded(extraction.weights, extraction.seeds, HISTOGRAM_SIZE as int);
}

/// The full size: as long as fewer seeds were chosen than colours are asked
/// for, and some candidate bin has a selection weight above zero, a request
/// for a seed finds one.
pub proof fn lemma_seed_found(
    before: ExtractionView,
    ranking: Seq<u32>,
    after: ExtractionView,
    found: Option<usize>,
    bin: int,
)
    requires
        selects(before, ranking, after, found),
        before.seeds.len() < before.palette_size,
        0 <= bin < HISTOGRAM_SIZE,
        standing(candidates(before), ranking, bin) > 0,
    ensures
        found is Some,
        after.seeds.len() == before.seeds.len() + 1,
{
}

/// An image of one colour gives one seed at most, and no seed but the bin of
/// that colour.
pub proof fn lemma_uniform_image_seeds(
    extraction: ExtractionView,
    bytes: Seq<u8>,
    r: u8,
    g: u8,
    b: u8,
)
    requires
        valid(extraction),
        extraction.weights == weights_of(bytes),
        uniform(bytes, r, g, b),
    ensures
        extraction.seeds.len() <= 1,
        forall|at: int|
            0 <= at < extraction.seeds.len() ==> #[trigger] extraction.seeds[at] == bin_of(r, g, b),
{
    lemma_seeds_bounded(extraction);
    if pixel_count(bytes) > 0 {
        lemma_uniform_image_occupies_one_bin(bytes, r, g, b);
        assert forall|at: int| 0 <= at < extraction.seeds.len() implies #[trigger] extraction.seeds[at]
            == bin_of(r, g, b) by {}
    } else {
        lemma_occupied_of_zeros(extraction.weights, HISTOGRAM_SIZE as int);
    }
}

/// In an image of one colour, with a pixel at least, the first seed asked for
/// is the bin of that colour, provided that one colour at least is asked for
/// and the bin's selection weight is above zero.
pub proof fn lemma_uniform_image_first_seed(
    bytes: Seq<u8>,
    r: u8,
    g: u8,
    b: u8,
    palette_size: nat,
    ranking: Seq<u32>,
    after: ExtractionView,
    found: Option<usize>,
)
    requires
        uniform(bytes, r, g, b),
        pixel_count(bytes) > 0,
        palette_size > 0,
        ranking.len() == HISTOGRAM_SIZE,
        order_rank(ranking[bin_of(r, g, b)]) > 0,
        selects(begun(bytes, palette_size), ranking, after, found),
    ensures
        found == Some(bin_of(r, g, b) as usize),
        after.seeds == seq![bin_of(r, g, b)],
{
    let before = begun(bytes, palette_size);
    let home = bin_of(r, g, b);
    lemma_bin_in_range(r, g, b);
    lemma_uniform_image_occupies_one_bin(bytes, r, g, b);
    assert forall|other: int| 0 <= other < HISTOGRAM_SIZE && other != home implies #[trigger] standing(
        candidates(before),
        ranking,
        other,
    ) == 0 by {}
    match found {
        Some(bin) => {
            lemma_heaviest_unique(candidates(before), ranking, bin as int, home);
        },
        None => {
            lemma_heaviest_stands(candidates(before), ranking, home);
        },
    }
}

} // verus!

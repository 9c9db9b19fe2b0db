//! The choice of the next seed: the heaviest of the bins that can still be
//! chosen.
//!
//! The caller keeps a selection weight for every bin, attenuates it after each
//! choice, and hands the weights over as single-precision bit patterns. A bin
//! that cannot be chosen counts as weightless, whatever weight is handed over
//! for it. Of several bins of the same greatest weight the last is chosen.

use crate::histogram::occupied_among;
use crate::order::{order_key, order_rank};
use vstd::prelude::*;

verus! {

/// The weight with which a bin stands for selection: its rank where it is a
/// candidate, 0 where it is not.
pub open spec fn standing(candidate: Seq<bool>, ranking: Seq<u32>, bin: int) -> int {
    if candidate[bin] {
        order_rank(ranking[bin])
    } else {
        0
    }
}

/// Whether `bin` is the one to choose: it stands above 0, no bin stands
/// higher, and every bin after it stands lower.
pub open spec fn is_heaviest(candidate: Seq<bool>, ranking: Seq<u32>, bin: int) -> bool {
    &&& 0 <= bin < candidate.len()
    &&& standing(candidate, ranking, bin) > 0
    &&& forall|other: int|
        0 <= other < candidate.len() ==> #[trigger] standing(candidate, ranking, other) <= standing(
            candidate,
            ranking,
            bin,
        )
    &&& forall|other: int|
        bin < other < candidate.len() ==> #[trigger] standing(candidate, ranking, other) < standing(
            candidate,
            ranking,
            bin,
        )
}

/// Whether there is nothing to choose: no bin stands above 0.
pub open spec fn none_stands(candidate: Seq<bool>, ranking: Seq<u32>) -> bool {
    forall|bin: int| 0 <= bin < candidate.len() ==> #[trigger] standing(candidate, ranking, bin) <= 0
}

/// There is one bin to choose at most.
pub proof fn lemma_heaviest_unique(candidate: Seq<bool>, ranking: Seq<u32>, a: int, b: int)
    requires
        is_heaviest(candidate, ranking, a),
        is_heaviest(candidate, ranking, b),
    ensures
        a == b,
{
}

/// Where there is a bin to choose, some bin stands above 0.
pub proof fn lemma_heaviest_stands(candidate: Seq<bool>, ranking: Seq<u32>, bin: int)
    requires
        is_heaviest(candidate, ranking, bin),
    ensures
        !none_stands(candidate, ranking),
{
}

/// Distinct occupied bins among the first `n` are no more than the occupied
/// bins among them.
pub proof fn lemma_distinct_occupied_bounded(weights: Seq<nat>, bins: Seq<int>, n: int)
    requires
        0 <= n,
        bins.no_duplicates(),
        forall|at: int| 0 <= at < bins.len() ==> 0 <= #[trigger] bins[at] < n && weights[bins[at]] > 0,
    ensures
        bins.len() <= occupied_among(weights, n),
    decreases n,
{
    if n == 0 {
        if bins.len() > 0 {
            assert(0 <= bins[0] < n);
        }
    } else if exists|at: int| 0 <= at < bins.len() && bins[at] == n - 1 {
        let at = choose|at: int| 0 <= at < bins.len() && bins[at] == n - 1;
        let rest = bins.remove(at);
        assert forall|i: int| 0 <= i < rest.len() implies 0 <= #[trigger] rest[i] < n - 1
            && weights[rest[i]] > 0 by {}
        assert forall|i: int, j: int| 0 <= i < rest.len() && 0 <= j < rest.len() && i != j implies rest[i]
            != rest[j] by {}
        lemma_distinct_occupied_bounded(weights, rest, n - 1);
    } else {
        assert forall|at: int| 0 <= at < bins.len() implies 0 <= #[trigger] bins[at] < n - 1
            && weights[bins[at]] > 0 by {}
        lemma_distinct_occupied_bounded(weights, bins, n - 1);
    }
}

/// The bin to choose among the candidates, if there is one.
pub fn heaviest_bin(candidate: &[bool], ranking: &[u32]) -> (found: Option<usize>)
    requires
        candidate@.len() == ranking@.len(),
    ensures
        match found {
            Some(bin) => is_heaviest(candidate@, ranking@, bin as int),
            None => none_stands(candidate@, ranking@),
        },
{
    let mut found: Option<usize> = None;
    let mut greatest: i64 = 0;
    let mut bin: usize = 0;
    while bin < candidate.len()
        invariant
            bin <= candidate@.len(),
            candidate@.len() == ranking@.len(),
            greatest >= 0,
            forall|other: int|
                0 <= other < bin ==> #[trigger] standing(candidate@, ranking@, other) <= greatest,
            match found {
                Some(best) => {
                    &&& best < bin
                    &&& greatest > 0
                    &&& standing(candidate@, ranking@, best as int) == greatest
                    &&& forall|other: int|
                        best < other < bin ==> #[trigger] standing(candidate@, ranking@, other)
                            < greatest
                },
                None => greatest == 0,
            },
        decreases candidate@.len() - bin,
    {
        if candidate[bin] {
            let key: i64 = order_key(ranking[bin]);
            if key > 0 && key >= greatest {
                found = Some(bin);
                greatest = key;
            }
        }
        bin += 1;
    }
    found
}

} // verus!

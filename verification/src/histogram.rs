//! The histogram: pixels counted into 4096 bins by the coarse value of their
//! three channels.

use vstd::prelude::*;

verus! {

/// The number of bins: 16 levels for each of the three channels.
pub const HISTOGRAM_SIZE: usize = 4096;

/// The coarse level of a channel: one of 16.
pub open spec fn level(channel: u8) -> int {
    channel as int / 16
}

/// The bin that a colour falls into.
pub open spec fn bin_of(r: u8, g: u8, b: u8) -> int {
    (level(r) * 16 + level(g)) * 16 + level(b)
}

/// The number of whole pixels in a buffer of interleaved RGB bytes. Bytes
/// after the last whole pixel belong to none.
pub open spec fn pixel_count(bytes: Seq<u8>) -> int {
    bytes.len() as int / 3
}

/// The three channels of pixel `i`.
pub open spec fn pixel(bytes: Seq<u8>, i: int) -> (u8, u8, u8) {
    (bytes[3 * i], bytes[3 * i + 1], bytes[3 * i + 2])
}

/// The bin of pixel `i`.
pub open spec fn pixel_bin(bytes: Seq<u8>, i: int) -> int {
    bin_of(pixel(bytes, i).0, pixel(bytes, i).1, pixel(bytes, i).2)
}

/// How many of the first `n` pixels fall into `bin`.
pub open spec fn bin_weight_among(bytes: Seq<u8>, bin: int, n: int) -> nat
    decreases n,
{
    if n <= 0 {
        0
    } else {
        bin_weight_among(bytes, bin, n - 1) + if pixel_bin(bytes, n - 1) == bin {
            1nat
        } else {
            0nat
        }
    }
}

/// The weight of `bin`: how many pixels of the buffer fall into it.
pub open spec fn bin_weight(bytes: Seq<u8>, bin: int) -> nat {
    bin_weight_among(bytes, bin, pixel_count(bytes))
}

/// The weights of all bins after the first `n` pixels.
pub open spec fn weights_among(bytes: Seq<u8>, n: int) -> Seq<nat> {
    Seq::new(HISTOGRAM_SIZE as nat, |bin: int| bin_weight_among(bytes, bin, n))
}

/// The weights of all bins of a buffer.
pub open spec fn weights_of(bytes: Seq<u8>) -> Seq<nat> {
    weights_among(bytes, pixel_count(bytes))
}

/// The sum of the first `n` weights.
pub open spec fn weight_sum(weights: Seq<nat>, n: int) -> nat
    decreases n,
{
    if n <= 0 {
        0
    } else {
        weight_sum(weights, n - 1) + weights[n - 1]
    }
}

/// How many of the first `n` bins are occupied, that is have a weight above 0.
pub open spec fn occupied_among(weights: Seq<nat>, n: int) -> nat
    decreases n,
{
    if n <= 0 {
        0
    } else {
        occupied_among(weights, n - 1) + if weights[n - 1] > 0 {
            1nat
        } else {
            0nat
        }
    }
}

/// How many bins are occupied.
pub open spec fn occupied(weights: Seq<nat>) -> nat {
    occupied_among(weights, weights.len() as int)
}

/// Whether every pixel of the buffer has the colour `(r, g, b)`.
pub open spec fn uniform(bytes: Seq<u8>, r: u8, g: u8, b: u8) -> bool {
    forall|i: int| 0 <= i < pixel_count(bytes) ==> #[trigger] pixel(bytes, i) == (r, g, b)
}

/// The bin of a colour: each channel is cut down to its level, and the three
/// levels are read as one number in base 16.
pub fn bin_index(r: u8, g: u8, b: u8) -> (index: usize)
    ensures
        index == bin_of(r, g, b),
        index < HISTOGRAM_SIZE,
{
    let r_level: usize = (r / 16) as usize;
    let g_level: usize = (g / 16) as usize;
    let b_level: usize = (b / 16) as usize;
    (r_level * 16 + g_level) * 16 + b_level
}

/// Every colour has a bin.
pub proof fn lemma_bin_in_range(r: u8, g: u8, b: u8)
    ensures
        0 <= bin_of(r, g, b) < HISTOGRAM_SIZE,
{
}

/// Two colours share a bin exactly when they agree in the level of every
/// channel.
pub proof fn lemma_bin_by_levels(r1: u8, g1: u8, b1: u8, r2: u8, g2: u8, b2: u8)
    ensures
        bin_of(r1, g1, b1) == bin_of(r2, g2, b2) <==> level(r1) == level(r2) && level(g1) == level(
            g2,
        ) && level(b1) == level(b2),
{
}

/// No bin holds more than the pixels seen.
pub proof fn lemma_bin_weight_bounded(bytes: Seq<u8>, bin: int, n: int)
    requires
        0 <= n,
    ensures
        bin_weight_among(bytes, bin, n) <= n,
    decreases n,
{
    if n > 0 {
        lemma_bin_weight_bounded(bytes, bin, n - 1);
    }
}

/// The pixels of a buffer are counted the same with more bytes after them.
proof fn lemma_joined_front(first: Seq<u8>, second: Seq<u8>, bin: int, n: int)
    requires
        0 <= n <= pixel_count(first),
    ensures
        bin_weight_among(first + second, bin, n) == bin_weight_among(first, bin, n),
    decreases n,
{
    if n > 0 {
        lemma_joined_front(first, second, bin, n - 1);
    }
}

/// After a buffer of whole pixels, the pixels of a second buffer are counted
/// as they are alone.
proof fn lemma_joined_back(first: Seq<u8>, second: Seq<u8>, bin: int, n: int)
    requires
        first.len() % 3 == 0,
        0 <= n <= pixel_count(second),
    ensures
        bin_weight_among(first + second, bin, pixel_count(first) + n) == bin_weight(first, bin)
            + bin_weight_among(second, bin, n),
    decreases n,
{
    if n == 0 {
        lemma_joined_front(first, second, bin, pixel_count(first));
    } else {
        lemma_joined_back(first, second, bin, n - 1);
    }
}

/// Counting is additive: where the first of two buffers ends with a whole
/// pixel, each bin of the two joined weighs what it weighs in the one and in
/// the other together. So an image can be counted in parts, and the parts
/// merged.
pub proof fn lemma_weights_of_joined(first: Seq<u8>, second: Seq<u8>, bin: int)
    requires
        first.len() % 3 == 0,
    ensures
        bin_weight(first + second, bin) == bin_weight(first, bin) + bin_weight(second, bin),
{
    lemma_joined_back(first, second, bin, pixel_count(second));
}

/// The order in which parts of an image are counted does not matter.
pub proof fn lemma_weights_of_joined_commute(first: Seq<u8>, second: Seq<u8>)
    requires
        first.len() % 3 == 0,
        second.len() % 3 == 0,
    ensures
        weights_of(first + second) == weights_of(second + first),
{
    assert forall|bin: int| 0 <= bin < HISTOGRAM_SIZE implies #[trigger] weights_of(
        first + second,
    )[bin] == weights_of(second + first)[bin] by {
        lemma_weights_of_joined(first, second, bin);
        lemma_weights_of_joined(second, first, bin);
    }
}

/// Raising one weight raises the sum by as much, where the sum reaches it.
pub proof fn lemma_weight_sum_raise(weights: Seq<nat>, bin: int, by: nat, n: int)
    requires
        0 <= bin < weights.len(),
        0 <= n <= weights.len(),
    ensures
        weight_sum(weights.update(bin, weights[bin] + by), n) == weight_sum(weights, n) + if bin
            < n {
            by
        } else {
            0nat
        },
    decreases n,
{
    if n > 0 {
        lemma_weight_sum_raise(weights, bin, by, n - 1);
    }
}

/// Every pixel is counted once: the weights of the first `n` pixels sum to `n`.
pub proof fn lemma_every_pixel_counted(bytes: Seq<u8>, n: int)
    requires
        0 <= n,
    ensures
        weight_sum(weights_among(bytes, n), HISTOGRAM_SIZE as int) == n,
    decreases n,
{
    if n == 0 {
        lemma_weight_sum_of_zeros(weights_among(bytes, 0), HISTOGRAM_SIZE as int);
    } else {
        lemma_every_pixel_counted(bytes, n - 1);
        let before = weights_among(bytes, n - 1);
        let bin = pixel_bin(bytes, n - 1);
        lemma_bin_in_range(pixel(bytes, n - 1).0, pixel(bytes, n - 1).1, pixel(bytes, n - 1).2);
        lemma_weight_sum_raise(before, bin, 1, HISTOGRAM_SIZE as int);
        assert(weights_among(bytes, n) =~= before.update(bin, before[bin] + 1));
    }
}

/// Weights that are all 0 sum to 0.
pub proof fn lemma_weight_sum_of_zeros(weights: Seq<nat>, n: int)
    requires
        0 <= n <= weights.len(),
        forall|bin: int| 0 <= bin < n ==> weights[bin] == 0,
    ensures
        weight_sum(weights, n) == 0,
    decreases n,
{
    if n > 0 {
        lemma_weight_sum_of_zeros(weights, n - 1);
    }
}

/// Among weights of which only `bin` is above 0, one bin is occupied where
/// the count reaches it.
proof fn lemma_occupied_single(weights: Seq<nat>, bin: int, n: int)
    requires
        0 <= n <= weights.len(),
        0 <= bin < weights.len(),
        forall|other: int| 0 <= other < weights.len() ==> (weights[other] > 0 <==> other == bin),
    ensures
        occupied_among(weights, n) == if bin < n {
            1nat
        } else {
            0nat
        },
    decreases n,
{
    if n > 0 {
        lemma_occupied_single(weights, bin, n - 1);
    }
}

/// Among weights that are all 0 no bin is occupied.
pub proof fn lemma_occupied_of_zeros(weights: Seq<nat>, n: int)
    requires
        0 <= n <= weights.len(),
        forall|bin: int| 0 <= bin < n ==> weights[bin] == 0,
    ensures
        occupied_among(weights, n) == 0,
    decreases n,
{
    if n > 0 {
        lemma_occupied_of_zeros(weights, n - 1);
    }
}

/// In an image of one colour, the first `n` pixels all fall into that colour's
/// bin.
pub proof fn lemma_uniform_weights(bytes: Seq<u8>, r: u8, g: u8, b: u8, bin: int, n: int)
    requires
        uniform(bytes, r, g, b),
        0 <= n <= pixel_count(bytes),
    ensures
        bin_weight_among(bytes, bin, n) == if bin == bin_of(r, g, b) {
            n as nat
        } else {
            0nat
        },
    decreases n,
{
    if n > 0 {
        lemma_uniform_weights(bytes, r, g, b, bin, n - 1);
    }
}

/// An image of one colour, with at least one pixel, occupies exactly one bin:
/// the bin of that colour, which holds every pixel.
pub proof fn lemma_uniform_image_occupies_one_bin(bytes: Seq<u8>, r: u8, g: u8, b: u8)
    requires
        uniform(bytes, r, g, b),
        pixel_count(bytes) > 0,
    ensures
        occupied(weights_of(bytes)) == 1,
        weights_of(bytes)[bin_of(r, g, b)] == pixel_count(bytes),
        forall|bin: int|
            0 <= bin < HISTOGRAM_SIZE && bin != bin_of(r, g, b) ==> #[trigger] weights_of(
                bytes,
            )[bin] == 0,
{
    let weights = weights_of(bytes);
    let home = bin_of(r, g, b);
    lemma_bin_in_range(r, g, b);
    assert forall|bin: int| 0 <= bin < HISTOGRAM_SIZE implies (#[trigger] weights[bin] > 0 <==> bin
        == home) by {
        lemma_uniform_weights(bytes, r, g, b, bin, pixel_count(bytes));
    }
    lemma_uniform_weights(bytes, r, g, b, home, pixel_count(bytes));
    lemma_occupied_single(weights, home, HISTOGRAM_SIZE as int);
}

/// The pixel counts of the 4096 bins of one image.
pub struct Histogram {
    weights: Vec<u64>,
}

impl View for Histogram {
    type V = Seq<nat>;

    /// The weight of each bin, by its index.
    closed spec fn view(&self) -> Seq<nat> {
        Seq::new(self.weights@.len(), |bin: int| self.weights@[bin] as nat)
    }
}

impl Histogram {
    /// A histogram has all its bins, and the sum of their weights fits in 64
    /// bits.
    pub open spec fn wf(&self) -> bool {
        &&& self@.len() == HISTOGRAM_SIZE
        &&& weight_sum(self@, HISTOGRAM_SIZE as int) <= u64::MAX
    }

    /// Counts the pixels of `image_data`, interleaved RGB bytes, into their
    /// bins. Bytes after the last whole pixel are not counted.
    pub fn compute(image_data: &[u8]) -> (hist: Histogram)
        ensures
            hist.wf(),
            hist@ == weights_of(image_data@),
    {
        let mut weights: Vec<u64> = vec![0u64; HISTOGRAM_SIZE];
        let len: usize = image_data.len();
        let mut at: usize = 0;
        let ghost mut seen: int = 0;
        while len - at >= 3
            invariant
                at <= len,
                len == image_data@.len(),
                at == 3 * seen,
                0 <= seen <= pixel_count(image_data@),
                weights@.len() == HISTOGRAM_SIZE,
                forall|bin: int|
                    0 <= bin < HISTOGRAM_SIZE ==> #[trigger] weights@[bin] == bin_weight_among(
                        image_data@,
                        bin,
                        seen,
                    ),
            decreases len - at,
        {
            let index: usize = bin_index(image_data[at], image_data[at + 1], image_data[at + 2]);
            proof {
                lemma_bin_weight_bounded(image_data@, index as int, seen);
            }
            let weight: u64 = weights[index];
            weights.set(index, weight + 1);
            at += 3;
            proof {
                seen = seen + 1;
            }
        }
        let hist = Histogram { weights };
        proof {
            assert(hist@ =~= weights_of(image_data@));
            lemma_every_pixel_counted(image_data@, seen);
        }
        hist
    }

    /// The weight of one bin.
    pub fn weight(&self, bin: usize) -> (weight: u64)
        requires
            self.wf(),
            bin < HISTOGRAM_SIZE,
        ensures
            weight == self@[bin as int],
    {
        self.weights[bin]
    }

    /// The weights of all bins, by index.
    pub fn weights(&self) -> (weights: &Vec<u64>)
        requires
            self.wf(),
        ensures
            weights@.len() == HISTOGRAM_SIZE,
            forall|bin: int| 0 <= bin < HISTOGRAM_SIZE ==> #[trigger] weights@[bin] == self@[bin],
    {
        &self.weights
    }

    /// The number of occupied bins.
    pub fn non_empty_bins(&self) -> (count: usize)
        requires
            self.wf(),
        ensures
            count == occupied(self@),
    {
        let mut count: usize = 0;
        let mut bin: usize = 0;
        while bin < HISTOGRAM_SIZE
            invariant
                bin <= HISTOGRAM_SIZE,
                self.weights@.len() == HISTOGRAM_SIZE,
                count == occupied_among(self@, bin as int),
                count <= bin,
            decreases HISTOGRAM_SIZE - bin,
        {
            if self.weights[bin] > 0 {
                count += 1;
            }
            bin += 1;
        }
        count
    }
}

} // verus!

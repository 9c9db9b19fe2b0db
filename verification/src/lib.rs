//! The discrete core of colour-palette extraction.
//!
//! An image is a flat buffer of interleaved RGB bytes. Its pixels are counted
//! into a fixed histogram of 4096 bins; seed bins are picked greedily by their
//! current selection weight; then, round by round, every occupied bin is
//! assigned to its nearest centroid, until a round changes no bin or the cap
//! on the rounds is reached. The colour arithmetic itself (perceptual
//! conversion, distances, attenuation, centroids) is carried by the caller in
//! single precision and crosses into this crate as bit patterns, which are
//! compared here in the total order of IEEE 754.

pub mod cluster;
pub mod color;
pub mod histogram;
pub mod order;
pub mod palette;
pub mod selection;

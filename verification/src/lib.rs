//! A verified voice-activity-detection audio pipeline: sample normalization,
//! frame buffering, signal conditioning, and hysteresis-based segmentation of
//! a speech-likelihood score stream into discrete speech segments.

use vstd::prelude::*;

pub mod conditioner;
pub mod controller;
pub mod frame_buffer;
pub mod laws;
pub mod normalizer;
pub mod score;
pub mod segmenter;

verus! {

/// Number of samples in one frame handed to the classifier.
pub const FRAME_LEN: usize = 512;

} // verus!

//! Extraction support and calibration bookkeeping for MFCC voice profiles.
//!
//! Audio samples and feature values travel through this library as the raw
//! bit patterns of IEEE-754 single-precision numbers, held in `u32`. All
//! structural decisions — resampling index selection, frame segmentation,
//! finiteness screening, bounded per-label storage and the export document —
//! are made here and verified. The floating-point kernels that produce the
//! numbers (filtering, windowing, FFT, mel filtering, DCT) live with the
//! host-facing code, which hands their results back as bit patterns.

use vstd::prelude::*;

pub mod algorithm;
pub mod store;

pub use store::CompareMethod;
pub use store::MfccCalibrationData;
pub use store::MfccEntry;
pub use store::ProfileDocument;
pub use store::ProfileError;
pub use store::ProfileGenerator;
pub use store::ProfileGeneratorOptions;

verus! {

/// Number of cepstral coefficients exposed per feature vector once the
/// zeroth (overall log-energy) coefficient has been dropped.
pub const MFCC_SIZE: usize = 12;

} // verus!

//! Integer calibration limits of the engine.

use vstd::prelude::*;

verus! {

/// Maximum accepted raw input size (50 MB).
pub const MAX_FILE_SIZE_BYTES: usize = 52428800usize;

/// Maximum accepted image dimension (width or height, 16384 px).
pub const MAX_IMAGE_DIMENSION: u32 = 16384u32;

/// Maximum side length of the FFT analysis window.
pub const FFT_WINDOW_CAP: usize = 256usize;

/// Minimum residual dimension for FFT analysis.
pub const FFT_MIN_DIM: usize = 16usize;

/// Block side length for the block-variance coefficient of variation.
pub const BLOCK_VAR_BLOCK_SIZE: usize = 32usize;

/// Block side length for PRNU block correlation.
pub const PRNU_BLOCK_SIZE: usize = 24usize;

/// Minimum residual dimension for hybrid analysis.
pub const HYBRID_MIN_DIM: usize = 24usize;

/// Range the hybrid tile side is clamped to.
pub const HYBRID_TILE_MIN: usize = 12usize;
pub const HYBRID_TILE_MAX: usize = 32usize;

/// Minimum residual dimension for semantic analysis.
pub const SEMANTIC_MIN_DIM: usize = 24usize;

/// Number of gradient orientation histogram bins.
pub const SEMANTIC_GRADIENT_BINS: usize = 8usize;

} // verus!

//! Domain types shared by the engine and its callers.

use vstd::prelude::*;

verus! {

/// Final verdict on an image.
#[derive(Debug, Clone, Copy, PartialEq, Eq, Structural)]
pub enum VerificationClass {
    Authentic,
    Suspicious,
    Synthetic,
    Indeterminate,
}

/// How much of the analysis pipeline runs.
#[derive(Debug, Clone, Copy, PartialEq, Eq, Structural)]
pub enum ExecutionMode {
    Fast,
    Deep,
}

/// Machine-readable explanation attached to a verdict.
#[derive(Debug, Clone, Copy, PartialEq, Eq, Structural)]
pub enum ReasonCode {
    SysInsuff001,
    SysDegrad001,
    SigFreq001,
    PhyPrnu001,
    HybEla001,
    SemClass001,
}

/// Wall-clock time spent in each analysis layer, in milliseconds.
#[derive(Debug, Clone)]
pub struct LayerLatencyMs {
    pub signal: u32,
    pub physical: u32,
    pub hybrid: u32,
    pub semantic: u32,
    pub fusion: u32,
}

impl Default for LayerLatencyMs {
    fn default() -> (res: Self)
        ensures
            res.signal == 0,
            res.physical == 0,
            res.hybrid == 0,
            res.semantic == 0,
            res.fusion == 0,
    {
        LayerLatencyMs { signal: 0, physical: 0, hybrid: 0, semantic: 0, fusion: 0 }
    }
}

/// An owned verification request.
#[derive(Debug, Clone)]
pub struct VerifyRequest {
    pub image_bytes: Vec<u8>,
    pub execution_mode: ExecutionMode,
}

/// Why an input was refused.
#[derive(Debug, Clone, PartialEq, Eq, Structural)]
pub enum VerifyError {
    /// The payload holds no bytes.
    EmptyInput,
    /// The payload is longer than the configured byte limit.
    InputTooLarge { size: usize, limit: usize },
    /// The decoded image is wider or taller than the configured limit.
    DimensionTooLarge { width: u32, height: u32, limit: u32 },
    /// The payload is not a JPEG, PNG or WebP image.
    UnsupportedFormat,
    /// The payload claims a supported format but does not decode.
    DecodeFailed,
}

} // verus!

//! Image authenticity verification: the integer and decision core of the engine.
//!
//! The crate holds the domain types, the input gates (payload size, format
//! sniffing, decoding and dimension limits), the exact integer pixel scans that
//! feed the signal, physical and hybrid layers, the classification and
//! reason-code rules, and the stress-test bookkeeping of the command line tool.

pub mod config;
pub mod dataset;
pub mod decode;
pub mod fusion;
pub mod laws;
pub mod model;
pub mod raster;
pub mod stress;
pub mod text;

pub use config::{MAX_FILE_SIZE_BYTES, MAX_IMAGE_DIMENSION};
pub use model::{ExecutionMode, LayerLatencyMs, ReasonCode, VerificationClass, VerifyError, VerifyRequest};

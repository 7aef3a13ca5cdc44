//! Decoder and analysis engine for the XFDR binary flight-data-recorder
//! format.
//!
//! The decoder turns a byte stream into a header, a dataref schema and an
//! ordered sequence of frames; the analysis side offers time-series
//! projection, descriptive statistics, correlation inputs, flight-phase and
//! anomaly detection, and flight-path extraction over the decoded frames.
//!
//! IEEE 754 values that the format stores (little-endian `f32` payloads, and
//! the doubles derived from them) are carried throughout as their raw bit
//! patterns (`u32` / `u64`), so that every structural decision — parsing,
//! filtering, ordering, thresholds — is exact integer logic.  Floating-point
//! arithmetic proper (averaging, square roots) is left to callers.

pub mod analysis;
pub mod channels;
pub mod correlate;
pub mod decode;
pub mod encode;
pub mod fbits;
pub mod model;
pub mod params;
pub mod path;
pub mod project;
pub mod stats;
pub mod table;
pub mod text;
pub mod trusted;

//! SAR visualization core: turns quantized radar backscatter grids into display rasters.
//!
//! The integer side of the pipeline lives here with machine-checked contracts:
//! grid padding and resampling geometry, 16-to-8-bit scaling, the synthetic RGB
//! compositor and its exact lookup tables, histogram percentile location, CLAHE tile
//! histograms and clipping, the autoscale strategy rules, and the validation of request
//! options and coordinate-system labels.
mod arith;
mod bignum;
pub mod autoscale;
pub mod crs;
pub mod error;
pub mod padding;
pub mod params;
pub mod request;
pub mod resize;
pub mod stats;
pub mod synthetic_rgb;
pub mod types;

pub use error::Error;
pub use params::ProcessingParams;
pub use types::{
    AutoscaleStrategy, BitDepth, BitDepthArg, InputFormat, OutputFormat, Polarization,
    PolarizationOperation, ProcessingOperation, SyntheticRgbMode,
};

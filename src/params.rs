//! Processing parameters as stored in configuration files and presets.
use vstd::prelude::*;

use crate::types::{AutoscaleStrategy, BitDepthArg, InputFormat, OutputFormat, Polarization};

verus! {

/// Everything a processing request is parameterized by.
#[derive(Debug, Clone)]
pub struct ProcessingParams {
    pub format: OutputFormat,
    pub input_format: InputFormat,
    pub bit_depth: BitDepthArg,
    pub polarization: Polarization,
    pub autoscale: AutoscaleStrategy,
    /// Target long side in pixels; `None` keeps the original size.
    pub size: Option<usize>,
    /// Zero-pad to a square after resizing.
    pub pad: bool,
    /// Optional target reference system for map reprojection, such as `EPSG:4326`.
    pub target_crs: Option<String>,
    /// Optional resampling algorithm name for reprojection.
    pub resample_alg: Option<String>,
}

impl Default for ProcessingParams {
    /// TIFF output of the `VV` channel at 8 bits, CLAHE contrast, original size,
    /// no padding, no reprojection, bilinear resampling.
    fn default() -> (r: Self)
        ensures
            r.format == OutputFormat::TIFF,
            r.input_format == InputFormat::Safe,
            r.bit_depth == BitDepthArg::U8,
            r.polarization == Polarization::Vv,
            r.autoscale == AutoscaleStrategy::Clahe,
            r.size is None,
            !r.pad,
            r.target_crs is None,
            r.resample_alg is Some && r.resample_alg->0@ == "bilinear"@,
    {
        let bilinear = String::from_str("bilinear");
        proof {
            reveal_strlit("bilinear");
        }
        ProcessingParams {
            format: OutputFormat::TIFF,
            input_format: InputFormat::Safe,
            bit_depth: BitDepthArg::U8,
            polarization: Polarization::Vv,
            autoscale: AutoscaleStrategy::Clahe,
            size: None,
            pad: false,
            target_crs: None,
            resample_alg: Some(bilinear),
        }
    }
}

} // verus!

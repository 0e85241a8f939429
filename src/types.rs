//! Enumerations shared by every stage: polarizations, strategies, formats, bit depths.
use vstd::prelude::*;

verus! {

/// Element-wise combination of two polarization channels.
#[derive(Copy, Clone, PartialEq, Eq, Structural, PartialOrd, Ord, Debug)]
pub enum PolarizationOperation {
    Sum,
    Diff,
    Ratio,
    NDiff,
    LogRatio,
}

/// Polarization channel, dual-band product, or channel combination to process.
#[derive(Copy, Clone, PartialEq, Eq, Structural, PartialOrd, Ord, Debug)]
pub enum Polarization {
    Vv,
    Vh,
    Hh,
    Hv,
    Multiband,
    OP(PolarizationOperation),
}

/// What a processing request does with the channels it reads.
#[derive(Copy, Clone, PartialEq, Eq, Structural, PartialOrd, Ord, Debug)]
pub enum ProcessingOperation {
    SingleBand,
    MultibandVvVh,
    MultibandHhHv,
    PolarOp(PolarizationOperation),
}

/// Contrast strategy of the autoscale engine.
#[derive(Copy, Clone, PartialEq, Eq, Structural, PartialOrd, Ord, Debug)]
pub enum AutoscaleStrategy {
    Standard,
    Robust,
    Adaptive,
    Equalized,
    Tamed,
    Clahe,
    Default,
}

/// Input product family.
#[derive(Copy, Clone, PartialEq, Eq, Structural, PartialOrd, Ord, Debug)]
pub enum InputFormat {
    Safe,
}

/// Bit depth as chosen on the command line.
#[derive(Copy, Clone, PartialEq, Eq, Structural, PartialOrd, Ord, Debug)]
pub enum BitDepthArg {
    U8,
    U16,
}

/// Raster container written at the end of the pipeline.
#[derive(Copy, Clone, PartialEq, Eq, Structural, PartialOrd, Ord, Debug)]
pub enum OutputFormat {
    TIFF,
    JPEG,
}

/// Bit depth of a quantized band.
#[derive(Copy, Clone, PartialEq, Eq, Structural, PartialOrd, Ord, Debug)]
pub enum BitDepth {
    U8,
    U16,
}

/// Externally named synthetic RGB composition modes.
#[derive(Copy, Clone, PartialEq, Eq, Structural, PartialOrd, Ord, Debug)]
pub enum SyntheticRgbMode {
    Default,
    RgbRatio,
    SarUrban,
    Enhanced,
}

impl PolarizationOperation {
    /// Display name: `Sum`, `Diff`, `Ratio`, `NDiff` or `LogRatio`.
    pub fn name(&self) -> (r: &'static str)
        ensures
            r@ == match *self {
                PolarizationOperation::Sum => "Sum"@,
                PolarizationOperation::Diff => "Diff"@,
                PolarizationOperation::Ratio => "Ratio"@,
                PolarizationOperation::NDiff => "NDiff"@,
                PolarizationOperation::LogRatio => "LogRatio"@,
            },
    {
        match self {
            PolarizationOperation::Sum => "Sum",
            PolarizationOperation::Diff => "Diff",
            PolarizationOperation::Ratio => "Ratio",
            PolarizationOperation::NDiff => "NDiff",
            PolarizationOperation::LogRatio => "LogRatio",
        }
    }
}

impl AutoscaleStrategy {
    /// Display name of the strategy, such as `Standard` or `Clahe`.
    pub fn name(&self) -> (r: &'static str)
        ensures
            r@ == match *self {
                AutoscaleStrategy::Standard => "Standard"@,
                AutoscaleStrategy::Robust => "Robust"@,
                AutoscaleStrategy::Adaptive => "Adaptive"@,
                AutoscaleStrategy::Equalized => "Equalized"@,
                AutoscaleStrategy::Tamed => "Tamed"@,
                AutoscaleStrategy::Clahe => "Clahe"@,
                AutoscaleStrategy::Default => "Default"@,
            },
    {
        match self {
            AutoscaleStrategy::Standard => "Standard",
            AutoscaleStrategy::Robust => "Robust",
            AutoscaleStrategy::Adaptive => "Adaptive",
            AutoscaleStrategy::Equalized => "Equalized",
            AutoscaleStrategy::Tamed => "Tamed",
            AutoscaleStrategy::Clahe => "Clahe",
            AutoscaleStrategy::Default => "Default",
        }
    }
}

/// Largest sample value of a band of the given depth.
pub open spec fn max_value_of(depth: BitDepth) -> nat {
    match depth {
        BitDepth::U8 => 255,
        BitDepth::U16 => 65535,
    }
}

impl BitDepth {
    /// Largest sample value: 255 for 8 bits, 65535 for 16 bits.
    pub fn max_value(self) -> (r: u16)
        ensures
            r as nat == max_value_of(self),
    {
        match self {
            BitDepth::U8 => 255,
            BitDepth::U16 => 65535,
        }
    }
}

/// Maps the command-line bit depth onto the processing bit depth.
pub fn bitdepth_arg_to_bitdepth(arg: BitDepthArg) -> (r: BitDepth)
    ensures
        arg == BitDepthArg::U8 <==> r == BitDepth::U8,
        arg == BitDepthArg::U16 <==> r == BitDepth::U16,
{
    match arg {
        BitDepthArg::U8 => BitDepth::U8,
        BitDepthArg::U16 => BitDepth::U16,
    }
}

/// Name of an operation as it appears in output file names and metadata.
pub open spec fn operation_label(op: PolarizationOperation) -> Seq<char> {
    match op {
        PolarizationOperation::Sum => "sum"@,
        PolarizationOperation::Diff => "difference"@,
        PolarizationOperation::Ratio => "ratio"@,
        PolarizationOperation::NDiff => "normalized_diff"@,
        PolarizationOperation::LogRatio => "log_ratio"@,
    }
}

/// The label of an operation: `sum`, `difference`, `ratio`, `normalized_diff`, `log_ratio`.
pub fn operation_to_str(op: PolarizationOperation) -> (r: &'static str)
    ensures
        r@ == operation_label(op),
{
    match op {
        PolarizationOperation::Sum => "sum",
        PolarizationOperation::Diff => "difference",
        PolarizationOperation::Ratio => "ratio",
        PolarizationOperation::NDiff => "normalized_diff",
        PolarizationOperation::LogRatio => "log_ratio",
    }
}

/// Which channels the product reader must load for a polarization request.
pub open spec fn reader_hint(pol: Polarization) -> Seq<char> {
    match pol {
        Polarization::Vv => "vv"@,
        Polarization::Vh => "vh"@,
        Polarization::Hh => "hh"@,
        Polarization::Hv => "hv"@,
        Polarization::Multiband => "all_pairs"@,
        Polarization::OP(_) => "all_pairs"@,
    }
}

/// Reader hint: the channel itself for single polarizations, `all_pairs` otherwise.
pub fn pol_to_reader_hint(pol: &Polarization) -> (r: Option<&'static str>)
    ensures
        r is Some && r->0@ == reader_hint(*pol),
{
    match pol {
        Polarization::Vv => Some("vv"),
        Polarization::Vh => Some("vh"),
        Polarization::Hh => Some("hh"),
        Polarization::Hv => Some("hv"),
        Polarization::Multiband => Some("all_pairs"),
        Polarization::OP(_) => Some("all_pairs"),
    }
}

/// Co-polarized channels (`VV`, `HH`) have their own low clip in the tamed composite path.
pub open spec fn is_copol_spec(pol: Polarization) -> bool {
    pol == Polarization::Vv || pol == Polarization::Hh
}

impl Polarization {
    /// Display name: `Vv`, `Vh`, `Hh`, `Hv`, `Multiband`, or the operation's name.
    pub fn name(&self) -> (r: &'static str)
        ensures
            r@ == match *self {
                Polarization::Vv => "Vv"@,
                Polarization::Vh => "Vh"@,
                Polarization::Hh => "Hh"@,
                Polarization::Hv => "Hv"@,
                Polarization::Multiband => "Multiband"@,
                Polarization::OP(op) => match op {
                    PolarizationOperation::Sum => "Sum"@,
                    PolarizationOperation::Diff => "Diff"@,
                    PolarizationOperation::Ratio => "Ratio"@,
                    PolarizationOperation::NDiff => "NDiff"@,
                    PolarizationOperation::LogRatio => "LogRatio"@,
                },
            },
    {
        match self {
            Polarization::Vv => "Vv",
            Polarization::Vh => "Vh",
            Polarization::Hh => "Hh",
            Polarization::Hv => "Hv",
            Polarization::Multiband => "Multiband",
            Polarization::OP(op) => op.name(),
        }
    }

    /// True for the co-polarized channels `VV` and `HH`.
    pub fn is_copol(&self) -> (r: bool)
        ensures
            r == is_copol_spec(*self),
    {
        match self {
            Polarization::Vv => true,
            Polarization::Hh => true,
            _ => false,
        }
    }
}

} // verus!

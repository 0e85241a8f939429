use sarpro::crs::parse_epsg;
use sarpro::request::parse_target_size;
use sarpro::types::{bitdepth_arg_to_bitdepth, operation_to_str, pol_to_reader_hint};
use sarpro::{
    AutoscaleStrategy, BitDepth, BitDepthArg, Error, InputFormat, OutputFormat, Polarization,
    PolarizationOperation, ProcessingParams,
};

#[test]
fn operation_labels() {
    assert_eq!(operation_to_str(PolarizationOperation::Sum), "sum");
    assert_eq!(operation_to_str(PolarizationOperation::Diff), "difference");
    assert_eq!(operation_to_str(PolarizationOperation::Ratio), "ratio");
    assert_eq!(operation_to_str(PolarizationOperation::NDiff), "normalized_diff");
    assert_eq!(operation_to_str(PolarizationOperation::LogRatio), "log_ratio");
}

#[test]
fn reader_hints() {
    assert_eq!(pol_to_reader_hint(&Polarization::Vv), Some("vv"));
    assert_eq!(pol_to_reader_hint(&Polarization::Hv), Some("hv"));
    assert_eq!(pol_to_reader_hint(&Polarization::Multiband), Some("all_pairs"));
    assert_eq!(
        pol_to_reader_hint(&Polarization::OP(PolarizationOperation::Ratio)),
        Some("all_pairs")
    );
}

#[test]
fn bit_depths() {
    assert_eq!(bitdepth_arg_to_bitdepth(BitDepthArg::U8), BitDepth::U8);
    assert_eq!(bitdepth_arg_to_bitdepth(BitDepthArg::U16), BitDepth::U16);
    assert_eq!(BitDepth::U8.max_value(), 255);
    assert_eq!(BitDepth::U16.max_value(), 65535);
}

#[test]
fn default_params() {
    let p = ProcessingParams::default();
    assert_eq!(p.format, OutputFormat::TIFF);
    assert_eq!(p.input_format, InputFormat::Safe);
    assert_eq!(p.bit_depth, BitDepthArg::U8);
    assert_eq!(p.polarization, Polarization::Vv);
    assert_eq!(p.autoscale, AutoscaleStrategy::Clahe);
    assert_eq!(p.size, None);
    assert!(!p.pad);
    assert_eq!(p.target_crs, None);
    assert_eq!(p.resample_alg.as_deref(), Some("bilinear"));
}

#[test]
fn external_error_keeps_message() {
    assert_eq!(Error::external("boom".to_string()), Error::External("boom".to_string()));
}

#[test]
fn target_size_option() {
    assert_eq!(parse_target_size("original"), Ok(None));
    assert_eq!(parse_target_size("1024"), Ok(Some(1024)));
    assert_eq!(parse_target_size("+512"), Ok(Some(512)));
    assert_eq!(parse_target_size("0"), Err(Error::ZeroSize { size: 0 }));
    let invalid = |s: &str| Error::InvalidArgument { arg: "size".to_string(), value: s.to_string() };
    assert_eq!(parse_target_size(""), Err(invalid("")));
    assert_eq!(parse_target_size("12a"), Err(invalid("12a")));
    assert_eq!(parse_target_size("-5"), Err(invalid("-5")));
    assert_eq!(parse_target_size("Original"), Err(invalid("Original")));
    assert_eq!(
        parse_target_size("99999999999999999999999"),
        Err(invalid("99999999999999999999999"))
    );
}

#[test]
fn display_names() {
    assert_eq!(PolarizationOperation::NDiff.name(), "NDiff");
    assert_eq!(AutoscaleStrategy::Clahe.name(), "Clahe");
    assert_eq!(AutoscaleStrategy::Default.name(), "Default");
    assert_eq!(Polarization::Multiband.name(), "Multiband");
    assert_eq!(Polarization::OP(PolarizationOperation::LogRatio).name(), "LogRatio");
    assert!(Polarization::Hh.is_copol());
    assert!(!Polarization::Hv.is_copol());
}

#[test]
fn epsg_label_from_wkt() {
    let wkt = "PROJCS[\"WGS 84 / UTM zone 33N\",GEOGCS[\"WGS 84\",AUTHORITY[\"EPSG\",\"4326\"]],AUTHORITY[\"EPSG\",\"32633\"]]";
    assert_eq!(parse_epsg(wkt), Some("EPSG:32633".to_string()));
    assert_eq!(parse_epsg("GEOGCS[\"x\",AUTHORITY[\"EPSG\",\"4326\"]]"), Some("EPSG:4326".to_string()));
    assert_eq!(parse_epsg("LOCAL_CS[\"none\"]"), None);
    assert_eq!(parse_epsg("AUTHORITY[\"EPSG\",\"4326"), None);
    assert_eq!(parse_epsg(""), None);
    assert_eq!(parse_epsg("AUTHORITY[\"EPSG\",\"\""), Some("EPSG:".to_string()));
}

use grav1synth::filters::{Filter, FilterChain, FilterError, ResizeAlg};
use grav1synth::color::{ColorPrimaries, MatrixCoefficients, TransferCharacteristics};
use grav1synth::frame::{
    compute_image_size, get_qindex, get_relative_dist, seg_feature_active_idx, tile_log2, Dimensions,
};
use grav1synth::ParseError;
use grav1synth::frame_type::FrameType;

fn err(s: &str) -> FilterError {
    match FilterChain::new(s) {
        Err(e) => e,
        Ok(_) => panic!("accepted {}", s),
    }
}

#[test]
fn empty_chain() {
    assert!(FilterChain::new("").unwrap().filters.is_empty());
}

#[test]
fn crop_and_resize() {
    let c = FilterChain::new("crop:top=42,left=64;resize:width=1920,height=1080").unwrap();
    assert_eq!(c.filters, vec![
        Filter::Crop { top: 42, bottom: 0, left: 64, right: 0 },
        Filter::Resize { width: 1920, height: 1080, alg: ResizeAlg::CatmullRom },
    ]);
}

#[test]
fn resize_algorithm() {
    let c = FilterChain::new("resize:alg=lanczos,width=+8,height=4").unwrap();
    assert_eq!(c.filters, vec![Filter::Resize { width: 8, height: 4, alg: ResizeAlg::Lanczos }]);
}

#[test]
fn filter_errors() {
    assert_eq!(err("crop"), FilterError::InvalidSyntax);
    assert_eq!(err("crop:top"), FilterError::InvalidSyntax);
    assert_eq!(err("crop:"), FilterError::InvalidSyntax);
    assert_eq!(err("blur:radius=2"), FilterError::UnrecognizedFilter);
    assert_eq!(err("crop:middle=2"), FilterError::UnrecognizedArg);
    assert_eq!(err("crop:top=-2"), FilterError::InvalidNumber);
    assert_eq!(err("crop:top=99999999999999999999999"), FilterError::InvalidNumber);
    assert_eq!(err("resize:alg=bilinear"), FilterError::UnrecognizedAlgorithm);
    assert_eq!(err("resize:width=10"), FilterError::MissingSize);
    assert_eq!(err("crop:top=1;"), FilterError::InvalidSyntax);
}

#[test]
fn frame_type_intra() {
    assert!(FrameType::Key.is_intra());
    assert!(FrameType::IntraOnly.is_intra());
    assert!(!FrameType::Inter.is_intra());
    assert!(!FrameType::Switch.is_intra());
}

#[test]
fn image_size_in_mode_info_units() {
    assert_eq!(compute_image_size(Dimensions { width: 1920, height: 1080 }), (480, 270));
    assert_eq!(compute_image_size(Dimensions { width: 1, height: 9 }), (2, 4));
}

#[test]
fn relative_distance_wraps() {
    assert_eq!(get_relative_dist(5, 3, 7), 2);
    assert_eq!(get_relative_dist(3, 5, 7), -2);
    assert_eq!(get_relative_dist(1, 127, 7), 2);
    assert_eq!(get_relative_dist(127, 1, 7), -2);
    assert_eq!(get_relative_dist(9, 1, 0), 0);
}

#[test]
fn tile_log2_values() {
    assert_eq!(tile_log2(1, 1), 0);
    assert_eq!(tile_log2(1, 5), 3);
    assert_eq!(tile_log2(64, 30), 0);
    assert_eq!(tile_log2(2, 9), 3);
}

#[test]
fn segment_quantizer_index() {
    let mut data = vec![None; 64];
    data[8] = Some(-20i16);
    data[16] = Some(200i16);
    let d = Some(data);
    assert!(seg_feature_active_idx(1, 0, &d));
    assert!(!seg_feature_active_idx(0, 0, &d));
    assert!(!seg_feature_active_idx(1, 0, &None));
    assert_eq!(get_qindex(0, 100, &d), 100);
    assert_eq!(get_qindex(1, 100, &d), 80);
    assert_eq!(get_qindex(1, 10, &d), 0);
    assert_eq!(get_qindex(2, 100, &d), 255);
    assert_eq!(get_qindex(2, 100, &None), 100);
}

#[test]
fn colour_codes() {
    assert_eq!(ColorPrimaries::from_code(1), Ok(ColorPrimaries::Bt709));
    assert_eq!(ColorPrimaries::from_code(22), Ok(ColorPrimaries::Ebu3213));
    assert_eq!(ColorPrimaries::from_code(3), Err(ParseError::InvalidEnumTag));
    assert_eq!(TransferCharacteristics::from_code(16), Ok(TransferCharacteristics::Smpte2084));
    assert_eq!(TransferCharacteristics::from_code(19), Err(ParseError::InvalidEnumTag));
    assert_eq!(MatrixCoefficients::from_code(0), Ok(MatrixCoefficients::Identity));
}

use grav1synth::grain::{FilmGrainHeader, FilmGrainParams};
use grav1synth::table::{params_equal_ignoring_seed, validate_grain_table, write_grain_table, GrainTableSegment};
use grav1synth::timeline::aggregate_grain_headers;
use grav1synth::frame_type::FrameType;
use grav1synth::grain::GrainContext;
use grav1synth::parser::grain_for_timestamp;
use grav1synth::ParseError;

fn params(seed: u16, scaling: u8) -> FilmGrainParams {
    FilmGrainParams {
        grain_seed: seed,
        scaling_points_y: vec![(0, scaling), (255, scaling)],
        scaling_points_cb: vec![(0, 10)],
        scaling_points_cr: vec![],
        scaling_shift: 8,
        ar_coeff_lag: 0,
        ar_coeffs_y: vec![],
        ar_coeffs_cb: vec![-3],
        ar_coeffs_cr: vec![],
        ar_coeff_shift: 6,
        cb_mult: 128,
        cb_luma_mult: 192,
        cb_offset: 256,
        cr_mult: 0,
        cr_luma_mult: 0,
        cr_offset: 0,
        chroma_scaling_from_luma: false,
        grain_scale_shift: 0,
        overlap_flag: true,
        clip_to_restricted_range: false,
    }
}

fn update(seed: u16, scaling: u8) -> FilmGrainHeader {
    FilmGrainHeader::UpdateGrain(params(seed, scaling))
}

#[test]
fn constant_grain_gives_one_segment() {
    let headers: Vec<_> = (0..30).map(|i| update(i as u16, 20)).collect();
    let segments = aggregate_grain_headers(&headers, 24000, 1001);
    assert_eq!(segments.len(), 1);
    assert_eq!(segments[0].start_time, 0);
    // 30 frames at 24000/1001 fps last 1.25125 s.
    assert_eq!(segments[0].end_time, 12_512_500);
    assert_eq!(segments[0].grain_params.grain_seed, 0);
}

#[test]
fn grain_then_disable() {
    let mut headers: Vec<_> = (0..10).map(|_| update(1, 20)).collect();
    headers.extend((0..10).map(|_| FilmGrainHeader::Disable));
    let segments = aggregate_grain_headers(&headers, 1, 1);
    assert_eq!(segments.len(), 1);
    assert_eq!((segments[0].start_time, segments[0].end_time), (0, 100_000_000));
}

#[test]
fn changed_params_start_a_new_segment() {
    let headers = vec![update(1, 20), update(1, 20), update(1, 30), FilmGrainHeader::CopyRefFrame {
        ref_idx: 0,
        grain_seed: 4,
    }];
    let segments = aggregate_grain_headers(&headers, 1, 2);
    assert_eq!(segments.len(), 2);
    assert_eq!((segments[0].start_time, segments[0].end_time), (0, 40_000_000));
    assert_eq!((segments[1].start_time, segments[1].end_time), (40_000_000, 80_000_000));
    assert_eq!(segments[1].grain_params.scaling_points_y, vec![(0, 30), (255, 30)]);
}

#[test]
fn copy_without_grain_is_ignored() {
    let headers = vec![FilmGrainHeader::CopyRefFrame { ref_idx: 1, grain_seed: 0 }, update(2, 5)];
    let segments = aggregate_grain_headers(&headers, 1, 1);
    assert_eq!(segments.len(), 1);
    assert_eq!((segments[0].start_time, segments[0].end_time), (10_000_000, 20_000_000));
}

#[test]
fn gap_after_disable_starts_new_segment() {
    let headers = vec![update(1, 20), FilmGrainHeader::Disable, update(1, 20)];
    let segments = aggregate_grain_headers(&headers, 1, 1);
    assert_eq!(segments.len(), 2);
    assert_eq!((segments[1].start_time, segments[1].end_time), (20_000_000, 30_000_000));
}

#[test]
fn segments_are_ordered() {
    let headers: Vec<_> = (0..40).map(|i| if i % 7 == 3 { FilmGrainHeader::Disable } else { update(0, (i / 5) as u8) }).collect();
    let segments = aggregate_grain_headers(&headers, 1, 1);
    for (i, s) in segments.iter().enumerate() {
        assert!(s.start_time < s.end_time);
        if i > 0 {
            assert!(segments[i - 1].end_time <= s.start_time);
        }
    }
}

#[test]
fn equality_ignores_seed() {
    assert!(params_equal_ignoring_seed(&params(1, 20), &params(2, 20)));
    assert!(!params_equal_ignoring_seed(&params(1, 20), &params(1, 21)));
}

#[test]
fn segment_text() {
    let seg = GrainTableSegment { start_time: 0, end_time: 12_513_000, grain_params: params(7, 20) };
    let text = String::from_utf8(write_grain_table(&vec![seg])).unwrap();
    let expected = "filmgrn1\nE 0 12513000 1 7 1\n\tp 0 6 0 8 0 1 128 192 256 0 0 0\n\tsY 2  0 20 255 20\n\tsCb 1 0 10\n\tsCr 0\n\tcY\n\tcCb -3\n\tcCr\n";
    assert_eq!(text, expected);
}

#[test]
fn validate_accepts_sorted_table() {
    let t = vec![
        GrainTableSegment { start_time: 0, end_time: 10, grain_params: params(1, 20) },
        GrainTableSegment { start_time: 10, end_time: 30, grain_params: params(1, 20) },
    ];
    assert_eq!(validate_grain_table(t).unwrap().len(), 2);
}

#[test]
fn validate_rejects_bad_tables() {
    let overlap = vec![
        GrainTableSegment { start_time: 0, end_time: 20, grain_params: params(1, 20) },
        GrainTableSegment { start_time: 10, end_time: 30, grain_params: params(1, 20) },
    ];
    assert_eq!(validate_grain_table(overlap).unwrap_err(), ParseError::GrainTableSyntax);
    let empty = vec![GrainTableSegment { start_time: 5, end_time: 5, grain_params: params(1, 20) }];
    assert_eq!(validate_grain_table(empty).unwrap_err(), ParseError::GrainTableSyntax);
    let mut bad = params(1, 20);
    bad.scaling_shift = 12;
    let range = vec![GrainTableSegment { start_time: 0, end_time: 5, grain_params: bad }];
    assert_eq!(validate_grain_table(range).unwrap_err(), ParseError::GrainTableSyntax);
}

fn ctx(present: bool, show: bool) -> GrainContext {
    GrainContext {
        film_grain_params_present: present,
        show_frame: show,
        showable_frame: false,
        frame_type: FrameType::Inter,
        mono_chrome: false,
        subsampling_x: true,
        subsampling_y: true,
    }
}

#[test]
fn grain_for_timestamp_picks_first_cover() {
    let table = vec![
        GrainTableSegment { start_time: 0, end_time: 10, grain_params: params(1, 20) },
        GrainTableSegment { start_time: 5, end_time: 20, grain_params: params(2, 30) },
    ];
    match grain_for_timestamp(&table, 7, ctx(true, true)) {
        FilmGrainHeader::UpdateGrain(p) => assert_eq!(p.grain_seed, 1),
        _ => panic!("expected grain"),
    }
    match grain_for_timestamp(&table, 12, ctx(true, true)) {
        FilmGrainHeader::UpdateGrain(p) => {
            assert_eq!(p.grain_seed, 2);
            assert_eq!(p.scaling_points_y, vec![(0, 30), (255, 30)]);
            assert_eq!(p.cb_offset, 256);
        }
        _ => panic!("expected grain"),
    }
    assert!(matches!(grain_for_timestamp(&table, 20, ctx(true, true)), FilmGrainHeader::Disable));
    assert!(matches!(grain_for_timestamp(&table, 7, ctx(true, false)), FilmGrainHeader::Disable));
}

#[test]
fn grain_for_timestamp_fits_params() {
    let mut p = params(3, 20);
    p.scaling_shift = 14;
    p.ar_coeff_lag = 1;
    let table = vec![GrainTableSegment { start_time: 0, end_time: 10, grain_params: p }];
    let mut mono = ctx(true, true);
    mono.mono_chrome = true;
    match grain_for_timestamp(&table, 0, mono) {
        FilmGrainHeader::UpdateGrain(q) => {
            assert_eq!(q.scaling_shift, 11);
            assert_eq!(q.ar_coeffs_y.len(), 4);
            assert!(q.scaling_points_cb.is_empty());
            assert_eq!((q.cb_mult, q.cb_luma_mult, q.cb_offset), (0, 0, 0));
            assert!(q.ar_coeffs_cb.is_empty());
        }
        _ => panic!("expected grain"),
    }
}

#[test]
fn changed_params_at_24_fps() {
    let segments = aggregate_grain_headers(&vec![update(1, 20), update(1, 30)], 24, 1);
    assert_eq!(segments.len(), 2);
    assert_eq!((segments[0].start_time, segments[0].end_time), (0, 416_667));
    assert_eq!((segments[1].start_time, segments[1].end_time), (416_667, 833_334));
}

#[test]
fn disable_closes_segment_at_24_fps() {
    let headers = vec![update(1, 20), FilmGrainHeader::Disable, update(1, 20)];
    let segments = aggregate_grain_headers(&headers, 24, 1);
    assert_eq!(segments.len(), 2);
    assert_eq!(segments[0].end_time, 416_667);
    assert_eq!((segments[1].start_time, segments[1].end_time), (833_334, 1_250_000));
}

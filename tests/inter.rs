use grav1synth::bits::{pack_bits, put_bits};
use grav1synth::frame_type::FrameType;
use grav1synth::grain::{write_film_grain_params, FilmGrainHeader, FilmGrainParams, GrainContext};
use grav1synth::leb128::leb128_write;
use grav1synth::parser::{BitstreamParser, GrainPolicy};
use grav1synth::table::GrainTableSegment;
use grav1synth::timeline::aggregate_grain_headers;

fn grain(seed: u16) -> FilmGrainParams {
    FilmGrainParams {
        grain_seed: seed,
        scaling_points_y: vec![(16, 30)],
        scaling_points_cb: vec![(16, 20), (200, 25)],
        scaling_points_cr: vec![(16, 10)],
        scaling_shift: 9,
        ar_coeff_lag: 0,
        ar_coeffs_y: vec![],
        ar_coeffs_cb: vec![7],
        ar_coeffs_cr: vec![-7],
        ar_coeff_shift: 8,
        cb_mult: 128,
        cb_luma_mult: 192,
        cb_offset: 256,
        cr_mult: 100,
        cr_luma_mult: 90,
        cr_offset: 511,
        chroma_scaling_from_luma: false,
        grain_scale_shift: 1,
        overlap_flag: false,
        clip_to_restricted_range: true,
    }
}

fn obu(obu_type: u8, payload: &[u8]) -> Vec<u8> {
    let mut out = vec![(obu_type << 3) | 0x02];
    out.extend(leb128_write(payload.len() as u32));
    out.extend_from_slice(payload);
    out
}

fn put_all(b: &mut Vec<bool>, fields: &[(u64, usize)]) {
    for &(v, n) in fields {
        put_bits(b, v, n);
    }
}

/// A full sequence header for 64x64 4:2:0 video with 7-bit order hints.
fn sequence_header(grain_present: bool) -> Vec<u8> {
    let mut b = Vec::new();
    put_all(&mut b, &[
        (0, 3), (0, 1), (0, 1), // profile, still picture, reduced header
        (0, 1), (0, 1),         // timing info, initial display delay
        (0, 5), (0, 12), (0, 5), // one operating point: idc, level
        (5, 4), (5, 4), (63, 6), (63, 6), // frame size
        (0, 1),                 // frame ids
        (0, 1), (0, 1), (0, 1), // 128x128, filter intra, intra edge
        (0, 1), (0, 1), (0, 1), (0, 1), // interintra, masked, warped, dual filter
        (1, 1), (0, 1), (0, 1), // order hints, jnt comp, ref frame mvs
        (0, 1), (0, 1),         // choose screen content tools, force it off
        (6, 3),                 // order_hint_bits_minus_1
        (0, 1), (0, 1), (0, 1), // superres, cdef, restoration
        (0, 1), (0, 1), (0, 1), (0, 1), (0, 2), (0, 1), // color config
        (grain_present as u64, 1),
        (1, 1),
    ]);
    obu(1, &pack_bits(&b))
}

fn tail_fields(b: &mut Vec<bool>) {
    put_all(b, &[
        (1, 1),         // uniform tile spacing
        (60, 8),        // base_q_idx
        (0, 1), (0, 1), (0, 1), // delta q: y dc, u dc, u ac
        (0, 1),         // qmatrix
        (0, 1),         // segmentation
        (0, 1),         // delta_q_present
        (4, 6), (4, 6), (3, 6), (3, 6), // loop filter levels
        (2, 3), (0, 1), // sharpness, delta enabled
        (1, 1),         // tx_mode_select
    ]);
}

fn finish(b: &mut Vec<bool>, grain_present: bool, show: bool, ft: FrameType, g: &FilmGrainHeader) -> Vec<u8> {
    let ctx = GrainContext {
        film_grain_params_present: grain_present,
        show_frame: show,
        showable_frame: ft != FrameType::Key,
        frame_type: ft,
        mono_chrome: false,
        subsampling_x: true,
        subsampling_y: true,
    };
    write_film_grain_params(b, g, ctx);
    while b.len() % 8 != 0 {
        b.push(false);
    }
    let mut payload = pack_bits(b);
    payload.extend_from_slice(&[1, 2, 3, 4, 5]);
    obu(6, &payload)
}

fn key_frame(grain_present: bool, g: &FilmGrainHeader) -> Vec<u8> {
    let mut b = Vec::new();
    put_all(&mut b, &[
        (0, 1), (0, 2), (1, 1), // show_existing, KEY, show_frame
        (0, 1),                 // disable_cdf_update
        (0, 1),                 // frame_size_override_flag
        (0, 7),                 // order_hint
        (0, 1),                 // render size
        (0, 1),                 // disable_frame_end_update_cdf
    ]);
    tail_fields(&mut b);
    put_all(&mut b, &[(0, 1)]); // reduced_tx_set
    finish(&mut b, grain_present, true, FrameType::Key, g)
}

fn inter_frame(grain_present: bool, hint: u64, g: &FilmGrainHeader) -> Vec<u8> {
    inter_frame_refs(grain_present, hint, g, false)
}

fn inter_frame_refs(grain_present: bool, hint: u64, g: &FilmGrainHeader, short: bool) -> Vec<u8> {
    let mut b = Vec::new();
    put_all(&mut b, &[
        (0, 1), (1, 2), (1, 1), // show_existing, INTER, show_frame
        (0, 1),                 // error_resilient_mode
        (0, 1),                 // disable_cdf_update
        (0, 1),                 // frame_size_override_flag
        (hint, 7),              // order_hint
        (0, 3),                 // primary_ref_frame
        (1, 8),                 // refresh_frame_flags
    ]);
    if short {
        put_all(&mut b, &[(1, 1), (0, 3), (0, 3)]); // short signaling: last and golden slots
    } else {
        put_all(&mut b, &[(0, 1), (0, 21)]); // seven ref_frame_idx
    }
    put_all(&mut b, &[
        (0, 1),                 // render size
        (1, 1),                 // allow_high_precision_mv
        (1, 1),                 // is_filter_switchable
        (1, 1),                 // is_motion_mode_switchable
        (0, 1),                 // disable_frame_end_update_cdf
    ]);
    tail_fields(&mut b);
    put_all(&mut b, &[(0, 1), (0, 1), (0, 7)]); // reference_select, reduced_tx_set, is_global x7
    finish(&mut b, grain_present, true, FrameType::Inter, g)
}

fn stream(grain_present: bool, key: &FilmGrainHeader, inter: &FilmGrainHeader) -> Vec<Vec<u8>> {
    let mut first = obu(2, &[]);
    first.extend(sequence_header(grain_present));
    first.extend(key_frame(grain_present, key));
    let mut packets = vec![first];
    for i in 1..4u64 {
        let mut p = obu(2, &[]);
        p.extend(inter_frame(grain_present, i, inter));
        packets.push(p);
    }
    packets
}

fn run(mut p: BitstreamParser, packets: &[Vec<u8>]) -> (Vec<Vec<u8>>, Vec<FilmGrainHeader>) {
    let out = packets
        .iter()
        .enumerate()
        .map(|(i, pk)| p.parse_packet(pk, i as u64 * 10_000_000).unwrap())
        .collect();
    (out, p.get_grain_headers().clone())
}

#[test]
fn inter_frames_copy_reference_grain() {
    let copy = FilmGrainHeader::CopyRefFrame { ref_idx: 0, grain_seed: 99 };
    let packets = stream(true, &FilmGrainHeader::UpdateGrain(grain(1)), &copy);
    let (_, headers) = run(BitstreamParser::new(), &packets);
    assert_eq!(headers.len(), 4);
    assert!(matches!(headers[0], FilmGrainHeader::UpdateGrain(_)));
    for h in &headers[1..] {
        assert!(matches!(h, FilmGrainHeader::CopyRefFrame { ref_idx: 0, grain_seed: 99 }));
    }
    let segments = aggregate_grain_headers(&headers, 1, 1);
    assert_eq!(segments.len(), 1);
    assert_eq!((segments[0].start_time, segments[0].end_time), (0, 40_000_000));
}

#[test]
fn inter_stream_keep_is_identity() {
    let packets = stream(true, &FilmGrainHeader::UpdateGrain(grain(1)), &FilmGrainHeader::Disable);
    let (out, _) = run(BitstreamParser::with_policy(GrainPolicy::Keep), &packets);
    assert_eq!(out, packets);
}

#[test]
fn inter_stream_remove_and_apply() {
    let packets = stream(true, &FilmGrainHeader::UpdateGrain(grain(1)), &FilmGrainHeader::UpdateGrain(grain(2)));
    let (removed, _) = run(BitstreamParser::with_writer(None), &packets);
    assert_eq!(removed, stream(false, &FilmGrainHeader::Disable, &FilmGrainHeader::Disable));
    let table = vec![GrainTableSegment { start_time: 10_000_000, end_time: 30_000_000, grain_params: grain(5) }];
    let (applied, _) = run(BitstreamParser::with_writer(Some(table)), &removed);
    let (_, headers) = run(BitstreamParser::new(), &applied);
    assert!(matches!(headers[0], FilmGrainHeader::Disable));
    for h in &headers[1..3] {
        match h {
            FilmGrainHeader::UpdateGrain(p) => {
                assert_eq!(p.grain_seed, 5);
                assert_eq!(p.scaling_points_cb, vec![(16, 20), (200, 25)]);
                assert_eq!(p.cr_offset, 511);
            }
            _ => panic!("expected grain"),
        }
    }
    assert!(matches!(headers[3], FilmGrainHeader::Disable));
}

#[test]
fn short_reference_signaling_parses() {
    let mut first = obu(2, &[]);
    first.extend(sequence_header(true));
    first.extend(key_frame(true, &FilmGrainHeader::UpdateGrain(grain(1))));
    let mut second = obu(2, &[]);
    second.extend(inter_frame_refs(true, 1, &FilmGrainHeader::UpdateGrain(grain(2)), true));
    let packets = vec![first, second];
    let (out, headers) = run(BitstreamParser::with_policy(GrainPolicy::Keep), &packets);
    assert_eq!(out, packets);
    assert_eq!(headers.len(), 2);
    match &headers[1] {
        FilmGrainHeader::UpdateGrain(p) => assert_eq!(p.grain_seed, 2),
        _ => panic!("expected grain"),
    }
}

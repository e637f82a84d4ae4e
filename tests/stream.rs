use grav1synth::bits::{pack_bits, put_bits};
use grav1synth::frame_type::FrameType;
use grav1synth::grain::{write_film_grain_params, FilmGrainHeader, FilmGrainParams, GrainContext};
use grav1synth::leb128::leb128_write;
use grav1synth::obu::{parse_obu_header, ObuType};
use grav1synth::parser::{BitstreamParser, GrainPolicy};
use grav1synth::table::{write_grain_table, GrainTableSegment};
use grav1synth::timeline::aggregate_grain_headers;
use grav1synth::ParseError;

fn params(seed: u16) -> FilmGrainParams {
    FilmGrainParams {
        grain_seed: seed,
        scaling_points_y: vec![(0, 20), (255, 40)],
        scaling_points_cb: vec![],
        scaling_points_cr: vec![],
        scaling_shift: 11,
        ar_coeff_lag: 1,
        ar_coeffs_y: vec![1, -2, 3, -4],
        ar_coeffs_cb: vec![0, 0, 0, 0, 5],
        ar_coeffs_cr: vec![0, 0, 0, 0, -5],
        ar_coeff_shift: 7,
        cb_mult: 0,
        cb_luma_mult: 0,
        cb_offset: 0,
        cr_mult: 0,
        cr_luma_mult: 0,
        cr_offset: 0,
        chroma_scaling_from_luma: true,
        grain_scale_shift: 0,
        overlap_flag: true,
        clip_to_restricted_range: false,
    }
}

fn obu(obu_type: u8, payload: &[u8]) -> Vec<u8> {
    let mut out = vec![(obu_type << 3) | 0x02];
    out.extend(leb128_write(payload.len() as u32));
    out.extend_from_slice(payload);
    out
}

/// A reduced still-picture sequence header for 64x64 4:2:0 8-bit video.
fn sequence_header(grain: bool) -> Vec<u8> {
    let mut b = Vec::new();
    for (v, n) in [
        (0u64, 3usize), // seq_profile
        (1, 1),         // still_picture
        (1, 1),         // reduced_still_picture_header
        (0, 5),         // seq_level_idx
        (5, 4),         // frame_width_bits_minus_1
        (5, 4),         // frame_height_bits_minus_1
        (63, 6),        // max_frame_width_minus_1
        (63, 6),        // max_frame_height_minus_1
        (0, 1),         // use_128x128_superblock
        (0, 1),         // enable_filter_intra
        (0, 1),         // enable_intra_edge_filter
        (0, 1),         // enable_superres
        (0, 1),         // enable_cdef
        (0, 1),         // enable_restoration
        (0, 1),         // high_bitdepth
        (0, 1),         // mono_chrome
        (0, 1),         // color_description_present_flag
        (0, 1),         // color_range
        (0, 2),         // chroma_sample_position
        (0, 1),         // separate_uv_delta_q
        (grain as u64, 1),
        (1, 1), // trailing one bit
    ] {
        put_bits(&mut b, v, n);
    }
    obu(1, &pack_bits(&b))
}

/// A frame OBU of the sequence above, with the given grain block and two
/// bytes of tile data.
fn frame(grain_present: bool, grain: &FilmGrainHeader) -> Vec<u8> {
    let mut b = Vec::new();
    for (v, n) in [
        (0u64, 1usize), // disable_cdf_update
        (0, 1),         // allow_screen_content_tools
        (0, 1),         // render_and_frame_size_different
        (1, 1),         // uniform_tile_spacing_flag
        (100, 8),       // base_q_idx
        (0, 1),         // deltaq_y_dc coded
        (0, 1),         // deltaq_u_dc coded
        (0, 1),         // deltaq_u_ac coded
        (0, 1),         // using_qmatrix
        (0, 1),         // segmentation_enabled
        (0, 1),         // delta_q_present
        (0, 6),         // loop_filter_level[0]
        (0, 6),         // loop_filter_level[1]
        (0, 3),         // loop_filter_sharpness
        (0, 1),         // loop_filter_delta_enabled
        (0, 1),         // tx_mode_select
        (0, 1),         // reduced_tx_set
    ] {
        put_bits(&mut b, v, n);
    }
    let ctx = GrainContext {
        film_grain_params_present: grain_present,
        show_frame: true,
        showable_frame: false,
        frame_type: FrameType::Key,
        mono_chrome: false,
        subsampling_x: true,
        subsampling_y: true,
    };
    write_film_grain_params(&mut b, grain, ctx);
    while b.len() % 8 != 0 {
        b.push(false);
    }
    let mut payload = pack_bits(&b);
    payload.extend_from_slice(&[0xaa, 0xbb]);
    obu(6, &payload)
}

fn packet(first: bool, grain_present: bool, grain: &FilmGrainHeader) -> Vec<u8> {
    let mut p = obu(2, &[]);
    if first {
        p.extend(sequence_header(grain_present));
    }
    p.extend(frame(grain_present, grain));
    p
}

fn stream(n: usize, grain_present: bool, grain: &FilmGrainHeader) -> Vec<Vec<u8>> {
    (0..n).map(|i| packet(i == 0, grain_present, grain)).collect()
}

fn ts(i: usize) -> u64 {
    i as u64 * 10_000_000
}

fn inspect(packets: &[Vec<u8>]) -> Vec<FilmGrainHeader> {
    let mut p = BitstreamParser::new();
    for (i, pk) in packets.iter().enumerate() {
        assert_eq!(p.parse_packet(pk, ts(i)), Ok(vec![]));
    }
    p.get_grain_headers().clone()
}

fn rewrite(mut p: BitstreamParser, packets: &[Vec<u8>]) -> Vec<Vec<u8>> {
    packets
        .iter()
        .enumerate()
        .map(|(i, pk)| p.parse_packet(pk, ts(i)).unwrap())
        .collect()
}

fn photon_segment() -> GrainTableSegment {
    let s = av1_grain::generate_photon_noise_params(0, u64::MAX, av1_grain::NoiseGenArgs {
        iso_setting: 800,
        width: 1920,
        height: 1080,
        transfer_function: av1_grain::TransferFunction::BT1886,
        full_range: false,
        chroma_grain: false,
        random_seed: None,
    });
    GrainTableSegment {
        start_time: s.start_time,
        end_time: s.end_time,
        grain_params: FilmGrainParams {
            grain_seed: s.random_seed,
            scaling_points_y: s.scaling_points_y.iter().map(|p| (p[0], p[1])).collect(),
            scaling_points_cb: s.scaling_points_cb.iter().map(|p| (p[0], p[1])).collect(),
            scaling_points_cr: s.scaling_points_cr.iter().map(|p| (p[0], p[1])).collect(),
            scaling_shift: s.scaling_shift,
            ar_coeff_lag: s.ar_coeff_lag,
            ar_coeffs_y: s.ar_coeffs_y.to_vec(),
            ar_coeffs_cb: s.ar_coeffs_cb.to_vec(),
            ar_coeffs_cr: s.ar_coeffs_cr.to_vec(),
            ar_coeff_shift: s.ar_coeff_shift,
            cb_mult: s.cb_mult,
            cb_luma_mult: s.cb_luma_mult,
            cb_offset: s.cb_offset,
            cr_mult: s.cr_mult,
            cr_luma_mult: s.cr_luma_mult,
            cr_offset: s.cr_offset,
            chroma_scaling_from_luma: s.chroma_scaling_from_luma,
            grain_scale_shift: s.grain_scale_shift,
            overlap_flag: s.overlap_flag,
            clip_to_restricted_range: false,
        },
    }
}

#[test]
fn generated_grain_round_trips() {
    let segment = photon_segment();
    let table = grav1synth::table::validate_grain_table(vec![segment.clone()]).unwrap();
    assert_eq!(table.len(), 1);
    let packets = stream(3, false, &FilmGrainHeader::Disable);
    let applied = rewrite(BitstreamParser::with_writer(Some(table)), &packets);
    let headers = inspect(&applied);
    let want = &segment.grain_params;
    assert!(!want.scaling_points_y.is_empty());
    for h in &headers {
        match h {
            FilmGrainHeader::UpdateGrain(p) => {
                assert_eq!(p.grain_seed, want.grain_seed);
                assert_eq!(p.scaling_points_y, want.scaling_points_y);
                assert!(p.scaling_points_cb.is_empty() && p.scaling_points_cr.is_empty());
                assert_eq!(p.scaling_shift, want.scaling_shift);
                assert_eq!(p.ar_coeff_lag, want.ar_coeff_lag);
                assert_eq!(p.ar_coeffs_y, want.ar_coeffs_y);
                assert_eq!(p.ar_coeff_shift, want.ar_coeff_shift);
                assert_eq!(p.overlap_flag, want.overlap_flag);
                assert!(!p.chroma_scaling_from_luma);
            }
            _ => panic!("expected grain parameters"),
        }
    }
    let segments = aggregate_grain_headers(&headers, 1, 1);
    assert_eq!(segments.len(), 1);
}

fn same_params(a: &FilmGrainParams, b: &FilmGrainParams) -> bool {
    format!("{:?}", a) == format!("{:?}", b)
}

#[test]
fn obu_header_fields() {
    let (h, n) = parse_obu_header(&[0x32], 0).unwrap();
    assert_eq!(h.obu_type, ObuType::Frame);
    assert!(h.has_size_field);
    assert!(h.extension.is_none());
    assert_eq!(n, 1);
    let (h, n) = parse_obu_header(&[0x36, 0x48], 0).unwrap();
    assert_eq!(n, 2);
    let e = h.extension.unwrap();
    assert_eq!((e.temporal_id, e.spatial_id), (2, 1));
    assert_eq!(parse_obu_header(&[0x80], 0).unwrap_err(), ParseError::InvalidValue);
    assert_eq!(parse_obu_header(&[0x36, 0x01], 0).unwrap_err(), ParseError::InvalidValue);
}

#[test]
fn inspect_reads_grain_of_each_frame() {
    let packets = stream(3, true, &FilmGrainHeader::UpdateGrain(params(7)));
    let headers = inspect(&packets);
    assert_eq!(headers.len(), 3);
    for h in &headers {
        match h {
            FilmGrainHeader::UpdateGrain(p) => assert!(same_params(p, &params(7))),
            _ => panic!("expected grain parameters"),
        }
    }
}

#[test]
fn no_grain_stream_has_no_segments() {
    let packets = stream(4, false, &FilmGrainHeader::Disable);
    let headers = inspect(&packets);
    assert_eq!(headers.len(), 4);
    assert!(headers.iter().all(|h| matches!(h, FilmGrainHeader::Disable)));
    let segments = aggregate_grain_headers(&headers, 1, 1);
    assert!(segments.is_empty());
    assert_eq!(write_grain_table(&segments), b"filmgrn1\n".to_vec());
}

#[test]
fn frame_before_sequence_header_fails() {
    let pk = frame(true, &FilmGrainHeader::Disable);
    let mut p = BitstreamParser::new();
    assert_eq!(p.parse_packet(&pk, 0), Err(ParseError::SequenceHeaderMissing));
}

#[test]
fn keep_rewrite_is_identity() {
    let packets = stream(3, true, &FilmGrainHeader::UpdateGrain(params(9)));
    let out = rewrite(BitstreamParser::with_policy(GrainPolicy::Keep), &packets);
    assert_eq!(out, packets);
}

#[test]
fn remove_strips_grain() {
    let packets = stream(3, true, &FilmGrainHeader::UpdateGrain(params(9)));
    let removed = rewrite(BitstreamParser::with_writer(None), &packets);
    assert_ne!(removed, packets);
    assert_eq!(removed, stream(3, false, &FilmGrainHeader::Disable));
    assert!(inspect(&removed).iter().all(|h| matches!(h, FilmGrainHeader::Disable)));
}

#[test]
fn strip_is_idempotent() {
    let packets = stream(5, true, &FilmGrainHeader::UpdateGrain(params(3)));
    let once = rewrite(BitstreamParser::with_writer(None), &packets);
    let twice = rewrite(BitstreamParser::with_writer(None), &once);
    assert_eq!(once, twice);
}

#[test]
fn apply_then_inspect_gives_table_params() {
    let packets = stream(4, false, &FilmGrainHeader::Disable);
    let table = vec![GrainTableSegment { start_time: 0, end_time: 20_000_000, grain_params: params(11) }];
    let applied = rewrite(BitstreamParser::with_writer(Some(table)), &packets);
    let headers = inspect(&applied);
    assert_eq!(headers.len(), 4);
    for (i, h) in headers.iter().enumerate() {
        match (i < 2, h) {
            (true, FilmGrainHeader::UpdateGrain(p)) => assert!(same_params(p, &params(11))),
            (false, FilmGrainHeader::Disable) => {}
            _ => panic!("unexpected grain header at frame {}", i),
        }
    }
    let segments = aggregate_grain_headers(&headers, 1, 1);
    assert_eq!(segments.len(), 1);
    assert_eq!((segments[0].start_time, segments[0].end_time), (0, 20_000_000));
}

#[test]
fn apply_parity_restores_stream() {
    let packets = stream(4, true, &FilmGrainHeader::UpdateGrain(params(5)));
    let table = aggregate_grain_headers(&inspect(&packets), 1, 1);
    assert_eq!(table.len(), 1);
    let removed = rewrite(BitstreamParser::with_writer(None), &packets);
    let restored = rewrite(BitstreamParser::with_writer(Some(table)), &removed);
    assert_eq!(restored, packets);
}

#[test]
fn truncated_obu_fails() {
    let mut pk = packet(true, true, &FilmGrainHeader::UpdateGrain(params(1)));
    pk.truncate(pk.len() - 1);
    let mut p = BitstreamParser::new();
    assert_eq!(p.parse_packet(&pk, 0), Err(ParseError::UnexpectedEof));
}

#[test]
fn layer_filtered_obu_is_copied() {
    // A metadata OBU with an extension outside the operating point is passed through.
    let mut pk = packet(true, true, &FilmGrainHeader::UpdateGrain(params(2)));
    pk.extend_from_slice(&[0x2e, 0x08, 0x01, 0x00]);
    let out = rewrite(BitstreamParser::with_writer(None), &[pk.clone()]);
    assert_eq!(&out[0][out[0].len() - 4..], &[0x2e, 0x08, 0x01, 0x00]);
}

#[test]
fn size_field_grows_with_grain() {
    let packets = stream(1, false, &FilmGrainHeader::Disable);
    let table = vec![GrainTableSegment { start_time: 0, end_time: 10, grain_params: params(1) }];
    let applied = rewrite(BitstreamParser::with_writer(Some(table)), &packets);
    assert!(applied[0].len() > packets[0].len());
    let frame_start = applied[0].iter().rposition(|&b| b == 0x32).unwrap();
    let size = grav1synth::leb128::leb128(&applied[0], frame_start + 1).unwrap();
    assert_eq!(frame_start + 1 + size.bytes_read + size.value as usize, applied[0].len());
}

#[test]
fn empty_remainder_is_an_error() {
    let mut p = BitstreamParser::new();
    let mut out = Vec::new();
    assert_eq!(p.parse_obu(&[], 0, 0, &mut out), Err(ParseError::UnexpectedEof));
}

#[test]
fn plain_obus_pass_through() {
    // Metadata, padding and a temporal delimiter, each with a size field.
    let pk = vec![0x2a, 0x02, 0x01, 0x02, 0x7a, 0x01, 0x00, 0x12, 0x00];
    let mut p = BitstreamParser::with_writer(None);
    assert_eq!(p.parse_packet(&pk, 0), Ok(pk.clone()));
    assert!(p.get_grain_headers().is_empty());
}

#[test]
fn redundant_frame_header_is_copied() {
    let mut pk = packet(true, true, &FilmGrainHeader::UpdateGrain(params(4)));
    // A redundant frame header after a frame whose tiles are all read is
    // parsed like a frame header; one that follows a frame header OBU
    // repeats it and is copied.
    let seq_and_td = pk.clone();
    pk.extend_from_slice(&[0x3a, 0x01, 0x00]);
    let mut p = BitstreamParser::with_policy(GrainPolicy::Keep);
    let r = p.parse_packet(&pk, 0);
    assert!(r.is_err() || r == Ok(pk.clone()));
    let mut p = BitstreamParser::with_policy(GrainPolicy::Keep);
    assert_eq!(p.parse_packet(&seq_and_td, 0), Ok(seq_and_td.clone()));
}

//! The sequence header OBU.
use vstd::arithmetic::power2::{lemma2_to64, pow2};
use vstd::prelude::*;

use crate::bits::BitReader;
use crate::color::{ColorPrimaries, ColorRange, MatrixCoefficients, TransferCharacteristics};
use crate::error::ParseError;

verus! {

/// `seq_force_screen_content_tools` value that lets each frame choose.
pub const SELECT_SCREEN_CONTENT_TOOLS: u8 = 2;

/// `seq_force_integer_mv` value that lets each frame choose.
pub const SELECT_INTEGER_MV: u8 = 2;

/// The most operating points a sequence header can list.
pub const MAX_OPERATING_POINTS: usize = 32;

/// Presence of timing information and whether pictures are equally spaced.
#[derive(Debug, Clone, Copy, PartialEq, Eq, Structural)]
pub struct TimingInfo {
    pub equal_picture_interval: bool,
}

/// Field widths of the decoder model.
#[derive(Debug, Clone, Copy, PartialEq, Eq, Structural)]
pub struct DecoderModelInfo {
    pub buffer_delay_length_minus_1: u8,
    pub buffer_removal_time_length_minus_1: u8,
    pub frame_presentation_time_length_minus_1: u8,
}

/// Colour format of the sequence.
#[derive(Debug, Clone, Copy, PartialEq, Eq, Structural)]
pub struct ColorConfig {
    pub bit_depth: u8,
    pub mono_chrome: bool,
    pub color_primaries: ColorPrimaries,
    pub transfer_characteristics: TransferCharacteristics,
    pub matrix_coefficients: MatrixCoefficients,
    pub color_range: ColorRange,
    pub num_planes: u8,
    pub separate_uv_delta_q: bool,
    /// Horizontal chroma subsampling, 0 or 1.
    pub subsampling_x: u8,
    /// Vertical chroma subsampling, 0 or 1.
    pub subsampling_y: u8,
}

/// The fields of a sequence header that later OBUs depend on.
#[derive(Debug, Clone)]
pub struct SequenceHeader {
    pub seq_profile: u8,
    pub still_picture: bool,
    pub reduced_still_picture_header: bool,
    pub timing_info: Option<TimingInfo>,
    pub decoder_model_info: Option<DecoderModelInfo>,
    pub operating_points_cnt_minus_1: usize,
    pub operating_point_idc: Vec<u16>,
    pub decoder_model_present_for_op: Vec<bool>,
    pub cur_operating_point_idc: u16,
    pub frame_width_bits_minus_1: u8,
    pub frame_height_bits_minus_1: u8,
    pub max_frame_width_minus_1: u32,
    pub max_frame_height_minus_1: u32,
    pub frame_id_numbers_present: bool,
    pub delta_frame_id_len_minus_2: u8,
    pub additional_frame_id_len_minus_1: u8,
    pub use_128x128_superblock: bool,
    pub enable_warped_motion: bool,
    pub enable_ref_frame_mvs: bool,
    pub force_screen_content_tools: u8,
    pub force_integer_mv: u8,
    /// Width of order hints in bits; 0 when order hints are off.
    pub order_hint_bits: u8,
    pub enable_superres: bool,
    pub enable_cdef: bool,
    pub enable_restoration: bool,
    pub color_config: ColorConfig,
    pub film_grain_params_present: bool,
    /// Bit position, within the OBU payload, of `film_grain_params_present`.
    pub film_grain_flag_pos: usize,
}

impl SequenceHeader {
    /// The ranges that the syntax gives each field.
    pub open spec fn wf(&self) -> bool {
        &&& self.operating_points_cnt_minus_1 < MAX_OPERATING_POINTS
        &&& self.operating_point_idc@.len() == self.operating_points_cnt_minus_1 + 1
        &&& self.decoder_model_present_for_op@.len() == self.operating_points_cnt_minus_1 + 1
        &&& self.cur_operating_point_idc == self.operating_point_idc@[0]
        &&& self.cur_operating_point_idc < 4096
        &&& forall|i: int| 0 <= i < self.operating_point_idc@.len() ==> #[trigger] self.operating_point_idc@[i] < 4096
        &&& self.color_config.mono_chrome ==> self.color_config.subsampling_x == 1
            && self.color_config.subsampling_y == 1 && !self.color_config.separate_uv_delta_q
        &&& self.frame_width_bits_minus_1 < 16
        &&& self.frame_height_bits_minus_1 < 16
        &&& self.delta_frame_id_len_minus_2 < 16
        &&& self.additional_frame_id_len_minus_1 < 8
        &&& self.force_screen_content_tools <= 2
        &&& self.force_integer_mv <= 2
        &&& self.order_hint_bits <= 8
        &&& (self.color_config.num_planes == 1 <==> self.color_config.mono_chrome)
        &&& (self.color_config.num_planes == 1 || self.color_config.num_planes == 3)
        &&& self.color_config.subsampling_x <= 1
        &&& self.color_config.subsampling_y <= 1
        &&& self.decoder_model_info matches Some(d) ==> d.buffer_delay_length_minus_1 < 32
            && d.buffer_removal_time_length_minus_1 < 32
            && d.frame_presentation_time_length_minus_1 < 32
        &&& self.decoder_model_info is Some ==> self.timing_info is Some
    }

    /// Whether order hints are in use.
    pub fn enable_order_hint(&self) -> (r: bool)
        ensures
            r == (self.order_hint_bits > 0),
    {
        self.order_hint_bits > 0
    }
}

/// Reads the timing information block.
fn timing_info(r: &mut BitReader) -> (res: Result<TimingInfo, ParseError>)
    requires
        old(r).wf(),
    ensures
        final(r).wf(),
        final(r).data@ == old(r).data@,
        final(r).pos >= old(r).pos,
{
    let _num_units_in_display_tick = r.read_bits(32)?;
    let _time_scale = r.read_bits(32)?;
    let equal_picture_interval = r.read_bool()?;
    if equal_picture_interval {
        let _num_ticks_per_picture_minus_1 = r.read_uvlc()?;
    }
    Ok(TimingInfo { equal_picture_interval })
}

/// Reads the decoder model information block.
fn decoder_model_info(r: &mut BitReader) -> (res: Result<DecoderModelInfo, ParseError>)
    requires
        old(r).wf(),
    ensures
        final(r).wf(),
        final(r).data@ == old(r).data@,
        final(r).pos >= old(r).pos,
        res matches Ok(d) ==> d.buffer_delay_length_minus_1 < 32
            && d.buffer_removal_time_length_minus_1 < 32
            && d.frame_presentation_time_length_minus_1 < 32,
{
    proof {
        lemma2_to64();
    }
    let buffer_delay_length_minus_1 = r.read_bits(5)?;
    let _num_units_in_decoding_tick = r.read_bits(32)?;
    let buffer_removal_time_length_minus_1 = r.read_bits(5)?;
    let frame_presentation_time_length_minus_1 = r.read_bits(5)?;
    Ok(
        DecoderModelInfo {
            buffer_delay_length_minus_1: buffer_delay_length_minus_1 as u8,
            buffer_removal_time_length_minus_1: buffer_removal_time_length_minus_1 as u8,
            frame_presentation_time_length_minus_1: frame_presentation_time_length_minus_1 as u8,
        },
    )
}

/// Skips the operating parameters of one operating point.
fn operating_parameters_info(r: &mut BitReader, buffer_delay_length: usize) -> (res: Result<
    (),
    ParseError,
>)
    requires
        old(r).wf(),
        buffer_delay_length <= 32,
    ensures
        final(r).wf(),
        final(r).data@ == old(r).data@,
        final(r).pos >= old(r).pos,
{
    let _decoder_buffer_delay = r.read_bits(buffer_delay_length)?;
    let _encoder_buffer_delay = r.read_bits(buffer_delay_length)?;
    let _low_delay_mode_flag = r.read_bool()?;
    Ok(())
}

/// The operating point this parser decodes: the first one, which holds all layers.
pub fn choose_operating_point() -> (r: usize)
    ensures
        r == 0,
{
    0
}

/// Reads the colour configuration.
pub fn color_config(r: &mut BitReader, seq_profile: u8) -> (res: Result<ColorConfig, ParseError>)
    requires
        old(r).wf(),
    ensures
        final(r).wf(),
        final(r).data@ == old(r).data@,
        final(r).pos >= old(r).pos,
        res matches Ok(cc) ==> {
            &&& (cc.num_planes == 1 <==> cc.mono_chrome)
            &&& (cc.num_planes == 1 || cc.num_planes == 3)
            &&& cc.subsampling_x <= 1
            &&& cc.subsampling_y <= 1
            &&& (cc.bit_depth == 8 || cc.bit_depth == 10 || cc.bit_depth == 12)
            &&& (cc.bit_depth >= 10 <==> old(r).bits()[old(r).pos as int])
            &&& seq_profile < 2 ==> cc.bit_depth == if old(r).bits()[old(r).pos as int] {
                10u8
            } else {
                8u8
            }
            &&& seq_profile == 2 && old(r).bits()[old(r).pos as int] ==> cc.bit_depth == if old(
                r,
            ).bits()[old(r).pos + 1] {
                12u8
            } else {
                10u8
            }
            &&& seq_profile == 0 ==> cc.mono_chrome == old(r).bits()[old(r).pos + 1]
            &&& cc.mono_chrome ==> cc.subsampling_x == 1 && cc.subsampling_y == 1
                && !cc.separate_uv_delta_q
            &&& seq_profile == 1 ==> !cc.mono_chrome
            &&& seq_profile == 0 && !cc.mono_chrome && !(cc.color_primaries == ColorPrimaries::Bt709
                && cc.transfer_characteristics == TransferCharacteristics::Srgb
                && cc.matrix_coefficients == MatrixCoefficients::Identity) ==> cc.subsampling_x
                == 1 && cc.subsampling_y == 1
            &&& seq_profile == 1 && !(cc.color_primaries == ColorPrimaries::Bt709
                && cc.transfer_characteristics == TransferCharacteristics::Srgb
                && cc.matrix_coefficients == MatrixCoefficients::Identity) ==> cc.subsampling_x
                == 0 && cc.subsampling_y == 0
        },
        seq_profile > 2 ==> res is Err,
        seq_profile <= 2 && old(r).remaining() >= 40 ==> res is Ok || res == Err::<
            ColorConfig,
            ParseError,
        >(ParseError::InvalidEnumTag),
        final(r).pos <= old(r).pos + 40,
{
    proof {
        lemma2_to64();
    }
    let high_bitdepth = r.read_bool()?;
    let bit_depth: u8 = if seq_profile == 2 && high_bitdepth {
        let twelve_bit = r.read_bool()?;
        if twelve_bit {
            12
        } else {
            10
        }
    } else if seq_profile <= 2 {
        if high_bitdepth {
            10
        } else {
            8
        }
    } else {
        return Err(ParseError::UnsupportedFeature);
    };
    let mono_chrome = if seq_profile == 1 {
        false
    } else {
        r.read_bool()?
    };
    let num_planes: u8 = if mono_chrome {
        1
    } else {
        3
    };
    let color_description_present_flag = r.read_bool()?;
    let (color_primaries, transfer_characteristics, matrix_coefficients) =
        if color_description_present_flag {
        let cp = r.read_bits(8)?;
        let tc = r.read_bits(8)?;
        let mc = r.read_bits(8)?;
        (
            ColorPrimaries::from_code(cp as u8)?,
            TransferCharacteristics::from_code(tc as u8)?,
            MatrixCoefficients::from_code(mc as u8)?,
        )
    } else {
        (
            ColorPrimaries::Unspecified,
            TransferCharacteristics::Unspecified,
            MatrixCoefficients::Unspecified,
        )
    };
    if mono_chrome {
        let color_range = r.read_bool()?;
        return Ok(
            ColorConfig {
                bit_depth,
                mono_chrome,
                color_primaries,
                transfer_characteristics,
                matrix_coefficients,
                color_range: if color_range {
                    ColorRange::Full
                } else {
                    ColorRange::Limited
                },
                num_planes,
                separate_uv_delta_q: false,
                subsampling_x: 1,
                subsampling_y: 1,
            },
        );
    }
    let (color_range, subsampling) = if color_primaries == ColorPrimaries::Bt709
        && transfer_characteristics == TransferCharacteristics::Srgb && matrix_coefficients
        == MatrixCoefficients::Identity {
        (ColorRange::Full, (0u8, 0u8))
    } else {
        let full = r.read_bool()?;
        let (ss_x, ss_y): (u8, u8) = if seq_profile == 0 {
            (1, 1)
        } else if seq_profile == 1 {
            (0, 0)
        } else if bit_depth == 12 {
            let ss_x = r.read_bits(1)?;
            let ss_y = if ss_x > 0 {
                r.read_bits(1)?
            } else {
                0
            };
            (ss_x as u8, ss_y as u8)
        } else {
            (1, 0)
        };
        if ss_x > 0 && ss_y > 0 {
            let _chroma_sample_position = r.read_bits(2)?;
        }
        (
            if full {
                ColorRange::Full
            } else {
                ColorRange::Limited
            },
            (ss_x, ss_y),
        )
    };
    let separate_uv_delta_q = r.read_bool()?;
    Ok(
        ColorConfig {
            bit_depth,
            mono_chrome,
            color_primaries,
            transfer_characteristics,
            matrix_coefficients,
            color_range,
            num_planes,
            separate_uv_delta_q,
            subsampling_x: subsampling.0,
            subsampling_y: subsampling.1,
        },
    )
}

/// Reads the operating points: their `idc` values and whether each has
/// decoder model parameters.
fn operating_points(
    r: &mut BitReader,
    decoder_model_info_v: Option<DecoderModelInfo>,
    initial_display_delay_present_flag: bool,
) -> (res: Result<(Vec<u16>, Vec<bool>, usize), ParseError>)
    requires
        old(r).wf(),
        decoder_model_info_v matches Some(d) ==> d.buffer_delay_length_minus_1 < 32,
    ensures
        final(r).wf(),
        final(r).data@ == old(r).data@,
        final(r).pos >= old(r).pos,
        res matches Ok((idcs, present, cnt_minus_1)) ==> {
            &&& cnt_minus_1 < MAX_OPERATING_POINTS
            &&& idcs@.len() == cnt_minus_1 + 1
            &&& present@.len() == cnt_minus_1 + 1
            &&& forall|k: int| 0 <= k < idcs@.len() ==> idcs@[k] < 4096
        },
{
    proof {
        lemma2_to64();
    }
    let mut operating_point_idc: Vec<u16> = Vec::new();
    let mut decoder_model_present_for_op: Vec<bool> = Vec::new();
    let operating_points_cnt_minus_1 = r.read_bits(5)? as usize;
    let mut i: usize = 0;
    while i <= operating_points_cnt_minus_1
        invariant
            r.wf(),
            r.data@ == old(r).data@,
            r.pos >= old(r).pos,
            operating_points_cnt_minus_1 < 32,
            i <= operating_points_cnt_minus_1 + 1,
            operating_point_idc@.len() == i,
            decoder_model_present_for_op@.len() == i,
            forall|k: int| 0 <= k < i ==> operating_point_idc@[k] < 4096,
            decoder_model_info_v matches Some(d) ==> d.buffer_delay_length_minus_1 < 32,
        decreases operating_points_cnt_minus_1 + 1 - i,
    {
        proof {
            lemma2_to64();
        }
        let idc = r.read_bits(12)?;
        operating_point_idc.push(idc as u16);
        let seq_level_idx = r.read_bits(5)?;
        if seq_level_idx > 7 {
            let _seq_tier = r.read_bool()?;
        }
        let mut present = false;
        if let Some(d) = decoder_model_info_v {
            present = r.read_bool()?;
            if present {
                operating_parameters_info(r, d.buffer_delay_length_minus_1 as usize + 1)?;
            }
        }
        decoder_model_present_for_op.push(present);
        if initial_display_delay_present_flag {
            let delay_present = r.read_bool()?;
            if delay_present {
                let _initial_display_delay_minus_1 = r.read_bits(4)?;
            }
        }
        i = i + 1;
    }
    Ok((operating_point_idc, decoder_model_present_for_op, operating_points_cnt_minus_1))
}

/// Reads the inter-prediction tool flags of a full sequence header:
/// screen-content and integer-motion defaults, order-hint width, and the
/// reference-motion and warped-motion flags.
fn inter_tools(r: &mut BitReader) -> (res: Result<(u8, u8, u8, bool, bool), ParseError>)
    requires
        old(r).wf(),
    ensures
        final(r).wf(),
        final(r).data@ == old(r).data@,
        final(r).pos >= old(r).pos,
        res matches Ok((sct, imv, ohb, _mvs, _warp)) ==> sct <= 2 && imv <= 2 && ohb <= 8,
{
    proof {
        lemma2_to64();
    }
    let _enable_interintra_compound = r.read_bool()?;
    let _enable_masked_compound = r.read_bool()?;
    let enable_warped_motion = r.read_bool()?;
    let _enable_dual_filter = r.read_bool()?;
    let enable_order_hint = r.read_bool()?;
    let mut enable_ref_frame_mvs = false;
    if enable_order_hint {
        let _enable_jnt_comp = r.read_bool()?;
        enable_ref_frame_mvs = r.read_bool()?;
    }
    let mut force_screen_content_tools = SELECT_SCREEN_CONTENT_TOOLS;
    let mut force_integer_mv = SELECT_INTEGER_MV;
    let seq_choose_screen_content_tools = r.read_bool()?;
    if !seq_choose_screen_content_tools {
        force_screen_content_tools = r.read_bits(1)? as u8;
    }
    if force_screen_content_tools > 0 {
        let seq_choose_integer_mv = r.read_bool()?;
        if !seq_choose_integer_mv {
            force_integer_mv = r.read_bits(1)? as u8;
        }
    }
    let mut order_hint_bits: u8 = 0;
    if enable_order_hint {
        order_hint_bits = r.read_bits(3)? as u8 + 1;
    }
    Ok(
        (
            force_screen_content_tools,
            force_integer_mv,
            order_hint_bits,
            enable_ref_frame_mvs,
            enable_warped_motion,
        ),
    )
}

/// Reads a sequence header OBU payload. On success the cursor stands just
/// after the `film_grain_params_present` bit, whose position the header
/// records.
#[verifier::rlimit(100)]
pub fn parse_sequence_header(r: &mut BitReader) -> (res: Result<SequenceHeader, ParseError>)
    requires
        old(r).wf(),
    ensures
        final(r).wf(),
        final(r).data@ == old(r).data@,
        final(r).pos >= old(r).pos,
        res matches Ok(h) ==> {
            &&& h.wf()
            &&& old(r).pos <= h.film_grain_flag_pos
            &&& final(r).pos == h.film_grain_flag_pos + 1
            &&& h.film_grain_params_present == old(r).bits()[h.film_grain_flag_pos as int]
            &&& h.reduced_still_picture_header == old(r).bits()[old(r).pos + 4]
            &&& h.seq_profile as nat == crate::bits::bits_value(
                old(r).bits().subrange(old(r).pos as int, old(r).pos + 3),
            )
            &&& h.still_picture == old(r).bits()[old(r).pos + 3]
            &&& h.reduced_still_picture_header ==> {
                &&& h.operating_points_cnt_minus_1 == 0
                &&& h.operating_point_idc@ == seq![0u16]
                &&& h.cur_operating_point_idc == 0
                &&& h.order_hint_bits == 0
                &&& h.force_screen_content_tools == SELECT_SCREEN_CONTENT_TOOLS
                &&& h.force_integer_mv == SELECT_INTEGER_MV
                &&& h.timing_info is None
                &&& h.decoder_model_info is None
                &&& !h.frame_id_numbers_present
                &&& !h.enable_ref_frame_mvs
                &&& !h.enable_warped_motion
            }
        },

{
    proof {
        lemma2_to64();
    }
    let seq_profile = r.read_bits(3)? as u8;
    let still_picture = r.read_bool()?;
    let reduced_still_picture_header = r.read_bool()?;
    let mut timing_info_v: Option<TimingInfo> = None;
    let mut decoder_model_info_v: Option<DecoderModelInfo> = None;
    let mut operating_point_idc: Vec<u16> = Vec::new();
    let mut decoder_model_present_for_op: Vec<bool> = Vec::new();
    let mut operating_points_cnt_minus_1: usize = 0;
    if reduced_still_picture_header {
        let _seq_level_idx = r.read_bits(5)?;
        operating_point_idc.push(0);
        decoder_model_present_for_op.push(false);
        assert(operating_point_idc@ =~= seq![0u16]);
    } else {
        let timing_info_present_flag = r.read_bool()?;
        if timing_info_present_flag {
            timing_info_v = Some(timing_info(r)?);
            let decoder_model_info_present_flag = r.read_bool()?;
            if decoder_model_info_present_flag {
                decoder_model_info_v = Some(decoder_model_info(r)?);
            }
        }
        let initial_display_delay_present_flag = r.read_bool()?;
        let (idcs, present, cnt) = operating_points(
            r,
            decoder_model_info_v,
            initial_display_delay_present_flag,
        )?;
        operating_point_idc = idcs;
        decoder_model_present_for_op = present;
        operating_points_cnt_minus_1 = cnt;
    }
    let operating_point = choose_operating_point();
    let cur_operating_point_idc = operating_point_idc[operating_point];
    let frame_width_bits_minus_1 = r.read_bits(4)?;
    let frame_height_bits_minus_1 = r.read_bits(4)?;
    let max_frame_width_minus_1 = r.read_bits((frame_width_bits_minus_1 + 1) as usize)?;
    let max_frame_height_minus_1 = r.read_bits((frame_height_bits_minus_1 + 1) as usize)?;
    let frame_id_numbers_present = if reduced_still_picture_header {
        false
    } else {
        r.read_bool()?
    };
    let mut delta_frame_id_len_minus_2: u64 = 0;
    let mut additional_frame_id_len_minus_1: u64 = 0;
    if frame_id_numbers_present {
        delta_frame_id_len_minus_2 = r.read_bits(4)?;
        additional_frame_id_len_minus_1 = r.read_bits(3)?;
    }
    let use_128x128_superblock = r.read_bool()?;
    let _enable_filter_intra = r.read_bool()?;
    let _enable_intra_edge_filter = r.read_bool()?;
    let mut force_screen_content_tools = SELECT_SCREEN_CONTENT_TOOLS;
    let mut force_integer_mv = SELECT_INTEGER_MV;
    let mut order_hint_bits: u8 = 0;
    let mut enable_ref_frame_mvs = false;
    let mut enable_warped_motion = false;
    if !reduced_still_picture_header {
        let tools = inter_tools(r)?;
        force_screen_content_tools = tools.0;
        force_integer_mv = tools.1;
        order_hint_bits = tools.2;
        enable_ref_frame_mvs = tools.3;
        enable_warped_motion = tools.4;
    }
    let enable_superres = r.read_bool()?;
    let enable_cdef = r.read_bool()?;
    let enable_restoration = r.read_bool()?;
    let color_config = color_config(r, seq_profile)?;
    let film_grain_flag_pos = r.pos;
    let film_grain_params_present = r.read_bool()?;
    Ok(
        SequenceHeader {
            seq_profile,
            still_picture,
            reduced_still_picture_header,
            timing_info: timing_info_v,
            decoder_model_info: decoder_model_info_v,
            operating_points_cnt_minus_1,
            operating_point_idc,
            decoder_model_present_for_op,
            cur_operating_point_idc,
            frame_width_bits_minus_1: frame_width_bits_minus_1 as u8,
            frame_height_bits_minus_1: frame_height_bits_minus_1 as u8,
            max_frame_width_minus_1: max_frame_width_minus_1 as u32,
            max_frame_height_minus_1: max_frame_height_minus_1 as u32,
            frame_id_numbers_present,
            delta_frame_id_len_minus_2: delta_frame_id_len_minus_2 as u8,
            additional_frame_id_len_minus_1: additional_frame_id_len_minus_1 as u8,
            use_128x128_superblock,
            enable_warped_motion,
            enable_ref_frame_mvs,
            force_screen_content_tools,
            force_integer_mv,
            order_hint_bits,
            enable_superres,
            enable_cdef,
            enable_restoration,
            color_config,
            film_grain_params_present,
            film_grain_flag_pos,
        },
    )
}

} // verus!

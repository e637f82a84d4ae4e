//! The uncompressed frame header: enough of it to reach the film grain block
//! at its end, with the reference bookkeeping that later frames need.
use vstd::arithmetic::power2::{lemma2_to64, pow2};
use vstd::prelude::*;

use crate::bits::BitReader;
use crate::error::ParseError;
use crate::frame_type::FrameType;
use crate::grain::{film_grain_params, grain_header_bits, header_wf, FilmGrainHeader, GrainContext};
use crate::obu::ObuExtension;
use crate::sequence::{SequenceHeader, SELECT_INTEGER_MV, SELECT_SCREEN_CONTENT_TOOLS};

verus! {

pub const REFS_PER_FRAME: usize = 7;

pub const TOTAL_REFS_PER_FRAME: usize = 8;

pub const NUM_REF_FRAMES: usize = 8;

pub const REFRESH_ALL_FRAMES: u8 = 0xff;

pub const PRIMARY_REF_NONE: u8 = 7;

pub const SUPERRES_DENOM_BITS: usize = 3;

pub const SUPERRES_DENOM_MIN: u32 = 9;

pub const SUPERRES_NUM: u32 = 8;

pub const MAX_TILE_WIDTH: u32 = 4096;

pub const MAX_TILE_COLS: u32 = 64;

pub const MAX_TILE_ROWS: u32 = 64;

pub const MAX_TILE_AREA: u32 = 9437184;

pub const MAX_SEGMENTS: usize = 8;

pub const SEG_LVL_MAX: usize = 8;

pub const SEG_LVL_ALT_Q: usize = 0;

pub const MAX_LOOP_FILTER: i64 = 63;

/// Reference frame names, in the order the bitstream lists them.
#[derive(Debug, Clone, Copy, PartialEq, Eq, Structural)]
pub enum RefType {
    Intra,
    Last,
    Last2,
    Last3,
    Golden,
    Bwdref,
    Altref2,
    Altref,
}

/// Width and height of a frame, in samples.
#[derive(Debug, Clone, Copy, PartialEq, Eq, Structural)]
pub struct Dimensions {
    pub width: u32,
    pub height: u32,
}

/// How a frame is divided into tiles.
#[derive(Debug, Clone, Copy, PartialEq, Eq, Structural)]
pub struct TileInfo {
    pub tile_cols: u32,
    pub tile_rows: u32,
    pub tile_cols_log2: u32,
    pub tile_rows_log2: u32,
}

impl TileInfo {
    pub open spec fn wf(self) -> bool {
        &&& 1 <= self.tile_cols <= MAX_TILE_COLS
        &&& 1 <= self.tile_rows <= MAX_TILE_ROWS
        &&& self.tile_cols_log2 <= 6
        &&& self.tile_rows_log2 <= 6
    }
}

/// Base quantizer index and the quantizer deltas of a frame.
#[derive(Debug, Clone, Copy, PartialEq, Eq, Structural)]
pub struct QuantizationParams {
    pub base_q_idx: u8,
    pub deltaq_y_dc: i64,
    pub deltaq_u_dc: i64,
    pub deltaq_u_ac: i64,
    pub deltaq_v_dc: i64,
    pub deltaq_v_ac: i64,
}

/// What the parser reports of a frame header.
#[derive(Debug, Clone)]
pub struct FrameHeader {
    pub show_frame: bool,
    pub show_existing_frame: bool,
    pub frame_type: FrameType,
    pub error_resilient_mode: bool,
    pub order_hint: u64,
    pub refresh_frame_flags: u8,
    pub film_grain_params: FilmGrainHeader,
    /// What the grain block's syntax depended on.
    pub grain_ctx: GrainContext,
    /// Bit position, within the OBU payload, where the grain block starts.
    pub grain_start: usize,
    pub tile_info: TileInfo,
}

/// Reference frame bookkeeping carried from frame to frame.
pub struct RefState {
    /// Whether each reference slot holds a decoded frame.
    pub ref_valid: Vec<bool>,
    /// Order hint of the frame in each slot.
    pub ref_order_hint: Vec<u64>,
    /// Kind of the frame in each slot.
    pub ref_frame_type: Vec<FrameType>,
    /// Upscaled width of the frame in each slot.
    pub ref_upscaled_width: Vec<u32>,
    /// Height of the frame in each slot.
    pub ref_frame_height: Vec<u32>,
    /// Slot used for each of the seven references of the current frame.
    pub ref_frame_idx: Vec<usize>,
    /// Order hint of each reference of the current frame, by reference name.
    pub order_hints: Vec<u64>,
}

/// Whether bit `i` of the refresh flags is set.
pub open spec fn refreshes(flags: u8, i: int) -> bool {
    (flags as nat / pow2(i as nat)) % 2 == 1
}

impl RefState {
    pub open spec fn wf(&self) -> bool {
        &&& self.ref_valid@.len() == NUM_REF_FRAMES
        &&& self.ref_order_hint@.len() == NUM_REF_FRAMES
        &&& self.ref_frame_type@.len() == NUM_REF_FRAMES
        &&& self.ref_upscaled_width@.len() == NUM_REF_FRAMES
        &&& self.ref_frame_height@.len() == NUM_REF_FRAMES
        &&& self.ref_frame_idx@.len() == REFS_PER_FRAME
        &&& self.order_hints@.len() == TOTAL_REFS_PER_FRAME
        &&& forall|i: int| 0 <= i < REFS_PER_FRAME ==> self.ref_frame_idx@[i] < NUM_REF_FRAMES
        &&& forall|i: int| 0 <= i < NUM_REF_FRAMES ==> self.ref_upscaled_width@[i] <= 65536
        &&& forall|i: int| 0 <= i < NUM_REF_FRAMES ==> self.ref_frame_height@[i] <= 65536
        &&& forall|i: int| 0 <= i < NUM_REF_FRAMES ==> self.ref_order_hint@[i] < 256
    }

    /// The state before any frame: every slot empty.
    pub fn new() -> (r: RefState)
        ensures
            r.wf(),
            forall|i: int| 0 <= i < NUM_REF_FRAMES ==> !r.ref_valid@[i],
    {
        RefState {
            ref_valid: vec![false; NUM_REF_FRAMES],
            ref_order_hint: vec![0; NUM_REF_FRAMES],
            ref_frame_type: vec![FrameType::Key; NUM_REF_FRAMES],
            ref_upscaled_width: vec![0; NUM_REF_FRAMES],
            ref_frame_height: vec![0; NUM_REF_FRAMES],
            ref_frame_idx: vec![0; REFS_PER_FRAME],
            order_hints: vec![0; TOTAL_REFS_PER_FRAME],
        }
    }

    /// An independent copy.
    pub fn duplicate(&self) -> (r: RefState)
        ensures
            r.ref_valid@ == self.ref_valid@,
            r.ref_order_hint@ == self.ref_order_hint@,
            r.ref_frame_type@ == self.ref_frame_type@,
            r.ref_upscaled_width@ == self.ref_upscaled_width@,
            r.ref_frame_height@ == self.ref_frame_height@,
            r.ref_frame_idx@ == self.ref_frame_idx@,
            r.order_hints@ == self.order_hints@,
    {
        let r = RefState {
            ref_valid: self.ref_valid.clone(),
            ref_order_hint: self.ref_order_hint.clone(),
            ref_frame_type: self.ref_frame_type.clone(),
            ref_upscaled_width: self.ref_upscaled_width.clone(),
            ref_frame_height: self.ref_frame_height.clone(),
            ref_frame_idx: self.ref_frame_idx.clone(),
            order_hints: self.order_hints.clone(),
        };
        assert(r.ref_valid@ =~= self.ref_valid@);
        assert(r.ref_order_hint@ =~= self.ref_order_hint@);
        assert(r.ref_frame_type@ =~= self.ref_frame_type@);
        assert(r.ref_upscaled_width@ =~= self.ref_upscaled_width@);
        assert(r.ref_frame_height@ =~= self.ref_frame_height@);
        assert(r.ref_frame_idx@ =~= self.ref_frame_idx@);
        assert(r.order_hints@ =~= self.order_hints@);
        r
    }

    /// The reset that a shown key frame makes: every slot invalid with order
    /// hint 0, and the order hints of all references 0.
    pub fn reset_for_key_frame(&mut self)
        requires
            old(self).wf(),
        ensures
            final(self).wf(),
            forall|i: int| 0 <= i < NUM_REF_FRAMES ==> !final(self).ref_valid@[i],
            forall|i: int| 0 <= i < NUM_REF_FRAMES ==> final(self).ref_order_hint@[i] == 0,
            forall|i: int| 1 <= i < TOTAL_REFS_PER_FRAME ==> final(self).order_hints@[i] == 0,
            final(self).order_hints@[0] == old(self).order_hints@[0],
            final(self).ref_frame_type@ == old(self).ref_frame_type@,
            final(self).ref_upscaled_width@ == old(self).ref_upscaled_width@,
            final(self).ref_frame_height@ == old(self).ref_frame_height@,
            final(self).ref_frame_idx@ == old(self).ref_frame_idx@,
    {
        let mut i: usize = 0;
        while i < NUM_REF_FRAMES
            invariant
                i <= NUM_REF_FRAMES,
                self.wf(),
                forall|k: int| 0 <= k < i ==> !self.ref_valid@[k],
                forall|k: int| 0 <= k < i ==> self.ref_order_hint@[k] == 0,
                self.order_hints@ == old(self).order_hints@,
                self.ref_frame_type@ == old(self).ref_frame_type@,
                self.ref_upscaled_width@ == old(self).ref_upscaled_width@,
                self.ref_frame_height@ == old(self).ref_frame_height@,
                self.ref_frame_idx@ == old(self).ref_frame_idx@,
            decreases NUM_REF_FRAMES - i,
        {
            self.ref_valid.set(i, false);
            self.ref_order_hint.set(i, 0);
            i = i + 1;
        }
        let mut j: usize = 0;
        while j < REFS_PER_FRAME
            invariant
                j <= REFS_PER_FRAME,
                self.wf(),
                forall|k: int| 0 <= k < NUM_REF_FRAMES ==> !self.ref_valid@[k],
                forall|k: int| 0 <= k < NUM_REF_FRAMES ==> self.ref_order_hint@[k] == 0,
                forall|k: int| 1 <= k < j + 1 ==> self.order_hints@[k] == 0,
                self.order_hints@[0] == old(self).order_hints@[0],
                self.ref_frame_type@ == old(self).ref_frame_type@,
                self.ref_upscaled_width@ == old(self).ref_upscaled_width@,
                self.ref_frame_height@ == old(self).ref_frame_height@,
                self.ref_frame_idx@ == old(self).ref_frame_idx@,
            decreases REFS_PER_FRAME - j,
        {
            self.order_hints.set(j + 1, 0);
            j = j + 1;
        }
    }

    /// Stores the current frame in every slot whose bit is set in `flags`.
    pub fn refresh(
        &mut self,
        flags: u8,
        order_hint: u64,
        frame_type: FrameType,
        upscaled_width: u32,
        frame_height: u32,
    )
        requires
            old(self).wf(),
            upscaled_width <= 65536,
            frame_height <= 65536,
            order_hint < 256,
        ensures
            final(self).wf(),
            forall|i: int|
                0 <= i < NUM_REF_FRAMES ==> if refreshes(flags, i) {
                    &&& final(self).ref_valid@[i]
                    &&& final(self).ref_order_hint@[i] == order_hint
                    &&& final(self).ref_frame_type@[i] == frame_type
                    &&& final(self).ref_upscaled_width@[i] == upscaled_width
                    &&& final(self).ref_frame_height@[i] == frame_height
                } else {
                    &&& final(self).ref_valid@[i] == old(self).ref_valid@[i]
                    &&& final(self).ref_order_hint@[i] == old(self).ref_order_hint@[i]
                    &&& final(self).ref_frame_type@[i] == old(self).ref_frame_type@[i]
                    &&& final(self).ref_upscaled_width@[i] == old(self).ref_upscaled_width@[i]
                    &&& final(self).ref_frame_height@[i] == old(self).ref_frame_height@[i]
                },
            final(self).ref_frame_idx@ == old(self).ref_frame_idx@,
            final(self).order_hints@ == old(self).order_hints@,
    {
        let mut i: usize = 0;
        let mut rest: u8 = flags;
        proof {
            lemma2_to64();
        }
        while i < NUM_REF_FRAMES
            invariant
                i <= NUM_REF_FRAMES,
                self.wf(),
                upscaled_width <= 65536,
                frame_height <= 65536,
                order_hint < 256,
                rest as nat == flags as nat / pow2(i as nat),
                forall|k: int|
                    0 <= k < i ==> if refreshes(flags, k) {
                        &&& self.ref_valid@[k]
                        &&& self.ref_order_hint@[k] == order_hint
                        &&& self.ref_frame_type@[k] == frame_type
                        &&& self.ref_upscaled_width@[k] == upscaled_width
                        &&& self.ref_frame_height@[k] == frame_height
                    } else {
                        &&& self.ref_valid@[k] == old(self).ref_valid@[k]
                        &&& self.ref_order_hint@[k] == old(self).ref_order_hint@[k]
                        &&& self.ref_frame_type@[k] == old(self).ref_frame_type@[k]
                        &&& self.ref_upscaled_width@[k] == old(self).ref_upscaled_width@[k]
                        &&& self.ref_frame_height@[k] == old(self).ref_frame_height@[k]
                    },
                forall|k: int|
                    i <= k < NUM_REF_FRAMES ==> {
                        &&& self.ref_valid@[k] == old(self).ref_valid@[k]
                        &&& self.ref_order_hint@[k] == old(self).ref_order_hint@[k]
                        &&& self.ref_frame_type@[k] == old(self).ref_frame_type@[k]
                        &&& self.ref_upscaled_width@[k] == old(self).ref_upscaled_width@[k]
                        &&& self.ref_frame_height@[k] == old(self).ref_frame_height@[k]
                    },
                self.ref_frame_idx@ == old(self).ref_frame_idx@,
                self.order_hints@ == old(self).order_hints@,
            decreases NUM_REF_FRAMES - i,
        {
            if rest % 2 == 1 {
                self.ref_valid.set(i, true);
                self.ref_order_hint.set(i, order_hint);
                self.ref_frame_type.set(i, frame_type);
                self.ref_upscaled_width.set(i, upscaled_width);
                self.ref_frame_height.set(i, frame_height);
            }
            proof {
                vstd::arithmetic::power2::lemma_pow2_pos(i as nat);
                vstd::arithmetic::div_mod::lemma_div_denominator(
                    flags as int,
                    pow2(i as nat) as int,
                    2,
                );
                vstd::arithmetic::power2::lemma_pow2_unfold((i + 1) as nat);
                vstd::arithmetic::power2::lemma_pow2_pos(i as nat);
                assert(pow2(i as nat) * 2 == pow2((i + 1) as nat));
            }
            rest = rest / 2;
            i = i + 1;
        }
    }

    /// Copies slot `idx` into every slot, as showing an earlier key frame does.
    pub fn reload_all_from(&mut self, idx: usize)
        requires
            old(self).wf(),
            idx < NUM_REF_FRAMES,
        ensures
            final(self).wf(),
            forall|i: int|
                0 <= i < NUM_REF_FRAMES ==> {
                    &&& final(self).ref_valid@[i] == old(self).ref_valid@[idx as int]
                    &&& final(self).ref_order_hint@[i] == old(self).ref_order_hint@[idx as int]
                    &&& final(self).ref_frame_type@[i] == old(self).ref_frame_type@[idx as int]
                },
    {
        let valid = self.ref_valid[idx];
        let hint = self.ref_order_hint[idx];
        let ft = self.ref_frame_type[idx];
        let w = self.ref_upscaled_width[idx];
        let h = self.ref_frame_height[idx];
        let mut i: usize = 0;
        while i < NUM_REF_FRAMES
            invariant
                i <= NUM_REF_FRAMES,
                self.wf(),
                w <= 65536,
                h <= 65536,
                hint < 256,
                valid == old(self).ref_valid@[idx as int],
                hint == old(self).ref_order_hint@[idx as int],
                ft == old(self).ref_frame_type@[idx as int],
                forall|k: int|
                    0 <= k < i ==> self.ref_valid@[k] == valid && self.ref_order_hint@[k] == hint
                        && self.ref_frame_type@[k] == ft,
            decreases NUM_REF_FRAMES - i,
        {
            self.ref_valid.set(i, valid);
            self.ref_order_hint.set(i, hint);
            self.ref_frame_type.set(i, ft);
            self.ref_upscaled_width.set(i, w);
            self.ref_frame_height.set(i, h);
            i = i + 1;
        }
    }
}

/// The cursor moved forward over the same data and is still well formed.
pub open spec fn advanced(a: BitReader, b: BitReader) -> bool {
    &&& b.wf()
    &&& b.data@ == a.data@
    &&& b.pos >= a.pos
}

/// Mode-info columns and rows of a frame: twice its size in 8-sample units.
pub fn compute_image_size(frame_size: Dimensions) -> (r: (u32, u32))
    requires
        frame_size.width <= u32::MAX - 7,
        frame_size.height <= u32::MAX - 7,
    ensures
        r.0 == 2 * ((frame_size.width + 7) / 8),
        r.1 == 2 * ((frame_size.height + 7) / 8),
{
    let mi_cols = 2 * ((frame_size.width + 7) / 8);
    let mi_rows = 2 * ((frame_size.height + 7) / 8);
    (mi_cols, mi_rows)
}

/// The signed distance between two order hints of `bits` bits, as AV1
/// defines it: the difference reduced to the range `-2^(bits-1)..2^(bits-1)`.
pub open spec fn relative_dist(a: i64, b: i64, bits: u64) -> i64 {
    if bits == 0 {
        0
    } else {
        let diff = (a - b) as i64;
        let m = pow2((bits - 1) as nat) as i64;
        ((diff & (m - 1) as i64) - (diff & m)) as i64
    }
}

/// Signed distance between two order hints, for order hints of `bits` bits.
pub fn get_relative_dist(a: i64, b: i64, bits: u64) -> (r: i64)
    requires
        bits <= 62,
        i64::MIN <= a - b <= i64::MAX,
    ensures
        r == relative_dist(a, b, bits),
        bits >= 1 ==> -pow2((bits - 1) as nat) <= r < pow2((bits - 1) as nat),
        bits <= 32 ==> -0x8000_0000 <= r < 0x8000_0000,
{
    if bits == 0 {
        return 0;
    }
    let diff = a - b;
    proof {
        lemma2_to64();
        vstd::arithmetic::power2::lemma2_to64_rest();
        if bits < 62 {
            vstd::arithmetic::power2::lemma_pow2_strictly_increases((bits - 1) as nat, 61);
        }
        if bits < 32 {
            vstd::arithmetic::power2::lemma_pow2_strictly_increases((bits - 1) as nat, 31);
        }
        vstd::arithmetic::power2::lemma_pow2_pos((bits - 1) as nat);
        vstd::bits::lemma_u64_shl_is_mul(1, (bits - 1) as u64);
    }
    let m: i64 = (1u64 << (bits - 1)) as i64;
    let mm: i64 = m - 1;
    let lo = diff & mm;
    let hi = diff & m;
    assert(0 <= lo <= mm) by (bit_vector)
        requires
            lo == diff & mm,
            0 <= mm,
    ;
    assert(0 <= hi <= m) by (bit_vector)
        requires
            hi == diff & m,
            0 <= m,
    ;
    lo - hi
}

/// Whether feature `feature` of segment `segment_id` is enabled.
pub fn seg_feature_active_idx(
    segment_id: usize,
    feature: usize,
    feature_data: &Option<Vec<Option<i16>>>,
) -> (r: bool)
    requires
        segment_id < MAX_SEGMENTS,
        feature < SEG_LVL_MAX,
        feature_data matches Some(d) ==> d@.len() == MAX_SEGMENTS * SEG_LVL_MAX,
    ensures
        r == (feature_data matches Some(d) && d@[(segment_id * SEG_LVL_MAX + feature) as int] is Some),
{
    match feature_data {
        Some(d) => d[segment_id * SEG_LVL_MAX + feature].is_some(),
        None => false,
    }
}

/// A quantizer index brought into `0..=255`.
pub open spec fn clamp_qindex(q: int) -> int {
    if q < 0 {
        0
    } else if q > 255 {
        255
    } else {
        q
    }
}

/// The quantizer index of segment `segment_id`: the base index adjusted by the
/// segment's quantizer feature when it is enabled.
pub open spec fn segment_qindex(
    segment_id: int,
    base_q_idx: u8,
    feature_data: Option<Vec<Option<i16>>>,
) -> int {
    match feature_data {
        Some(d) => match d@[segment_id * SEG_LVL_MAX] {
            Some(q) => clamp_qindex(base_q_idx as int + q as int),
            None => base_q_idx as int,
        },
        None => base_q_idx as int,
    }
}

/// The quantizer index of a segment, ignoring per-block deltas.
pub fn get_qindex(segment_id: usize, base_q_idx: u8, feature_data: &Option<Vec<Option<i16>>>) -> (r:
    u8)
    requires
        segment_id < MAX_SEGMENTS,
        feature_data matches Some(d) ==> d@.len() == MAX_SEGMENTS * SEG_LVL_MAX,
    ensures
        r as int == segment_qindex(segment_id as int, base_q_idx, *feature_data),
{
    match feature_data {
        Some(d) => {
            match d[segment_id * SEG_LVL_MAX + SEG_LVL_ALT_Q] {
                Some(q) => {
                    let qindex = base_q_idx as i32 + q as i32;
                    if qindex < 0 {
                        0
                    } else if qindex > 255 {
                        255
                    } else {
                        qindex as u8
                    }
                },
                None => base_q_idx,
            }
        },
        None => base_q_idx,
    }
}

/// Reads `frame_presentation_time`.
fn temporal_point_info(r: &mut BitReader, frame_presentation_time_length: usize) -> (res: Result<
    (),
    ParseError,
>)
    requires
        old(r).wf(),
        frame_presentation_time_length <= 32,
    ensures
        advanced(*old(r), *final(r)),
        final(r).pos <= old(r).pos + frame_presentation_time_length,
        res is Ok ==> final(r).pos == old(r).pos + frame_presentation_time_length,
        old(r).remaining() >= frame_presentation_time_length ==> res is Ok,
{
    let _frame_presentation_time = r.read_bits(frame_presentation_time_length)?;
    Ok(())
}

/// Reads the superres parameters and returns the coded width for an upscaled width.
fn superres_params(r: &mut BitReader, enable_superres: bool, upscaled_width: u32) -> (res: Result<
    u32,
    ParseError,
>)
    requires
        old(r).wf(),
        upscaled_width <= 65536,
    ensures
        advanced(*old(r), *final(r)),
        res matches Ok(w) ==> w <= upscaled_width,
{
    proof {
        lemma2_to64();
    }
    let use_superres = if enable_superres {
        r.read_bool()?
    } else {
        false
    };
    let superres_denom: u32 = if use_superres {
        let coded_denom = r.read_bits(SUPERRES_DENOM_BITS)?;
        coded_denom as u32 + SUPERRES_DENOM_MIN
    } else {
        SUPERRES_NUM
    };
    let w = (upscaled_width * SUPERRES_NUM + superres_denom / 2) / superres_denom;
    assert(w <= upscaled_width) by (nonlinear_arith)
        requires
            w as int == (upscaled_width as int * 8 + superres_denom as int / 2) / superres_denom as int,
            superres_denom >= 8,
    ;
    Ok(w)
}

/// Reads `frame_size()`: returns the coded size and the upscaled width.
fn frame_size(
    r: &mut BitReader,
    seq: &SequenceHeader,
    frame_size_override_flag: bool,
) -> (res: Result<(Dimensions, u32), ParseError>)
    requires
        old(r).wf(),
        seq.wf(),
    ensures
        advanced(*old(r), *final(r)),
        res matches Ok((d, uw)) ==> d.width <= uw <= 65536 && d.height <= 65536,
{
    proof {
        lemma2_to64();
    }
    let (width, height) = if frame_size_override_flag {
        let w = r.read_bits(seq.frame_width_bits_minus_1 as usize + 1)?;
        let h = r.read_bits(seq.frame_height_bits_minus_1 as usize + 1)?;
        proof {
            vstd::arithmetic::power2::lemma_pow2_strictly_increases(
                seq.frame_width_bits_minus_1 as nat + 1,
                17,
            );
            vstd::arithmetic::power2::lemma_pow2_strictly_increases(
                seq.frame_height_bits_minus_1 as nat + 1,
                17,
            );
        }
        (w as u32 + 1, h as u32 + 1)
    } else {
        if seq.max_frame_width_minus_1 >= 65536 || seq.max_frame_height_minus_1 >= 65536 {
            return Err(ParseError::InvalidValue);
        }
        (seq.max_frame_width_minus_1 + 1, seq.max_frame_height_minus_1 + 1)
    };
    let coded_width = superres_params(r, seq.enable_superres, width)?;
    Ok((Dimensions { width: coded_width, height }, width))
}

/// Reads `render_size()`.
fn render_size(r: &mut BitReader) -> (res: Result<(), ParseError>)
    requires
        old(r).wf(),
    ensures
        advanced(*old(r), *final(r)),
{
    let render_and_frame_size_different = r.read_bool()?;
    if render_and_frame_size_different {
        let _render_width_minus_1 = r.read_bits(16)?;
        let _render_height_minus_1 = r.read_bits(16)?;
    }
    Ok(())
}

/// Reads `frame_size_with_refs()`: the size comes from a reference frame or is coded.
fn frame_size_with_refs(
    r: &mut BitReader,
    seq: &SequenceHeader,
    refs: &RefState,
    frame_size_override_flag: bool,
) -> (res: Result<(Dimensions, u32), ParseError>)
    requires
        old(r).wf(),
        seq.wf(),
        refs.wf(),
    ensures
        advanced(*old(r), *final(r)),
        res matches Ok((d, uw)) ==> d.width <= uw <= 65536 && d.height <= 65536,
{
    let mut i: usize = 0;
    while i < REFS_PER_FRAME
        invariant
            advanced(*old(r), *r),
            refs.wf(),
            i <= REFS_PER_FRAME,
        decreases REFS_PER_FRAME - i,
    {
        let found_ref = r.read_bool()?;
        if found_ref {
            let slot = refs.ref_frame_idx[i];
            let upscaled_width = refs.ref_upscaled_width[slot];
            let height = refs.ref_frame_height[slot];
            let coded_width = superres_params(r, seq.enable_superres, upscaled_width)?;
            return Ok((Dimensions { width: coded_width, height }, upscaled_width));
        }
        i = i + 1;
    }
    let (size, upscaled_width) = frame_size(r, seq, frame_size_override_flag)?;
    render_size(r)?;
    Ok((size, upscaled_width))
}

/// Reads `read_interpolation_filter()`.
fn read_interpolation_filter(r: &mut BitReader) -> (res: Result<(), ParseError>)
    requires
        old(r).wf(),
    ensures
        advanced(*old(r), *final(r)),
{
    let is_filter_switchable = r.read_bool()?;
    if !is_filter_switchable {
        let _interpolation_filter = r.read_bits(2)?;
    }
    Ok(())
}

/// The smallest `k` with `blk_size << k >= target`.
pub fn tile_log2(blk_size: u32, target: u32) -> (r: u32)
    requires
        blk_size >= 1,
    ensures
        r <= 32,
        blk_size as nat * pow2(r as nat) >= target,
        r > 0 ==> blk_size as nat * pow2((r - 1) as nat) < target,
{
    let mut k: u32 = 0;
    let mut v: u64 = blk_size as u64;
    proof {
        lemma2_to64();
        lemma_pow2_32();
    }
    while v < target as u64
        invariant
            k <= 32,
            blk_size >= 1,
            v == blk_size as nat * pow2(k as nat),
            k > 0 ==> blk_size as nat * pow2((k - 1) as nat) < target,
            v < target ==> k < 32,
        decreases 32 - k,
    {
        proof {
            vstd::arithmetic::power2::lemma_pow2_unfold((k + 1) as nat);
            if k + 1 < 32 {
                vstd::arithmetic::power2::lemma_pow2_strictly_increases((k + 1) as nat, 32);
            }
            lemma2_to64();
            assert(blk_size as nat * pow2((k + 1) as nat) == 2 * v) by (nonlinear_arith)
                requires
                    v == blk_size as nat * pow2(k as nat),
                    pow2((k + 1) as nat) == 2 * pow2(k as nat),
            ;
            assert(2 * v >= 2 * (pow2(k as nat))) by (nonlinear_arith)
                requires
                    v == blk_size as nat * pow2(k as nat),
                    blk_size >= 1,
            ;
        }
        v = v * 2;
        k = k + 1;
    }
    k
}

proof fn lemma_pow2_32()
    ensures
        pow2(32) == 0x1_0000_0000,
{
    lemma2_to64();
}

/// Superblocks across `mi` mode-info units.
pub open spec fn sb_count(mi: nat, use_128x128_superblock: bool) -> nat {
    if use_128x128_superblock {
        (mi + 31) / 32
    } else {
        (mi + 15) / 16
    }
}

/// Tiles along a side of `sb` superblocks with uniform spacing of
/// `2^log2` tiles: each tile is `ceil(sb / 2^log2)` superblocks wide, and
/// the count is how many such tiles cover the side.
pub open spec fn uniform_tiles(sb: nat, log2: nat) -> nat {
    let w = ((sb + pow2(log2) - 1) as nat) / pow2(log2);
    if w == 0 {
        0
    } else {
        ((sb + w - 1) as nat) / w
    }
}

/// Spacing `sb` superblocks into tiles of `ceil(sb / s)` gives at most `s` tiles.
proof fn lemma_tile_count(sb: int, s: int)
    requires
        sb >= 0,
        s >= 1,
        (sb + s - 1) / s >= 1,
    ensures
        (sb + (sb + s - 1) / s - 1) / ((sb + s - 1) / s) <= s,
{
    let w = (sb + s - 1) / s;
    vstd::arithmetic::div_mod::lemma_fundamental_div_mod(sb + s - 1, s);
    assert(w * s >= sb) by {
        vstd::arithmetic::div_mod::lemma_mod_pos_bound(sb + s - 1, s);
        assert(s * w == w * s) by (nonlinear_arith);
    };
    vstd::arithmetic::div_mod::lemma_div_is_ordered(sb + w - 1, w * s + (w - 1), w);
    vstd::arithmetic::div_mod::lemma_div_multiples_vanish_fancy(s, w - 1, w);
    assert(w * s == s * w) by (nonlinear_arith);
}

/// Reads `tile_info()` for a frame of `mi_cols` by `mi_rows` mode-info units.
pub fn tile_info(r: &mut BitReader, use_128x128_superblock: bool, mi_cols: u32, mi_rows: u32) -> (res:
    Result<TileInfo, ParseError>)
    requires
        old(r).wf(),
        mi_cols <= 20000,
        mi_rows <= 20000,
    ensures
        advanced(*old(r), *final(r)),
        res matches Ok(t) ==> t.wf() && t.tile_cols <= pow2(t.tile_cols_log2 as nat)
            && t.tile_rows <= pow2(t.tile_rows_log2 as nat),
        final(r).pos <= old(r).pos + 41000,
        old(r).remaining() >= 1 && old(r).bits()[old(r).pos as int] ==> (res matches Ok(t) ==> (
        t.tile_cols == uniform_tiles(sb_count(mi_cols as nat, use_128x128_superblock), t.tile_cols_log2 as nat)
            && t.tile_rows == uniform_tiles(
            sb_count(mi_rows as nat, use_128x128_superblock),
            t.tile_rows_log2 as nat,
        ))),
        old(r).remaining() >= 41000 ==> res is Ok || res == Err::<TileInfo, ParseError>(
            ParseError::InvalidValue,
        ),
{
    let sb_cols = if use_128x128_superblock {
        (mi_cols + 31) / 32
    } else {
        (mi_cols + 15) / 16
    };
    let sb_rows = if use_128x128_superblock {
        (mi_rows + 31) / 32
    } else {
        (mi_rows + 15) / 16
    };
    // MAX_TILE_WIDTH and MAX_TILE_AREA in superblocks of 128 or 64 samples.
    let max_tile_width_sb: u32 = if use_128x128_superblock {
        32
    } else {
        64
    };
    let max_tile_area_sb: u32 = if use_128x128_superblock {
        576
    } else {
        2304
    };
    assert(sb_cols <= 2000 && sb_rows <= 2000);
    assert(max_tile_width_sb >= 32 && max_tile_area_sb >= 512);
    let min_log2_tile_cols = tile_log2(max_tile_width_sb, sb_cols);
    let max_log2_tile_cols = tile_log2(
        1,
        if sb_cols < MAX_TILE_COLS {
            sb_cols
        } else {
            MAX_TILE_COLS
        },
    );
    let max_log2_tile_rows = tile_log2(
        1,
        if sb_rows < MAX_TILE_ROWS {
            sb_rows
        } else {
            MAX_TILE_ROWS
        },
    );
    assert(sb_rows * sb_cols <= 4_000_000) by (nonlinear_arith)
        requires
            sb_cols <= 2000,
            sb_rows <= 2000,
    ;
    let area_log2 = tile_log2(max_tile_area_sb, sb_rows * sb_cols);
    let min_log2_tiles = if min_log2_tile_cols > area_log2 {
        min_log2_tile_cols
    } else {
        area_log2
    };
    let uniform_tile_spacing_flag = r.read_bool()?;
    let mut tile_cols: u32;
    let mut tile_rows: u32;
    let mut tile_cols_log2: u32;
    let mut tile_rows_log2: u32;
    if uniform_tile_spacing_flag {
        tile_cols_log2 = min_log2_tile_cols;
        let ghost p_cols = r.pos as int;
        let mut more_cols = true;
        while more_cols && tile_cols_log2 < max_log2_tile_cols
            invariant
                advanced(*old(r), *r),
                max_log2_tile_cols <= 32,
                min_log2_tile_cols <= tile_cols_log2 <= 32,
                p_cols == old(r).pos + 1,
                r.pos == p_cols + (tile_cols_log2 - min_log2_tile_cols) + (if more_cols {
                    0int
                } else {
                    1int
                }),
            decreases 33 - tile_cols_log2 - (if more_cols {
                0int
            } else {
                1int
            }),
        {
            let increment_tile_cols_log2 = r.read_bool()?;
            if increment_tile_cols_log2 {
                tile_cols_log2 = tile_cols_log2 + 1;
            } else {
                more_cols = false;
            }
        }
        if tile_cols_log2 > 6 {
            return Err(ParseError::InvalidValue);
        }
        let cols_step: u32 = 1u32 << tile_cols_log2;
        assert(1 <= cols_step <= 64) by (bit_vector)
            requires
                cols_step == 1u32 << tile_cols_log2,
                tile_cols_log2 <= 6,
        ;
        let tile_width_sb = (sb_cols + cols_step - 1) / cols_step;
        if tile_width_sb == 0 {
            return Err(ParseError::InvalidValue);
        }
        tile_cols = (sb_cols + tile_width_sb - 1) / tile_width_sb;
        proof {
            lemma2_to64();
            if tile_cols_log2 < 6 {
                vstd::arithmetic::power2::lemma_pow2_strictly_increases(tile_cols_log2 as nat, 6);
            }
            vstd::bits::lemma_u32_shl_is_mul(1, tile_cols_log2);
            lemma_tile_count(sb_cols as int, cols_step as int);
        }
        let min_log2_tile_rows = if min_log2_tiles > tile_cols_log2 {
            min_log2_tiles - tile_cols_log2
        } else {
            0
        };
        tile_rows_log2 = min_log2_tile_rows;
        let ghost p_rows = r.pos as int;
        let mut more_rows = true;
        while more_rows && tile_rows_log2 < max_log2_tile_rows
            invariant
                advanced(*old(r), *r),
                max_log2_tile_rows <= 32,
                min_log2_tile_rows <= tile_rows_log2 <= 32,
                p_rows <= old(r).pos + 34,
                r.pos == p_rows + (tile_rows_log2 - min_log2_tile_rows) + (if more_rows {
                    0int
                } else {
                    1int
                }),
            decreases 33 - tile_rows_log2 - (if more_rows {
                0int
            } else {
                1int
            }),
        {
            let increment_tile_rows_log2 = r.read_bool()?;
            if increment_tile_rows_log2 {
                tile_rows_log2 = tile_rows_log2 + 1;
            } else {
                more_rows = false;
            }
        }
        if tile_rows_log2 > 6 {
            return Err(ParseError::InvalidValue);
        }
        let rows_step: u32 = 1u32 << tile_rows_log2;
        assert(1 <= rows_step <= 64) by (bit_vector)
            requires
                rows_step == 1u32 << tile_rows_log2,
                tile_rows_log2 <= 6,
        ;
        let tile_height_sb = (sb_rows + rows_step - 1) / rows_step;
        if tile_height_sb == 0 {
            return Err(ParseError::InvalidValue);
        }
        tile_rows = (sb_rows + tile_height_sb - 1) / tile_height_sb;
        proof {
            lemma2_to64();
            if tile_rows_log2 < 6 {
                vstd::arithmetic::power2::lemma_pow2_strictly_increases(tile_rows_log2 as nat, 6);
            }
            vstd::bits::lemma_u32_shl_is_mul(1, tile_rows_log2);
            lemma_tile_count(sb_rows as int, rows_step as int);
        }
    } else {
        let mut widest_tile_sb: u32 = 0;
        let mut start_sb: u32 = 0;
        let mut i: u32 = 0;
        let ghost pc = r.pos as int;
        while start_sb < sb_cols
            invariant
                advanced(*old(r), *r),
                r.pos <= pc + 7 * i,
                pc == old(r).pos + 1,
                max_tile_width_sb <= 64,
                start_sb <= sb_cols,
                sb_cols <= 2000,
                i <= start_sb,
                widest_tile_sb <= start_sb,
                max_tile_width_sb >= 32,
            decreases sb_cols - start_sb,
        {
            let max_width = if sb_cols - start_sb < max_tile_width_sb {
                sb_cols - start_sb
            } else {
                max_tile_width_sb
            };
            let width_in_sbs_minus_1 = r.read_ns(max_width)?;
            let size_sb = width_in_sbs_minus_1 + 1;
            if size_sb > widest_tile_sb {
                widest_tile_sb = size_sb;
            }
            start_sb = start_sb + size_sb;
            i = i + 1;
        }
        tile_cols = i;
        if widest_tile_sb == 0 {
            return Err(ParseError::InvalidValue);
        }
        let max_tile_height_sb = if max_tile_area_sb / widest_tile_sb > 1 {
            max_tile_area_sb / widest_tile_sb
        } else {
            1
        };
        start_sb = 0;
        i = 0;
        let ghost pr = r.pos as int;
        while start_sb < sb_rows
            invariant
                advanced(*old(r), *r),
                r.pos <= pr + 13 * i,
                pr <= old(r).pos + 1 + 14000,
                max_tile_height_sb <= 2304,
                start_sb <= sb_rows,
                sb_rows <= 2000,
                i <= start_sb,
                max_tile_height_sb >= 1,
            decreases sb_rows - start_sb,
        {
            let max_height = if sb_rows - start_sb < max_tile_height_sb {
                sb_rows - start_sb
            } else {
                max_tile_height_sb
            };
            let height_in_sbs_minus_1 = r.read_ns(max_height)?;
            start_sb = start_sb + height_in_sbs_minus_1 + 1;
            i = i + 1;
        }
        tile_rows = i;
        if tile_cols == 0 || tile_rows == 0 || tile_cols > MAX_TILE_COLS || tile_rows
            > MAX_TILE_ROWS {
            return Err(ParseError::InvalidValue);
        }
        tile_cols_log2 = tile_log2(1, tile_cols);
        tile_rows_log2 = tile_log2(1, tile_rows);
        proof {
            lemma2_to64();
            if tile_cols_log2 > 6 {
                vstd::arithmetic::power2::lemma_pow2_strictly_increases(
                    6,
                    (tile_cols_log2 - 1) as nat,
                );
            }
            if tile_rows_log2 > 6 {
                vstd::arithmetic::power2::lemma_pow2_strictly_increases(
                    6,
                    (tile_rows_log2 - 1) as nat,
                );
            }
        }
    }
    if tile_cols == 0 || tile_rows == 0 || tile_cols > MAX_TILE_COLS || tile_rows > MAX_TILE_ROWS {
        return Err(ParseError::InvalidValue);
    }
    if tile_cols_log2 > 0 || tile_rows_log2 > 0 {
        let _context_update_tile_id = r.read_bits((tile_rows_log2 + tile_cols_log2) as usize)?;
        let _tile_size_bytes_minus_1 = r.read_bits(2)?;
    }
    Ok(TileInfo { tile_cols, tile_rows, tile_cols_log2, tile_rows_log2 })
}

/// Reads `read_delta_q()`: an optional 7-bit signed quantizer delta.
fn read_delta_q(r: &mut BitReader) -> (res: Result<i64, ParseError>)
    requires
        old(r).wf(),
    ensures
        advanced(*old(r), *final(r)),
{
    let delta_coded = r.read_bool()?;
    if delta_coded {
        r.read_su(7)
    } else {
        Ok(0)
    }
}

/// Reads `quantization_params()`.
fn quantization_params(r: &mut BitReader, num_planes: u8, separate_uv_delta_q: bool) -> (res:
    Result<QuantizationParams, ParseError>)
    requires
        old(r).wf(),
    ensures
        advanced(*old(r), *final(r)),
{
    proof {
        lemma2_to64();
    }
    let base_q_idx = r.read_bits(8)? as u8;
    let deltaq_y_dc = read_delta_q(r)?;
    let mut deltaq_u_dc: i64 = 0;
    let mut deltaq_u_ac: i64 = 0;
    let mut deltaq_v_dc: i64 = 0;
    let mut deltaq_v_ac: i64 = 0;
    if num_planes > 1 {
        let diff_uv_delta = if separate_uv_delta_q {
            r.read_bool()?
        } else {
            false
        };
        deltaq_u_dc = read_delta_q(r)?;
        deltaq_u_ac = read_delta_q(r)?;
        if diff_uv_delta {
            deltaq_v_dc = read_delta_q(r)?;
            deltaq_v_ac = read_delta_q(r)?;
        } else {
            deltaq_v_dc = deltaq_u_dc;
            deltaq_v_ac = deltaq_u_ac;
        }
    }
    let using_qmatrix = r.read_bool()?;
    if using_qmatrix {
        let _qm_y = r.read_bits(4)?;
        let _qm_u = r.read_bits(4)?;
        if separate_uv_delta_q {
            let _qm_v = r.read_bits(4)?;
        }
    }
    Ok(
        QuantizationParams {
            base_q_idx,
            deltaq_y_dc,
            deltaq_u_dc,
            deltaq_u_ac,
            deltaq_v_dc,
            deltaq_v_ac,
        },
    )
}

/// Bit width of each segmentation feature.
pub open spec fn seg_feature_bits(j: int) -> nat {
    if j == 0 {
        8
    } else if j <= 4 {
        6
    } else if j == 5 {
        3
    } else {
        0
    }
}

/// Reads `segmentation_params()`; returns the feature data, 64 entries by
/// segment then feature, when segmentation is enabled with new data.
fn segmentation_params(r: &mut BitReader, primary_ref_frame: u8) -> (res: Result<
    Option<Vec<Option<i16>>>,
    ParseError,
>)
    requires
        old(r).wf(),
    ensures
        advanced(*old(r), *final(r)),
        res matches Ok(Some(d)) ==> d@.len() == MAX_SEGMENTS * SEG_LVL_MAX,
{
    proof {
        lemma2_to64();
    }
    let segmentation_enabled = r.read_bool()?;
    if !segmentation_enabled {
        return Ok(None);
    }
    let segmentation_update_data = if primary_ref_frame == PRIMARY_REF_NONE {
        true
    } else {
        let segmentation_update_map = r.read_bool()?;
        if segmentation_update_map {
            let _segmentation_temporal_update = r.read_bool()?;
        }
        r.read_bool()?
    };
    if !segmentation_update_data {
        return Ok(None);
    }
    let mut data: Vec<Option<i16>> = Vec::new();
    let mut k: usize = 0;
    while k < MAX_SEGMENTS * SEG_LVL_MAX
        invariant
            advanced(*old(r), *r),
            k <= MAX_SEGMENTS * SEG_LVL_MAX,
            data@.len() == k,
        decreases MAX_SEGMENTS * SEG_LVL_MAX - k,
    {
        let j = k % SEG_LVL_MAX;
        let feature_enabled = r.read_bool()?;
        if feature_enabled {
            let (bits, max, signed): (usize, i64, bool) = if j == 0 {
                (8, 255, true)
            } else if j <= 4 {
                (6, MAX_LOOP_FILTER, true)
            } else if j == 5 {
                (3, 7, false)
            } else {
                (0, 0, false)
            };
            let value: i64 = if signed {
                let v = r.read_su(1 + bits)?;
                if v < -max {
                    -max
                } else if v > max {
                    max
                } else {
                    v
                }
            } else {
                let v = r.read_bits(bits)?;
                if v > max as u64 {
                    max
                } else {
                    v as i64
                }
            };
            data.push(Some(value as i16));
        } else {
            data.push(None);
        }
        k = k + 1;
    }
    Ok(Some(data))
}

/// Reads `delta_q_params()`; returns `delta_q_present`.
fn delta_q_params(r: &mut BitReader, base_q_idx: u8) -> (res: Result<bool, ParseError>)
    requires
        old(r).wf(),
    ensures
        advanced(*old(r), *final(r)),
{
    let delta_q_present = if base_q_idx > 0 {
        r.read_bool()?
    } else {
        false
    };
    if delta_q_present {
        let _delta_q_res = r.read_bits(2)?;
    }
    Ok(delta_q_present)
}

/// Reads `delta_lf_params()`.
fn delta_lf_params(r: &mut BitReader, delta_q_present: bool, allow_intrabc: bool) -> (res: Result<
    (),
    ParseError,
>)
    requires
        old(r).wf(),
    ensures
        advanced(*old(r), *final(r)),
{
    if delta_q_present {
        let delta_lf_present = if allow_intrabc {
            false
        } else {
            r.read_bool()?
        };
        if delta_lf_present {
            let _delta_lf_res = r.read_bits(2)?;
            let _delta_lf_multi = r.read_bool()?;
        }
    }
    Ok(())
}

/// Reads `loop_filter_params()`.
fn loop_filter_params(r: &mut BitReader, coded_lossless: bool, allow_intrabc: bool, num_planes: u8)
    -> (res: Result<(), ParseError>)
    requires
        old(r).wf(),
    ensures
        advanced(*old(r), *final(r)),
{
    if coded_lossless || allow_intrabc {
        return Ok(());
    }
    let loop_filter_l0 = r.read_bits(6)?;
    let loop_filter_l1 = r.read_bits(6)?;
    if num_planes > 1 && (loop_filter_l0 > 0 || loop_filter_l1 > 0) {
        let _loop_filter_l2 = r.read_bits(6)?;
        let _loop_filter_l3 = r.read_bits(6)?;
    }
    let _loop_filter_sharpness = r.read_bits(3)?;
    let loop_filter_delta_enabled = r.read_bool()?;
    if loop_filter_delta_enabled {
        let loop_filter_delta_update = r.read_bool()?;
        if loop_filter_delta_update {
            let mut i: usize = 0;
            while i < TOTAL_REFS_PER_FRAME + 2
                invariant
                    advanced(*old(r), *r),
                    i <= TOTAL_REFS_PER_FRAME + 2,
                decreases TOTAL_REFS_PER_FRAME + 2 - i,
            {
                let update = r.read_bool()?;
                if update {
                    let _delta = r.read_su(7)?;
                }
                i = i + 1;
            }
        }
    }
    Ok(())
}

/// Reads `cdef_params()`.
fn cdef_params(
    r: &mut BitReader,
    coded_lossless: bool,
    allow_intrabc: bool,
    enable_cdef: bool,
    num_planes: u8,
) -> (res: Result<(), ParseError>)
    requires
        old(r).wf(),
    ensures
        advanced(*old(r), *final(r)),
{
    if coded_lossless || allow_intrabc || !enable_cdef {
        return Ok(());
    }
    proof {
        lemma2_to64();
    }
    let _cdef_damping_minus_3 = r.read_bits(2)?;
    let cdef_bits = r.read_bits(2)?;
    let count: u64 = if cdef_bits == 0 {
        1
    } else if cdef_bits == 1 {
        2
    } else if cdef_bits == 2 {
        4
    } else {
        8
    };
    let mut i: u64 = 0;
    while i < count
        invariant
            advanced(*old(r), *r),
            i <= count,
        decreases count - i,
    {
        let _cdef_y_pri_strength = r.read_bits(4)?;
        let _cdef_y_sec_strength = r.read_bits(2)?;
        if num_planes > 1 {
            let _cdef_uv_pri_strength = r.read_bits(4)?;
            let _cdef_uv_sec_strength = r.read_bits(2)?;
        }
        i = i + 1;
    }
    Ok(())
}

/// Reads `lr_params()`.
fn lr_params(
    r: &mut BitReader,
    all_lossless: bool,
    allow_intrabc: bool,
    enable_restoration: bool,
    use_128x128_superblock: bool,
    num_planes: u8,
    subsampling_x: u8,
    subsampling_y: u8,
) -> (res: Result<(), ParseError>)
    requires
        old(r).wf(),
    ensures
        advanced(*old(r), *final(r)),
{
    if all_lossless || allow_intrabc || !enable_restoration {
        return Ok(());
    }
    let mut uses_lr = false;
    let mut uses_chroma_lr = false;
    let mut i: u8 = 0;
    while i < num_planes
        invariant
            advanced(*old(r), *r),
            i <= num_planes,
        decreases num_planes - i,
    {
        let lr_type = r.read_bits(2)?;
        if lr_type != 0 {
            uses_lr = true;
            if i > 0 {
                uses_chroma_lr = true;
            }
        }
        i = i + 1;
    }
    if uses_lr {
        if use_128x128_superblock {
            let _lr_unit_shift = r.read_bool()?;
        } else {
            let lr_unit_shift = r.read_bool()?;
            if lr_unit_shift {
                let _lr_unit_extra_shift = r.read_bool()?;
            }
        }
        if subsampling_x > 0 && subsampling_y > 0 && uses_chroma_lr {
            let _lr_uv_shift = r.read_bool()?;
        }
    }
    Ok(())
}

/// Reads `read_tx_mode()`.
fn read_tx_mode(r: &mut BitReader, coded_lossless: bool) -> (res: Result<(), ParseError>)
    requires
        old(r).wf(),
    ensures
        advanced(*old(r), *final(r)),
{
    if !coded_lossless {
        let _tx_mode_select = r.read_bool()?;
    }
    Ok(())
}

/// Reads `frame_reference_mode()`; returns `reference_select`.
fn frame_reference_mode(r: &mut BitReader, frame_is_intra: bool) -> (res: Result<bool, ParseError>)
    requires
        old(r).wf(),
    ensures
        advanced(*old(r), *final(r)),
{
    if frame_is_intra {
        Ok(false)
    } else {
        r.read_bool()
    }
}

/// Order hint of reference `i` of the current frame.
pub open spec fn ref_hint(refs: &RefState, i: int) -> i64 {
    refs.ref_order_hint@[refs.ref_frame_idx@[i] as int] as i64
}

/// The latest reference among the first `i` that comes before the current
/// frame: its index and hint, or index -1.
pub open spec fn forward_scan(refs: &RefState, cur: i64, bits: u64, i: nat) -> (i64, i64)
    decreases i,
{
    if i == 0 {
        (-1i64, 0i64)
    } else {
        let (fi, fh) = forward_scan(refs, cur, bits, (i - 1) as nat);
        let h = ref_hint(refs, i - 1);
        if relative_dist(h, cur, bits) < 0 && (fi < 0 || relative_dist(h, fh, bits) > 0) {
            ((i - 1) as i64, h)
        } else {
            (fi, fh)
        }
    }
}

/// The earliest reference among the first `i` that comes after the current
/// frame: its index and hint, or index -1.
pub open spec fn backward_scan(refs: &RefState, cur: i64, bits: u64, i: nat) -> (i64, i64)
    decreases i,
{
    if i == 0 {
        (-1i64, 0i64)
    } else {
        let (bi, bh) = backward_scan(refs, cur, bits, (i - 1) as nat);
        let h = ref_hint(refs, i - 1);
        if relative_dist(h, cur, bits) > 0 && (bi < 0
            || relative_dist(h, bh, bits) < 0) {
            ((i - 1) as i64, h)
        } else {
            (bi, bh)
        }
    }
}

/// The latest reference among the first `i` that comes before hint `fwd`:
/// its index and hint, or index -1.
pub open spec fn second_forward_scan(refs: &RefState, fwd: i64, bits: u64, i: nat) -> (i64, i64)
    decreases i,
{
    if i == 0 {
        (-1i64, 0i64)
    } else {
        let (si, sh) = second_forward_scan(refs, fwd, bits, (i - 1) as nat);
        let h = ref_hint(refs, i - 1);
        if relative_dist(h, fwd, bits) < 0 && (si < 0 || relative_dist(h, sh, bits) > 0) {
            ((i - 1) as i64, h)
        } else {
            (si, sh)
        }
    }
}

/// Skip mode is allowed when the frame has a forward reference and either a
/// backward reference or a second, earlier forward reference.
pub open spec fn skip_allowed(refs: &RefState, order_hint: u64, bits: u8) -> bool {
    let cur = order_hint as i64;
    let b = bits as u64;
    let (fi, fh) = forward_scan(refs, cur, b, 7);
    let (bi, _) = backward_scan(refs, cur, b, 7);
    let (si, _) = second_forward_scan(refs, fh, b, 7);
    fi >= 0 && (bi >= 0 || si >= 0)
}

/// Whether skip mode is allowed: the frame has a forward reference and
/// either a backward one or a second forward one.
fn skip_mode_allowed(order_hint_bits: u8, order_hint: u64, refs: &RefState) -> (r: bool)
    requires
        refs.wf(),
        1 <= order_hint_bits <= 8,
        order_hint < 256,
        forall|i: int| 0 <= i < NUM_REF_FRAMES ==> refs.ref_order_hint@[i] < 256,
    ensures
        r == skip_allowed(refs, order_hint, order_hint_bits),
{
    let bits = order_hint_bits as u64;
    let cur = order_hint as i64;
    let mut forward_idx: i64 = -1;
    let mut backward_idx: i64 = -1;
    let mut forward_hint: i64 = 0;
    let mut backward_hint: i64 = 0;
    let mut i: usize = 0;
    while i < REFS_PER_FRAME
        invariant
            refs.wf(),
            1 <= bits <= 8,
            bits == order_hint_bits,
            cur == order_hint,
            0 <= cur < 256,
            i <= REFS_PER_FRAME,
            0 <= forward_hint < 256,
            0 <= backward_hint < 256,
            forall|k: int| 0 <= k < NUM_REF_FRAMES ==> refs.ref_order_hint@[k] < 256,
            (forward_idx, forward_hint) == forward_scan(refs, cur, bits, i as nat),
            (backward_idx, backward_hint) == backward_scan(refs, cur, bits, i as nat),
        decreases REFS_PER_FRAME - i,
    {
        let h = refs.ref_order_hint[refs.ref_frame_idx[i]] as i64;
        if get_relative_dist(h, cur, bits) < 0 {
            if forward_idx < 0 || get_relative_dist(h, forward_hint, bits) > 0 {
                forward_idx = i as i64;
                forward_hint = h;
            }
        } else if get_relative_dist(h, cur, bits) > 0 {
            if backward_idx < 0 || get_relative_dist(h, backward_hint, bits) < 0 {
                backward_idx = i as i64;
                backward_hint = h;
            }
        }
        i = i + 1;
    }
    let mut second_forward_idx: i64 = -1;
    let mut second_forward_hint: i64 = 0;
    let mut j: usize = 0;
    while j < REFS_PER_FRAME
        invariant
            refs.wf(),
            1 <= bits <= 8,
            bits == order_hint_bits,
            j <= REFS_PER_FRAME,
            0 <= forward_hint < 256,
            0 <= second_forward_hint < 256,
            forall|k: int| 0 <= k < NUM_REF_FRAMES ==> refs.ref_order_hint@[k] < 256,
            (second_forward_idx, second_forward_hint) == second_forward_scan(
                refs,
                forward_hint,
                bits,
                j as nat,
            ),
        decreases REFS_PER_FRAME - j,
    {
        let h = refs.ref_order_hint[refs.ref_frame_idx[j]] as i64;
        if get_relative_dist(h, forward_hint, bits) < 0 {
            if second_forward_idx < 0 || get_relative_dist(h, second_forward_hint, bits) > 0 {
                second_forward_idx = j as i64;
                second_forward_hint = h;
            }
        }
        j = j + 1;
    }
    forward_idx >= 0 && (backward_idx >= 0 || second_forward_idx >= 0)
}

/// Reads `skip_mode_params()`.
fn skip_mode_params(
    r: &mut BitReader,
    frame_is_intra: bool,
    reference_select: bool,
    order_hint_bits: u8,
    order_hint: u64,
    refs: &RefState,
) -> (res: Result<(), ParseError>)
    requires
        old(r).wf(),
        refs.wf(),
        order_hint_bits <= 8,
        order_hint < 256,
        forall|i: int| 0 <= i < NUM_REF_FRAMES ==> refs.ref_order_hint@[i] < 256,
    ensures
        advanced(*old(r), *final(r)),
        res is Ok ==> final(r).pos == old(r).pos || final(r).pos == old(r).pos + 1,
        res is Ok ==> final(r).pos == old(r).pos + if !frame_is_intra && reference_select
            && order_hint_bits > 0 && skip_allowed(refs, order_hint, order_hint_bits) {
            1int
        } else {
            0int
        },
        frame_is_intra || !reference_select || order_hint_bits == 0 ==> res is Ok
            && final(r).pos == old(r).pos,
        old(r).remaining() >= 1 ==> res is Ok,
{
    let allowed = if frame_is_intra || !reference_select || order_hint_bits == 0 {
        false
    } else {
        skip_mode_allowed(order_hint_bits, order_hint, refs)
    };
    if allowed {
        let _skip_mode_present = r.read_bool()?;
    }
    Ok(())
}

/// Reads the flags of `global_motion_params()` for each reference frame.
fn global_motion_params(r: &mut BitReader, frame_is_intra: bool) -> (res: Result<(), ParseError>)
    requires
        old(r).wf(),
    ensures
        advanced(*old(r), *final(r)),
{
    if frame_is_intra {
        return Ok(());
    }
    let mut i: usize = 0;
    while i < REFS_PER_FRAME
        invariant
            advanced(*old(r), *r),
            i <= REFS_PER_FRAME,
        decreases REFS_PER_FRAME - i,
    {
        let is_global = r.read_bool()?;
        if is_global {
            let is_rot_zoom = r.read_bool()?;
            if !is_rot_zoom {
                let _is_translation = r.read_bool()?;
            }
        }
        i = i + 1;
    }
    Ok(())
}

/// What the first part of a frame header says: frame kind, visibility and
/// error resilience.
struct FrameStart {
    frame_type: FrameType,
    show_frame: bool,
    showable_frame: bool,
    error_resilient_mode: bool,
}

/// Whether the operating point `idc` contains the layer of an OBU.
fn in_operating_point(idc: u16, extension: Option<ObuExtension>) -> bool {
    let (temporal_id, spatial_id) = match extension {
        Some(e) => (e.temporal_id, e.spatial_id),
        None => (0, 0),
    };
    if idc == 0 {
        return true;
    }
    if temporal_id >= 8 || spatial_id >= 4 {
        return false;
    }
    let in_temporal_layer = (idc >> temporal_id as u16) & 1 == 1;
    let in_spatial_layer = (idc >> (spatial_id as u16 + 8)) & 1 == 1;
    in_temporal_layer && in_spatial_layer
}

/// Reads the buffer removal times of the decoder model, if present.
fn buffer_removal_times(r: &mut BitReader, seq: &SequenceHeader, extension: Option<ObuExtension>)
    -> (res: Result<(), ParseError>)
    requires
        old(r).wf(),
        seq.wf(),
    ensures
        advanced(*old(r), *final(r)),
{
    if let Some(dmi) = seq.decoder_model_info {
        let buffer_removal_time_present_flag = r.read_bool()?;
        if buffer_removal_time_present_flag {
            let mut op: usize = 0;
            while op <= seq.operating_points_cnt_minus_1
                invariant
                    advanced(*old(r), *r),
                    seq.wf(),
                    seq.decoder_model_info == Some(dmi),
                    op <= seq.operating_points_cnt_minus_1 + 1,
                decreases seq.operating_points_cnt_minus_1 + 1 - op,
            {
                if seq.decoder_model_present_for_op[op] {
                    let idc = seq.operating_point_idc[op];
                    if in_operating_point(idc, extension) {
                        let n = dmi.buffer_removal_time_length_minus_1 as usize + 1;
                        let _buffer_removal_time = r.read_bits(n)?;
                    }
                }
                op = op + 1;
            }
        }
    }
    Ok(())
}

/// Reads the error-resilient reference order hints; a slot whose hint
/// differs from the coded one becomes invalid and takes the coded hint.
fn ref_order_hints(r: &mut BitReader, order_hint_bits: u8, refs: &mut RefState) -> (res: Result<
    (),
    ParseError,
>)
    requires
        old(r).wf(),
        old(refs).wf(),
        1 <= order_hint_bits <= 8,
    ensures
        advanced(*old(r), *final(r)),
        final(refs).wf(),
        final(refs).ref_frame_idx@ == old(refs).ref_frame_idx@,
        final(refs).order_hints@ == old(refs).order_hints@,
{
    let mut i: usize = 0;
    while i < NUM_REF_FRAMES
        invariant
            advanced(*old(r), *r),
            refs.wf(),
            refs.ref_frame_idx@ == old(refs).ref_frame_idx@,
            refs.order_hints@ == old(refs).order_hints@,
            1 <= order_hint_bits <= 8,
            i <= NUM_REF_FRAMES,
        decreases NUM_REF_FRAMES - i,
    {
        let hint = r.read_bits(order_hint_bits as usize)?;
        proof {
            lemma2_to64();
            if order_hint_bits < 8 {
                vstd::arithmetic::power2::lemma_pow2_strictly_increases(order_hint_bits as nat, 8);
            }
        }
        if hint != refs.ref_order_hint[i] {
            refs.ref_valid.set(i, false);
            refs.ref_order_hint.set(i, hint);
        }
        i = i + 1;
    }
    Ok(())
}

/// The slot among those not yet used whose shifted order hint is the
/// latest (`latest`) or the earliest, among those at or after the current
/// frame (`backward`) or before it; -1 when there is none.
fn find_ref(shifted: &Vec<i64>, used: &Vec<bool>, cur: i64, backward: bool, latest: bool) -> (r: i64)
    requires
        shifted@.len() == NUM_REF_FRAMES,
        used@.len() == NUM_REF_FRAMES,
    ensures
        -1 <= r < NUM_REF_FRAMES,
{
    let mut found: i64 = -1;
    let mut best: i64 = 0;
    let mut i: usize = 0;
    while i < NUM_REF_FRAMES
        invariant
            i <= NUM_REF_FRAMES,
            shifted@.len() == NUM_REF_FRAMES,
            used@.len() == NUM_REF_FRAMES,
            -1 <= found < NUM_REF_FRAMES,
        decreases NUM_REF_FRAMES - i,
    {
        let hint = shifted[i];
        let side = if backward {
            hint >= cur
        } else {
            hint < cur
        };
        let better = if latest {
            hint >= best
        } else {
            hint < best
        };
        if !used[i] && side && (found < 0 || better) {
            found = i as i64;
            best = hint;
        }
        i = i + 1;
    }
    found
}

/// Derives the reference slots of a frame that codes only its last and
/// golden references: the remaining ones take the closest unused slots in
/// display order, backward references first.
fn set_frame_refs(
    refs: &mut RefState,
    order_hint_bits: u8,
    order_hint: u64,
    last_frame_idx: usize,
    gold_frame_idx: usize,
)
    requires
        old(refs).wf(),
        1 <= order_hint_bits <= 8,
        order_hint < 256,
        last_frame_idx < NUM_REF_FRAMES,
        gold_frame_idx < NUM_REF_FRAMES,
    ensures
        final(refs).wf(),
        final(refs).ref_valid@ == old(refs).ref_valid@,
        final(refs).ref_order_hint@ == old(refs).ref_order_hint@,
        final(refs).order_hints@ == old(refs).order_hints@,
{
    let mut idx: Vec<i64> = vec![-1; REFS_PER_FRAME];
    idx.set(0, last_frame_idx as i64);
    idx.set(3, gold_frame_idx as i64);
    let mut used: Vec<bool> = vec![false; NUM_REF_FRAMES];
    used.set(last_frame_idx, true);
    used.set(gold_frame_idx, true);
    let cur: i64 = if order_hint_bits == 8 {
        128
    } else if order_hint_bits == 7 {
        64
    } else if order_hint_bits == 6 {
        32
    } else if order_hint_bits == 5 {
        16
    } else if order_hint_bits == 4 {
        8
    } else if order_hint_bits == 3 {
        4
    } else if order_hint_bits == 2 {
        2
    } else {
        1
    };
    let mut shifted: Vec<i64> = Vec::new();
    let mut i: usize = 0;
    while i < NUM_REF_FRAMES
        invariant
            refs.ref_valid@ == old(refs).ref_valid@,
            refs.ref_order_hint@ == old(refs).ref_order_hint@,
            refs.order_hints@ == old(refs).order_hints@,
            i <= NUM_REF_FRAMES,
            shifted@.len() == i,
            refs.wf(),
            order_hint < 256,
            1 <= order_hint_bits <= 8,
            1 <= cur <= 128,
            forall|k: int| 0 <= k < i ==> -0x1_0000_0000 < #[trigger] shifted@[k] < 0x1_0000_0000,
        decreases NUM_REF_FRAMES - i,
    {
        let d = get_relative_dist(refs.ref_order_hint[i] as i64, order_hint as i64, order_hint_bits as u64);
        shifted.push(cur + d);
        i = i + 1;
    }
    let mut earliest = shifted[gold_frame_idx];
    let r = find_ref(&shifted, &used, cur, true, true);
    if r >= 0 {
        idx.set(6, r);
        used.set(r as usize, true);
    }
    let r = find_ref(&shifted, &used, cur, true, false);
    if r >= 0 {
        idx.set(4, r);
        used.set(r as usize, true);
    }
    let r = find_ref(&shifted, &used, cur, true, false);
    if r >= 0 {
        idx.set(5, r);
        used.set(r as usize, true);
    }
    let order: [usize; 5] = [1, 2, 4, 5, 6];
    let mut j: usize = 0;
    while j < 5
        invariant
            refs.ref_valid@ == old(refs).ref_valid@,
            refs.ref_order_hint@ == old(refs).ref_order_hint@,
            refs.order_hints@ == old(refs).order_hints@,
            j <= 5,
            idx@.len() == REFS_PER_FRAME,
            used@.len() == NUM_REF_FRAMES,
            shifted@.len() == NUM_REF_FRAMES,
            forall|k: int| 0 <= k < 5 ==> #[trigger] order@[k] < REFS_PER_FRAME,
            forall|k: int| 0 <= k < REFS_PER_FRAME ==> -1 <= #[trigger] idx@[k] < NUM_REF_FRAMES,
        decreases 5 - j,
    {
        let slot = order[j];
        if idx[slot] < 0 {
            let r = find_ref(&shifted, &used, cur, false, true);
            if r >= 0 {
                idx.set(slot, r);
                used.set(r as usize, true);
            }
        }
        j = j + 1;
    }
    let mut fallback: usize = 0;
    let mut k: usize = 0;
    while k < NUM_REF_FRAMES
        invariant
            refs.ref_valid@ == old(refs).ref_valid@,
            refs.ref_order_hint@ == old(refs).ref_order_hint@,
            refs.order_hints@ == old(refs).order_hints@,
            k <= NUM_REF_FRAMES,
            fallback < NUM_REF_FRAMES,
            shifted@.len() == NUM_REF_FRAMES,
        decreases NUM_REF_FRAMES - k,
    {
        let hint = shifted[k];
        if k == 0 || hint < earliest {
            fallback = k;
            earliest = hint;
        }
        k = k + 1;
    }
    let mut m: usize = 0;
    while m < REFS_PER_FRAME
        invariant
            refs.ref_valid@ == old(refs).ref_valid@,
            refs.ref_order_hint@ == old(refs).ref_order_hint@,
            refs.order_hints@ == old(refs).order_hints@,
            m <= REFS_PER_FRAME,
            refs.wf(),
            fallback < NUM_REF_FRAMES,
            idx@.len() == REFS_PER_FRAME,
            forall|k: int| 0 <= k < REFS_PER_FRAME ==> -1 <= #[trigger] idx@[k] < NUM_REF_FRAMES,
        decreases REFS_PER_FRAME - m,
    {
        let v = idx[m];
        if v < 0 {
            refs.ref_frame_idx.set(m, fallback);
        } else {
            refs.ref_frame_idx.set(m, v as usize);
        }
        m = m + 1;
    }
}

/// Reads the reference list of an inter frame: the slot of each of the seven
/// references (coded, or derived from the last and golden slots when
/// signalled short), and the frame-id deltas when frame ids are on.
fn ref_frame_list(
    r: &mut BitReader,
    seq: &SequenceHeader,
    refs: &mut RefState,
    order_hint: u64,
) -> (res: Result<(), ParseError>)
    requires
        old(r).wf(),
        old(refs).wf(),
        seq.wf(),
        order_hint < 256,
    ensures
        advanced(*old(r), *final(r)),
        final(refs).wf(),
        final(refs).ref_valid@ == old(refs).ref_valid@,
        final(refs).ref_order_hint@ == old(refs).ref_order_hint@,
        final(refs).order_hints@ == old(refs).order_hints@,
{
    proof {
        lemma2_to64();
    }
    let mut frame_refs_short_signaling = false;
    if seq.order_hint_bits > 0 {
        frame_refs_short_signaling = r.read_bool()?;
        if frame_refs_short_signaling {
            let last_frame_idx = r.read_bits(3)? as usize;
            let gold_frame_idx = r.read_bits(3)? as usize;
            set_frame_refs(refs, seq.order_hint_bits, order_hint, last_frame_idx, gold_frame_idx);
        }
    }
    let mut i: usize = 0;
    while i < REFS_PER_FRAME
        invariant
            refs.ref_valid@ == old(refs).ref_valid@,
            refs.ref_order_hint@ == old(refs).ref_order_hint@,
            refs.order_hints@ == old(refs).order_hints@,
            advanced(*old(r), *r),
            refs.wf(),
            seq.wf(),
            i <= REFS_PER_FRAME,
        decreases REFS_PER_FRAME - i,
    {
        proof {
            lemma2_to64();
        }
        if !frame_refs_short_signaling {
            let idx = r.read_bits(3)?;
            refs.ref_frame_idx.set(i, idx as usize);
        }
        if seq.frame_id_numbers_present {
            let n = seq.delta_frame_id_len_minus_2 as usize + 2;
            let _delta_frame_id_minus_1 = r.read_bits(n)?;
        }
        i = i + 1;
    }
    Ok(())
}

/// The fields of a frame header between its first part and its tile info.
struct FramePrologue {
    order_hint: u64,
    refresh_frame_flags: u8,
    primary_ref_frame: u8,
    allow_intrabc: bool,
    disable_cdf_update: bool,
    frame_size: Dimensions,
    upscaled_width: u32,
}

/// Bits of `frame_presentation_time` in a shown frame's header.
pub open spec fn temporal_point_len(seq: &SequenceHeader) -> int {
    match seq.decoder_model_info {
        Some(d) => if seq.timing_info matches Some(t) && t.equal_picture_interval {
            0
        } else {
            d.frame_presentation_time_length_minus_1 + 1
        },
        None => 0,
    }
}

/// Bits of a frame id.
pub open spec fn frame_id_len(seq: &SequenceHeader) -> int {
    if seq.frame_id_numbers_present {
        seq.additional_frame_id_len_minus_1 + seq.delta_frame_id_len_minus_2 + 3
    } else {
        0
    }
}

/// Reads a frame header that shows an earlier frame again.
fn show_existing_frame(
    r: &mut BitReader,
    seq: &SequenceHeader,
    refs: &mut RefState,
    prev_tile_info: Option<TileInfo>,
) -> (res: Result<FrameHeader, ParseError>)
    requires
        old(r).wf(),
        seq.wf(),
        old(refs).wf(),
    ensures
        advanced(*old(r), *final(r)),
        final(refs).wf(),
        res matches Ok(h) ==> h.show_existing_frame && h.grain_start == final(r).pos && (
        !seq.film_grain_params_present ==> h.film_grain_params is Disable) && h.tile_info == (
        match prev_tile_info {
            Some(t) => t,
            None => TileInfo { tile_cols: 1, tile_rows: 1, tile_cols_log2: 0, tile_rows_log2: 0 },
        }) && (seq.film_grain_params_present ==> h.film_grain_params is CopyRefFrame),
        old(r).remaining() >= 60 ==> res is Ok,
        res is Ok ==> final(r).pos == old(r).pos + 3 + temporal_point_len(seq) + frame_id_len(seq),
{
    proof {
        lemma2_to64();
    }
    let idx = r.read_bits(3)? as usize;
    if let Some(dmi) = seq.decoder_model_info {
        let equal_picture_interval = match seq.timing_info {
            Some(t) => t.equal_picture_interval,
            None => false,
        };
        if !equal_picture_interval {
            temporal_point_info(r, dmi.frame_presentation_time_length_minus_1 as usize + 1)?;
        }
    }
    if seq.frame_id_numbers_present {
        let id_len = seq.additional_frame_id_len_minus_1 as usize
            + seq.delta_frame_id_len_minus_2 as usize + 3;
        let _display_frame_id = r.read_bits(id_len)?;
    }
    let frame_type = refs.ref_frame_type[idx];
    let order_hint = refs.ref_order_hint[idx];
    let refresh_frame_flags = if frame_type == FrameType::Key {
        refs.reload_all_from(idx);
        REFRESH_ALL_FRAMES
    } else {
        0
    };
    let grain_ctx = GrainContext {
        film_grain_params_present: seq.film_grain_params_present,
        show_frame: true,
        showable_frame: false,
        frame_type,
        mono_chrome: seq.color_config.num_planes == 1,
        subsampling_x: seq.color_config.subsampling_x == 1,
        subsampling_y: seq.color_config.subsampling_y == 1,
    };
    Ok(
        FrameHeader {
            show_frame: true,
            show_existing_frame: true,
            frame_type,
            error_resilient_mode: false,
            order_hint,
            refresh_frame_flags,
            film_grain_params: if seq.film_grain_params_present {
                FilmGrainHeader::CopyRefFrame { ref_idx: idx as u8, grain_seed: 0 }
            } else {
                FilmGrainHeader::Disable
            },
            grain_ctx,
            grain_start: r.pos,
            tile_info: match prev_tile_info {
                Some(t) => t,
                None => TileInfo { tile_cols: 1, tile_rows: 1, tile_cols_log2: 0, tile_rows_log2: 0 },
            },
        },
    )
}

/// Reads the kind, visibility and error resilience of a new frame.
fn frame_start(r: &mut BitReader, seq: &SequenceHeader) -> (res: Result<FrameStart, ParseError>)
    requires
        old(r).wf(),
        seq.wf(),
    ensures
        advanced(*old(r), *final(r)),
        res matches Ok(st) ==> (st.frame_type == FrameType::Key && st.show_frame)
            ==> st.error_resilient_mode,
        res matches Ok(st) ==> st.frame_type == FrameType::Switch ==> st.error_resilient_mode,
{
    proof {
        lemma2_to64();
    }
    let frame_type = FrameType::from_code(r.read_bits(2)?);
    let show_frame = r.read_bool()?;
    if show_frame {
        if let Some(dmi) = seq.decoder_model_info {
            let equal_picture_interval = match seq.timing_info {
                Some(t) => t.equal_picture_interval,
                None => false,
            };
            if !equal_picture_interval {
                temporal_point_info(r, dmi.frame_presentation_time_length_minus_1 as usize + 1)?;
            }
        }
    }
    let showable_frame = if show_frame {
        frame_type != FrameType::Key
    } else {
        r.read_bool()?
    };
    let error_resilient_mode = if frame_type == FrameType::Switch || (frame_type == FrameType::Key
        && show_frame) {
        true
    } else {
        r.read_bool()?
    };
    Ok(FrameStart { frame_type, show_frame, showable_frame, error_resilient_mode })
}

/// Reads the frame size (from the bitstream or from a reference) and, for
/// inter frames, the reference list and motion-vector flags. Returns the
/// coded size, the upscaled width, and `allow_intrabc`.
#[verifier::rlimit(40)]
fn frame_size_and_refs(
    r: &mut BitReader,
    seq: &SequenceHeader,
    refs: &mut RefState,
    start: &FrameStart,
    frame_size_override_flag: bool,
    allow_screen_content_tools: bool,
    force_integer_mv: bool,
    order_hint: u64,
) -> (res: Result<(Dimensions, u32, bool), ParseError>)
    requires
        old(r).wf(),
        seq.wf(),
        old(refs).wf(),
        order_hint < 256,
    ensures
        advanced(*old(r), *final(r)),
        final(refs).wf(),
        final(refs).ref_valid@ == old(refs).ref_valid@,
        final(refs).ref_order_hint@ == old(refs).ref_order_hint@,
        start.frame_type.spec_is_intra() ==> final(refs).order_hints@ == old(refs).order_hints@,
        res matches Ok((d, uw, _)) ==> d.width <= uw <= 65536 && d.height <= 65536,
{
    let frame_is_intra = start.frame_type.is_intra();
    let error_resilient_mode = start.error_resilient_mode;
    let mut allow_intrabc = false;
    let (frame_size, upscaled_width) = if frame_is_intra {
        let (size, upscaled_width) = frame_size(r, seq, frame_size_override_flag)?;
        render_size(r)?;
        if allow_screen_content_tools && upscaled_width == size.width {
            allow_intrabc = r.read_bool()?;
        }
        (size, upscaled_width)
    } else {
        ref_frame_list(r, seq, refs, order_hint)?;
        let (size, upscaled_width) = if frame_size_override_flag && !error_resilient_mode {
            frame_size_with_refs(r, seq, refs, frame_size_override_flag)?
        } else {
            let (size, upscaled_width) = frame_size(r, seq, frame_size_override_flag)?;
            render_size(r)?;
            (size, upscaled_width)
        };
        if !force_integer_mv {
            let _allow_high_precision_mv = r.read_bool()?;
        }
        read_interpolation_filter(r)?;
        let _is_motion_mode_switchable = r.read_bool()?;
        if !(error_resilient_mode || !seq.enable_ref_frame_mvs) {
            let _use_ref_frame_mvs = r.read_bool()?;
        }
        let mut i: usize = 0;
        while i < REFS_PER_FRAME
            invariant
                refs.ref_valid@ == old(refs).ref_valid@,
                refs.ref_order_hint@ == old(refs).ref_order_hint@,
                refs.wf(),
                i <= REFS_PER_FRAME,
            decreases REFS_PER_FRAME - i,
        {
            let hint = refs.ref_order_hint[refs.ref_frame_idx[i]];
            refs.order_hints.set(i + 1, hint);
            i = i + 1;
        }
        (size, upscaled_width)
    };
    Ok((frame_size, upscaled_width, allow_intrabc))
}

/// Reads from `disable_cdf_update` to the end of the frame size and
/// reference list.
#[verifier::rlimit(40)]
fn frame_prologue(
    r: &mut BitReader,
    seq: &SequenceHeader,
    refs: &mut RefState,
    extension: Option<ObuExtension>,
    start: &FrameStart,
) -> (res: Result<FramePrologue, ParseError>)
    requires
        old(r).wf(),
        seq.wf(),
        old(refs).wf(),
    ensures
        advanced(*old(r), *final(r)),
        final(refs).wf(),
        !(start.error_resilient_mode && seq.order_hint_bits > 0) ==> final(refs).ref_valid@
            == old(refs).ref_valid@ && final(refs).ref_order_hint@ == old(refs).ref_order_hint@,
        start.frame_type.spec_is_intra() ==> final(refs).order_hints@ == old(refs).order_hints@,
        res matches Ok(p) ==> {
            &&& p.order_hint < 256
            &&& p.frame_size.width <= p.upscaled_width <= 65536
            &&& p.frame_size.height <= 65536
            &&& (start.frame_type == FrameType::Key && start.show_frame) ==> p.refresh_frame_flags
                == REFRESH_ALL_FRAMES
        },
{
    proof {
        lemma2_to64();
    }
    let frame_type = start.frame_type;
    let show_frame = start.show_frame;
    let error_resilient_mode = start.error_resilient_mode;
    let frame_is_intra = frame_type.is_intra();
    let disable_cdf_update = r.read_bool()?;
    let allow_screen_content_tools = if seq.force_screen_content_tools
        == SELECT_SCREEN_CONTENT_TOOLS {
        r.read_bool()?
    } else {
        seq.force_screen_content_tools == 1
    };
    let mut force_integer_mv = if allow_screen_content_tools {
        if seq.force_integer_mv == SELECT_INTEGER_MV {
            r.read_bool()?
        } else {
            seq.force_integer_mv == 1
        }
    } else {
        false
    };
    if frame_is_intra {
        force_integer_mv = true;
    }
    if seq.frame_id_numbers_present {
        let id_len = seq.additional_frame_id_len_minus_1 as usize
            + seq.delta_frame_id_len_minus_2 as usize + 3;
        let _current_frame_id = r.read_bits(id_len)?;
    }
    let frame_size_override_flag = if frame_type == FrameType::Switch {
        true
    } else if seq.reduced_still_picture_header {
        false
    } else {
        r.read_bool()?
    };
    let order_hint = r.read_bits(seq.order_hint_bits as usize)?;
    proof {
        if seq.order_hint_bits < 8 {
            vstd::arithmetic::power2::lemma_pow2_strictly_increases(seq.order_hint_bits as nat, 8);
        }
    }
    let primary_ref_frame: u8 = if frame_is_intra || error_resilient_mode {
        PRIMARY_REF_NONE
    } else {
        r.read_bits(3)? as u8
    };
    buffer_removal_times(r, seq, extension)?;
    let refresh_frame_flags: u8 = if frame_type == FrameType::Switch || (frame_type
        == FrameType::Key && show_frame) {
        REFRESH_ALL_FRAMES
    } else {
        r.read_bits(8)? as u8
    };
    if (!frame_is_intra || refresh_frame_flags != REFRESH_ALL_FRAMES) && error_resilient_mode
        && seq.order_hint_bits > 0 {
        ref_order_hints(r, seq.order_hint_bits, refs)?;
    }
    let (frame_size, upscaled_width, allow_intrabc) = frame_size_and_refs(
        r,
        seq,
        refs,
        start,
        frame_size_override_flag,
        allow_screen_content_tools,
        force_integer_mv,
        order_hint,
    )?;
    Ok(
        FramePrologue {
            order_hint,
            refresh_frame_flags,
            primary_ref_frame,
            allow_intrabc,
            disable_cdf_update,
            frame_size,
            upscaled_width,
        },
    )
}

/// Reads from the tile info to the global motion parameters: every part of
/// the header between the frame size and the grain block.
#[verifier::rlimit(40)]
fn frame_tools(
    r: &mut BitReader,
    seq: &SequenceHeader,
    refs: &RefState,
    start: &FrameStart,
    p: &FramePrologue,
) -> (res: Result<TileInfo, ParseError>)
    requires
        old(r).wf(),
        seq.wf(),
        refs.wf(),
        p.order_hint < 256,
        p.frame_size.width <= 65536,
        p.frame_size.height <= 65536,
    ensures
        advanced(*old(r), *final(r)),
        res matches Ok(t) ==> t.wf(),
{
    let frame_is_intra = start.frame_type.is_intra();
    let (mi_cols, mi_rows) = compute_image_size(p.frame_size);
    if !(seq.reduced_still_picture_header || p.disable_cdf_update) {
        let _disable_frame_end_update_cdf = r.read_bool()?;
    }
    let tile_info = tile_info(r, seq.use_128x128_superblock, mi_cols, mi_rows)?;
    let q = quantization_params(
        r,
        seq.color_config.num_planes,
        seq.color_config.separate_uv_delta_q,
    )?;
    let segmentation = segmentation_params(r, p.primary_ref_frame)?;
    let delta_q_present = delta_q_params(r, q.base_q_idx)?;
    delta_lf_params(r, delta_q_present, p.allow_intrabc)?;
    let coded_lossless = coded_lossless(&q, &segmentation);
    let all_lossless = coded_lossless && p.frame_size.width == p.upscaled_width;
    loop_filter_params(r, coded_lossless, p.allow_intrabc, seq.color_config.num_planes)?;
    cdef_params(
        r,
        coded_lossless,
        p.allow_intrabc,
        seq.enable_cdef,
        seq.color_config.num_planes,
    )?;
    lr_params(
        r,
        all_lossless,
        p.allow_intrabc,
        seq.enable_restoration,
        seq.use_128x128_superblock,
        seq.color_config.num_planes,
        seq.color_config.subsampling_x,
        seq.color_config.subsampling_y,
    )?;
    read_tx_mode(r, coded_lossless)?;
    let reference_select = frame_reference_mode(r, frame_is_intra)?;
    skip_mode_params(
        r,
        frame_is_intra,
        reference_select,
        seq.order_hint_bits,
        p.order_hint,
        refs,
    )?;
    if !(frame_is_intra || start.error_resilient_mode || !seq.enable_warped_motion) {
        let _allow_warped_motion = r.read_bool()?;
    }
    let _reduced_tx_set = r.read_bool()?;
    global_motion_params(r, frame_is_intra)?;
    Ok(tile_info)
}

/// Reads `uncompressed_header()` of a frame, updating the reference
/// bookkeeping. On success the grain block is the last thing read: its bits
/// run from `grain_start` to the cursor and are the code of the returned grain
/// header. After a frame that is not a shown earlier frame, every slot named
/// by `refresh_frame_flags` is valid and holds the frame's order hint, and a
/// shown key frame refreshes all slots.
pub fn uncompressed_header(
    r: &mut BitReader,
    seq: &SequenceHeader,
    refs: &mut RefState,
    extension: Option<ObuExtension>,
    prev_tile_info: Option<TileInfo>,
) -> (res: Result<FrameHeader, ParseError>)
    requires
        old(r).wf(),
        seq.wf(),
        old(refs).wf(),
    ensures
        advanced(*old(r), *final(r)),
        final(refs).wf(),
        res is Err ==> *final(refs) == *old(refs),
        !seq.reduced_still_picture_header && old(r).remaining() >= 61 && old(r).bits()[old(
            r,
        ).pos as int] ==> (res matches Ok(h) && h.show_existing_frame && h.tile_info == (
        match prev_tile_info {
            Some(t) => t,
            None => TileInfo { tile_cols: 1, tile_rows: 1, tile_cols_log2: 0, tile_rows_log2: 0 },
        })),
        res matches Ok(h) ==> {
            &&& h.tile_info.wf() || prev_tile_info is Some
            &&& (prev_tile_info matches Some(t) ==> t.wf()) ==> h.tile_info.wf()
            &&& h.show_existing_frame ==> final(r).pos == old(r).pos + 4 + temporal_point_len(seq)
                + frame_id_len(seq) && (seq.film_grain_params_present ==> h.film_grain_params is CopyRefFrame)
            &&& !h.show_existing_frame && h.frame_type == FrameType::Key && h.show_frame ==> forall|i: int|
                1 <= i < TOTAL_REFS_PER_FRAME ==> #[trigger] final(refs).order_hints@[i] == 0
            &&& !h.show_existing_frame && !(h.frame_type == FrameType::Key && h.show_frame) && !(
            h.error_resilient_mode && seq.order_hint_bits > 0) ==> forall|i: int|
                0 <= i < NUM_REF_FRAMES && !refreshes(h.refresh_frame_flags, i) ==> #[trigger] final(
                refs).ref_valid@[i] == old(refs).ref_valid@[i] && final(refs).ref_order_hint@[i]
                == old(refs).ref_order_hint@[i]
            &&& old(r).pos <= h.grain_start <= final(r).pos
            &&& seq.reduced_still_picture_header ==> h.frame_type == FrameType::Key && h.show_frame
                && !h.show_existing_frame
            &&& !seq.reduced_still_picture_header ==> h.show_existing_frame == old(r).bits()[old(
                r,
            ).pos as int]
            &&& !seq.film_grain_params_present ==> h.film_grain_params is Disable
            &&& h.show_existing_frame ==> h.grain_start == final(r).pos
            &&& !h.show_existing_frame ==> {
                &&& header_wf(h.film_grain_params, h.grain_ctx)
                &&& final(r).bits().subrange(h.grain_start as int, final(r).pos as int)
                    == grain_header_bits(h.film_grain_params, h.grain_ctx)
                &&& h.grain_ctx.film_grain_params_present == seq.film_grain_params_present
                &&& h.grain_ctx.show_frame == h.show_frame
                &&& h.grain_ctx.frame_type == h.frame_type
                &&& h.grain_ctx.mono_chrome == (seq.color_config.num_planes == 1)
                &&& h.grain_ctx.subsampling_x == (seq.color_config.subsampling_x == 1)
                &&& h.grain_ctx.subsampling_y == (seq.color_config.subsampling_y == 1)
                &&& h.frame_type == FrameType::Key && h.show_frame ==> h.refresh_frame_flags
                    == REFRESH_ALL_FRAMES
                &&& forall|i: int|
                    0 <= i < NUM_REF_FRAMES && refreshes(h.refresh_frame_flags, i)
                        ==> final(refs).ref_valid@[i] && final(refs).ref_order_hint@[i]
                        == h.order_hint
            }
        },
{
    let start = if seq.reduced_still_picture_header {
        FrameStart {
            frame_type: FrameType::Key,
            show_frame: true,
            showable_frame: false,
            error_resilient_mode: true,
        }
    } else {
        let show_existing = r.read_bool()?;
        if show_existing {
            let mut work = refs.duplicate();
            let h = show_existing_frame(r, seq, &mut work, prev_tile_info)?;
            *refs = work;
            return Ok(h);
        }
        frame_start(r, seq)?
    };
    let mut work = refs.duplicate();
    if start.frame_type == FrameType::Key && start.show_frame {
        work.reset_for_key_frame();
    }
    let p = frame_prologue(r, seq, &mut work, extension, &start)?;
    let tile_info = frame_tools(r, seq, &work, &start, &p)?;
    let grain_ctx = GrainContext {
        film_grain_params_present: seq.film_grain_params_present,
        show_frame: start.show_frame,
        showable_frame: start.showable_frame,
        frame_type: start.frame_type,
        mono_chrome: seq.color_config.num_planes == 1,
        subsampling_x: seq.color_config.subsampling_x == 1,
        subsampling_y: seq.color_config.subsampling_y == 1,
    };
    let grain_start = r.pos;
    let film_grain_params = film_grain_params(r, grain_ctx)?;
    work.refresh(
        p.refresh_frame_flags,
        p.order_hint,
        start.frame_type,
        p.upscaled_width,
        p.frame_size.height,
    );
    *refs = work;
    Ok(
        FrameHeader {
            show_frame: start.show_frame,
            show_existing_frame: false,
            frame_type: start.frame_type,
            error_resilient_mode: start.error_resilient_mode,
            order_hint: p.order_hint,
            refresh_frame_flags: p.refresh_frame_flags,
            film_grain_params,
            grain_ctx,
            grain_start,
            tile_info,
        },
    )
}

/// Whether every segment is lossless: its quantizer index and all
/// quantizer deltas are zero.
fn coded_lossless(q: &QuantizationParams, segmentation: &Option<Vec<Option<i16>>>) -> (r: bool)
    requires
        segmentation matches Some(d) ==> d@.len() == MAX_SEGMENTS * SEG_LVL_MAX,
    ensures
        r == (q.deltaq_y_dc == 0 && q.deltaq_u_ac == 0 && q.deltaq_u_dc == 0 && q.deltaq_v_ac == 0
            && q.deltaq_v_dc == 0 && forall|s: int|
            0 <= s < MAX_SEGMENTS ==> segment_qindex(s, q.base_q_idx, *segmentation) == 0),
{
    if !(q.deltaq_y_dc == 0 && q.deltaq_u_ac == 0 && q.deltaq_u_dc == 0 && q.deltaq_v_ac == 0
        && q.deltaq_v_dc == 0) {
        return false;
    }
    let mut segment_id: usize = 0;
    while segment_id < MAX_SEGMENTS
        invariant
            segment_id <= MAX_SEGMENTS,
            segmentation matches Some(d) ==> d@.len() == MAX_SEGMENTS * SEG_LVL_MAX,
            forall|s: int|
                0 <= s < segment_id ==> segment_qindex(s, q.base_q_idx, *segmentation) == 0,
        decreases MAX_SEGMENTS - segment_id,
    {
        if get_qindex(segment_id, q.base_q_idx, segmentation) != 0 {
            return false;
        }
        segment_id = segment_id + 1;
    }
    true
}

} // verus!

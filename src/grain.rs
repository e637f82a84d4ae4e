//! The film grain block at the end of an AV1 frame header: its data model,
//! its bit code, a reader and a writer for it.
use vstd::arithmetic::power2::*;
use vstd::prelude::*;

use crate::bits::{put_bits, uint_bits, BitReader};
use crate::error::ParseError;
use crate::frame_type::FrameType;

verus! {

/// The most luma scaling points a grain block can carry.
pub const GS_NUM_Y_POINTS: usize = 14;

/// The most scaling points per chroma plane.
pub const GS_NUM_UV_POINTS: usize = 10;

/// The most luma auto-regression coefficients.
pub const GS_NUM_Y_COEFFS: usize = 24;

/// The most auto-regression coefficients per chroma plane.
pub const GS_NUM_UV_COEFFS: usize = 25;

/// Grain synthesis parameters of one frame.
#[derive(Debug, Clone)]
pub struct FilmGrainParams {
    /// Random seed used for generating grain.
    pub grain_seed: u16,
    /// Luma scaling points: (value, scaling).
    pub scaling_points_y: Vec<(u8, u8)>,
    /// Cb scaling points: (value, scaling).
    pub scaling_points_cb: Vec<(u8, u8)>,
    /// Cr scaling points: (value, scaling).
    pub scaling_points_cr: Vec<(u8, u8)>,
    /// Range and quantization step of the grain's standard deviation, `8..=11`.
    pub scaling_shift: u8,
    /// How many auto-regression coefficients there are, `0..=3`.
    pub ar_coeff_lag: u8,
    /// Luma auto-regression coefficients.
    pub ar_coeffs_y: Vec<i8>,
    /// Cb auto-regression coefficients.
    pub ar_coeffs_cb: Vec<i8>,
    /// Cr auto-regression coefficients.
    pub ar_coeffs_cr: Vec<i8>,
    /// Range of the auto-regression coefficients, `6..=9`.
    pub ar_coeff_shift: u8,
    /// Cb grain multiplier.
    pub cb_mult: u8,
    /// Cb multiplier taken from luma.
    pub cb_luma_mult: u8,
    /// Cb offset, `0..=511`.
    pub cb_offset: u16,
    /// Cr grain multiplier.
    pub cr_mult: u8,
    /// Cr multiplier taken from luma.
    pub cr_luma_mult: u8,
    /// Cr offset, `0..=511`.
    pub cr_offset: u16,
    /// Chroma grain scaled from luma instead of its own points.
    pub chroma_scaling_from_luma: bool,
    /// How far the Gaussian numbers are scaled down, `0..=3`.
    pub grain_scale_shift: u8,
    /// Whether grain blocks overlap.
    pub overlap_flag: bool,
    /// Whether the result is clipped to the restricted range.
    pub clip_to_restricted_range: bool,
}

/// What a frame header says about film grain.
#[derive(Debug, Clone)]
pub enum FilmGrainHeader {
    /// No grain for this frame.
    Disable,
    /// Grain parameters of reference slot `ref_idx`, with a new seed.
    CopyRefFrame { ref_idx: u8, grain_seed: u16 },
    /// New grain parameters.
    UpdateGrain(FilmGrainParams),
}

/// What the grain block's syntax depends on besides its own fields.
#[derive(Debug, Clone, Copy, PartialEq, Eq, Structural)]
pub struct GrainContext {
    pub film_grain_params_present: bool,
    pub show_frame: bool,
    pub showable_frame: bool,
    pub frame_type: FrameType,
    pub mono_chrome: bool,
    pub subsampling_x: bool,
    pub subsampling_y: bool,
}

impl GrainContext {
    /// Whether the frame header carries a grain block at all.
    pub open spec fn has_block(self) -> bool {
        self.film_grain_params_present && (self.show_frame || self.showable_frame)
    }
}

/// The number of luma auto-regression coefficients for a lag.
pub open spec fn num_pos_luma(lag: nat) -> nat {
    2 * lag * (lag + 1)
}

/// Whether chroma scaling points are coded, given the number of luma points
/// and the chroma-from-luma flag.
pub open spec fn chroma_coded(num_y: nat, cfl: bool, c: GrainContext) -> bool {
    !(c.mono_chrome || cfl || (c.subsampling_x && c.subsampling_y && num_y == 0))
}

/// Whether the chroma scaling points are coded in the block.
pub open spec fn chroma_points_coded(p: FilmGrainParams, c: GrainContext) -> bool {
    chroma_coded(p.scaling_points_y@.len(), p.chroma_scaling_from_luma, c)
}

/// The number of chroma coefficients for a lag.
pub open spec fn num_pos_chroma(p: FilmGrainParams) -> nat {
    num_pos_luma(p.ar_coeff_lag as nat) + if p.scaling_points_y@.len() > 0 {
        1nat
    } else {
        0nat
    }
}

/// The parameters are in range and agree with the context, as the block's
/// syntax requires.
pub open spec fn params_wf(p: FilmGrainParams, c: GrainContext) -> bool {
    &&& p.scaling_points_y@.len() <= GS_NUM_Y_POINTS
    &&& p.scaling_points_cb@.len() <= GS_NUM_UV_POINTS
    &&& p.scaling_points_cr@.len() <= GS_NUM_UV_POINTS
    &&& c.mono_chrome ==> !p.chroma_scaling_from_luma
    &&& !chroma_points_coded(p, c) ==> p.scaling_points_cb@.len() == 0
        && p.scaling_points_cr@.len() == 0
    &&& 8 <= p.scaling_shift <= 11
    &&& p.ar_coeff_lag <= 3
    &&& p.ar_coeffs_y@.len() == if p.scaling_points_y@.len() > 0 {
        num_pos_luma(p.ar_coeff_lag as nat)
    } else {
        0
    }
    &&& p.ar_coeffs_cb@.len() == if p.chroma_scaling_from_luma || p.scaling_points_cb@.len() > 0 {
        num_pos_chroma(p)
    } else {
        0
    }
    &&& p.ar_coeffs_cr@.len() == if p.chroma_scaling_from_luma || p.scaling_points_cr@.len() > 0 {
        num_pos_chroma(p)
    } else {
        0
    }
    &&& 6 <= p.ar_coeff_shift <= 9
    &&& p.grain_scale_shift <= 3
    &&& p.cb_offset < 512
    &&& p.cr_offset < 512
    &&& p.scaling_points_cb@.len() == 0 ==> p.cb_mult == 0 && p.cb_luma_mult == 0 && p.cb_offset
        == 0
    &&& p.scaling_points_cr@.len() == 0 ==> p.cr_mult == 0 && p.cr_luma_mult == 0 && p.cr_offset
        == 0
}

/// The header can be coded in the given context.
pub open spec fn header_wf(h: FilmGrainHeader, c: GrainContext) -> bool {
    match h {
        FilmGrainHeader::Disable => true,
        FilmGrainHeader::CopyRefFrame { ref_idx, grain_seed } => c.has_block() && c.frame_type
            == FrameType::Inter && ref_idx < 8,
        FilmGrainHeader::UpdateGrain(p) => c.has_block() && params_wf(p, c),
    }
}

/// The code of a list of scaling points.
pub open spec fn points_bits(pts: Seq<(u8, u8)>) -> Seq<bool>
    decreases pts.len(),
{
    if pts.len() == 0 {
        Seq::empty()
    } else {
        points_bits(pts.drop_last()) + uint_bits(pts.last().0 as nat, 8) + uint_bits(
            pts.last().1 as nat,
            8,
        )
    }
}

/// The code of a list of auto-regression coefficients, each offset by 128.
pub open spec fn coeff_bits(cs: Seq<i8>) -> Seq<bool>
    decreases cs.len(),
{
    if cs.len() == 0 {
        Seq::empty()
    } else {
        coeff_bits(cs.drop_last()) + uint_bits((cs.last() + 128) as nat, 8)
    }
}

/// One flag as a bit sequence.
pub open spec fn flag(b: bool) -> Seq<bool> {
    seq![b]
}

/// Bits present only when a condition holds.
pub open spec fn bits_if(c: bool, s: Seq<bool>) -> Seq<bool> {
    if c {
        s
    } else {
        Seq::empty()
    }
}

/// The code of the scaling-point section, from its parts.
pub open spec fn scaling_bits_of(
    y: Seq<(u8, u8)>,
    cfl: bool,
    cb: Seq<(u8, u8)>,
    cr: Seq<(u8, u8)>,
    c: GrainContext,
) -> Seq<bool> {
    uint_bits(y.len(), 4) + points_bits(y) + bits_if(!c.mono_chrome, flag(cfl)) + bits_if(
        chroma_coded(y.len(), cfl, c),
        uint_bits(cb.len(), 4) + points_bits(cb) + uint_bits(cr.len(), 4) + points_bits(cr),
    )
}

/// The code of the scaling-point section.
pub open spec fn scaling_section_bits(p: FilmGrainParams, c: GrainContext) -> Seq<bool> {
    scaling_bits_of(
        p.scaling_points_y@,
        p.chroma_scaling_from_luma,
        p.scaling_points_cb@,
        p.scaling_points_cr@,
        c,
    )
}

/// The code of the auto-regression section.
pub open spec fn ar_section_bits(p: FilmGrainParams) -> Seq<bool> {
    uint_bits((p.scaling_shift - 8) as nat, 2) + uint_bits(p.ar_coeff_lag as nat, 2) + coeff_bits(
        p.ar_coeffs_y@,
    ) + coeff_bits(p.ar_coeffs_cb@) + coeff_bits(p.ar_coeffs_cr@) + uint_bits(
        (p.ar_coeff_shift - 6) as nat,
        2,
    ) + uint_bits(p.grain_scale_shift as nat, 2)
}

/// The code of the chroma multipliers and the two closing flags.
pub open spec fn tail_section_bits(p: FilmGrainParams) -> Seq<bool> {
    bits_if(
        p.scaling_points_cb@.len() > 0,
        uint_bits(p.cb_mult as nat, 8) + uint_bits(p.cb_luma_mult as nat, 8) + uint_bits(
            p.cb_offset as nat,
            9,
        ),
    ) + bits_if(
        p.scaling_points_cr@.len() > 0,
        uint_bits(p.cr_mult as nat, 8) + uint_bits(p.cr_luma_mult as nat, 8) + uint_bits(
            p.cr_offset as nat,
            9,
        ),
    ) + flag(p.overlap_flag) + flag(p.clip_to_restricted_range)
}

/// The code of a grain block in a frame header.
pub open spec fn grain_header_bits(h: FilmGrainHeader, c: GrainContext) -> Seq<bool> {
    if !c.has_block() {
        Seq::empty()
    } else {
        match h {
            FilmGrainHeader::Disable => flag(false),
            FilmGrainHeader::CopyRefFrame { ref_idx, grain_seed } => flag(true) + uint_bits(
                grain_seed as nat,
                16,
            ) + flag(false) + uint_bits(ref_idx as nat, 3),
            FilmGrainHeader::UpdateGrain(p) => flag(true) + uint_bits(p.grain_seed as nat, 16)
                + bits_if(c.frame_type == FrameType::Inter, flag(true)) + scaling_section_bits(p, c)
                + ar_section_bits(p) + tail_section_bits(p),
        }
    }
}

/// Reads `n` bits and states the bits read since `start` as the ones read
/// before followed by the code of the value.
fn take(r: &mut BitReader, n: usize, Ghost(start): Ghost<int>) -> (res: Result<u64, ParseError>)
    requires
        old(r).wf(),
        n <= 64,
        0 <= start <= old(r).pos,
    ensures
        final(r).wf(),
        final(r).data@ == old(r).data@,
        final(r).pos >= old(r).pos,
        old(r).remaining() >= n ==> res is Ok,
        final(r).pos <= old(r).pos + n,
        res matches Ok(v) ==> {
            &&& (v as nat) < pow2(n as nat)
            &&& final(r).pos == old(r).pos + n
            &&& final(r).bits().subrange(old(r).pos as int, final(r).pos as int) == uint_bits(
                v as nat,
                n as nat,
            )
            &&& final(r).bits().subrange(start, final(r).pos as int) == old(r).bits().subrange(
                start,
                old(r).pos as int,
            ) + uint_bits(v as nat, n as nat)
        },
{
    let ghost before = r.bits().subrange(start, r.pos as int);
    let ghost at0 = r.pos as int;
    let v = r.read_bits(n)?;
    proof {
        assert(r.bits().subrange(start, r.pos as int) =~= before + r.bits().subrange(
            at0,
            r.pos as int,
        ));
    }
    Ok(v)
}

/// Reads one flag, in the manner of `take`.
fn take_flag(r: &mut BitReader, Ghost(start): Ghost<int>) -> (res: Result<bool, ParseError>)
    requires
        old(r).wf(),
        0 <= start <= old(r).pos,
    ensures
        final(r).wf(),
        final(r).data@ == old(r).data@,
        final(r).pos >= old(r).pos,
        old(r).remaining() >= 1 ==> res is Ok,
        final(r).pos <= old(r).pos + 1,
        res matches Ok(b) ==> {
            &&& b == old(r).bits()[old(r).pos as int]
            &&& final(r).pos == old(r).pos + 1
            &&& final(r).bits().subrange(start, final(r).pos as int) == old(r).bits().subrange(
                start,
                old(r).pos as int,
            ) + flag(b)
        },
{
    let ghost before = r.bits().subrange(start, r.pos as int);
    let ghost at0 = r.pos as int;
    let b = r.read_bool()?;
    proof {
        assert(r.bits().subrange(start, r.pos as int) =~= before + flag(b));
    }
    Ok(b)
}

/// Reads `count` scaling points.
fn read_points(r: &mut BitReader, count: u64) -> (res: Result<Vec<(u8, u8)>, ParseError>)
    requires
        old(r).wf(),
    ensures
        final(r).wf(),
        final(r).data@ == old(r).data@,
        final(r).pos >= old(r).pos,
        res matches Ok(pts) ==> pts@.len() == count && final(r).bits().subrange(
            old(r).pos as int,
            final(r).pos as int,
        ) == points_bits(pts@),
        final(r).pos <= old(r).pos + 16 * count,
        res is Ok ==> final(r).pos == old(r).pos + 16 * count,
        old(r).remaining() >= 16 * count ==> res is Ok,
{
    let ghost start = r.pos as int;
    let mut pts: Vec<(u8, u8)> = Vec::new();
    let mut i: u64 = 0;
    proof {
        assert(r.bits().subrange(start, start) =~= points_bits(pts@));
    }
    while i < count
        invariant
            r.wf(),
            r.data@ == old(r).data@,
            start == old(r).pos,
            r.pos >= start,
            i <= count,
            pts@.len() == i,
            r.bits().subrange(start, r.pos as int) == points_bits(pts@),
            r.pos == start + 16 * i,
        decreases count - i,
    {
        let value = take(r, 8, Ghost(start))?;
        let scaling = take(r, 8, Ghost(start))?;
        proof {
            lemma2_to64();
        }
        let ghost prev = pts@;
        pts.push((value as u8, scaling as u8));
        proof {
            assert(pts@.drop_last() =~= prev);
        }
        i = i + 1;
    }
    Ok(pts)
}

/// Reads `count` auto-regression coefficients.
fn read_coeffs(r: &mut BitReader, count: u64) -> (res: Result<Vec<i8>, ParseError>)
    requires
        old(r).wf(),
    ensures
        final(r).wf(),
        final(r).data@ == old(r).data@,
        final(r).pos >= old(r).pos,
        res matches Ok(cs) ==> cs@.len() == count && final(r).bits().subrange(
            old(r).pos as int,
            final(r).pos as int,
        ) == coeff_bits(cs@),
        final(r).pos <= old(r).pos + 8 * count,
        res is Ok ==> final(r).pos == old(r).pos + 8 * count,
        old(r).remaining() >= 8 * count ==> res is Ok,
{
    let ghost start = r.pos as int;
    let mut cs: Vec<i8> = Vec::new();
    let mut i: u64 = 0;
    proof {
        assert(r.bits().subrange(start, start) =~= coeff_bits(cs@));
    }
    while i < count
        invariant
            r.wf(),
            r.data@ == old(r).data@,
            start == old(r).pos,
            r.pos >= start,
            i <= count,
            cs@.len() == i,
            r.bits().subrange(start, r.pos as int) == coeff_bits(cs@),
            r.pos == start + 8 * i,
        decreases count - i,
    {
        let v = take(r, 8, Ghost(start))?;
        proof {
            lemma2_to64();
        }
        let c = (v as i16 - 128) as i8;
        let ghost prev = cs@;
        cs.push(c);
        proof {
            assert(cs@.drop_last() =~= prev);
        }
        i = i + 1;
    }
    Ok(cs)
}

/// Reads the grain block of a frame header. On success the bits read are
/// exactly the code of the returned header, and the header suits the context.
pub fn film_grain_params(r: &mut BitReader, c: GrainContext) -> (res: Result<
    FilmGrainHeader,
    ParseError,
>)
    requires
        old(r).wf(),
    ensures
        final(r).wf(),
        final(r).data@ == old(r).data@,
        final(r).pos >= old(r).pos,
        res matches Ok(h) ==> header_wf(h, c) && final(r).bits().subrange(
            old(r).pos as int,
            final(r).pos as int,
        ) == grain_header_bits(h, c),
        !c.has_block() ==> (res matches Ok(h) && h is Disable) && final(r).pos == old(r).pos,
        c.has_block() && old(r).remaining() >= 1 && !old(r).bits()[old(r).pos as int] ==> (
        res matches Ok(h) && h is Disable),
        c.has_block() && c.frame_type == FrameType::Inter && old(r).remaining() >= 21 && old(
            r,
        ).bits()[old(r).pos as int] && !old(r).bits()[old(r).pos + 17] ==> (res matches Ok(h)
            && h is CopyRefFrame && final(r).pos == old(r).pos + 21),
        old(r).remaining() >= 1300 ==> res is Ok || res == Err::<FilmGrainHeader, ParseError>(
            ParseError::InvalidValue,
        ),
        forall|h: FilmGrainHeader, rest: Seq<bool>|
            header_wf(h, c) && old(r).bits().subrange(old(r).pos as int, old(r).bits().len() as int)
                == #[trigger] (grain_header_bits(h, c) + rest) ==> (res matches Ok(h2) && h2@ == h@
                && final(r).pos == old(r).pos + grain_header_bits(h, c).len()),
{
    let ghost p0 = r.pos as int;
    let ghost b = r.bits();
    let ghost target: (FilmGrainHeader, Seq<bool>) = choose|t: (FilmGrainHeader, Seq<bool>)|
        header_wf(t.0, c) && b.subrange(p0, b.len() as int) == grain_header_bits(t.0, c) + t.1;
    let res = read_grain_block(r, c, Ghost(target));
    proof {
        assert forall|h: FilmGrainHeader, rest: Seq<bool>|
            header_wf(h, c) && b.subrange(p0, b.len() as int) == #[trigger] (grain_header_bits(
                h,
                c,
            ) + rest) implies (res matches Ok(h2) && h2@ == h@ && r.pos == p0 + grain_header_bits(
            h,
            c,
        ).len()) by {
            let w = (h, rest);
            assert(header_wf(w.0, c) && b.subrange(p0, b.len() as int) == grain_header_bits(w.0, c)
                + w.1);
            assert(res is Ok);
            let h2 = res->Ok_0;
            let tail = b.subrange(r.pos as int, b.len() as int);
            assert(b.subrange(p0, b.len() as int) =~= b.subrange(p0, r.pos as int) + tail);
            lemma_grain_code_prefix(h2, h, c, tail, rest);
        }
    }
    res
}

/// Reads the grain block of a frame header (see `film_grain_params`). On success the bits read are
/// exactly the code of the returned header, and the header suits the context.
#[verifier::rlimit(100)]
fn read_grain_block(
    r: &mut BitReader,
    c: GrainContext,
    Ghost(target): Ghost<(FilmGrainHeader, Seq<bool>)>,
) -> (res: Result<
    FilmGrainHeader,
    ParseError,
>)
    requires
        old(r).wf(),
    ensures
        final(r).wf(),
        final(r).data@ == old(r).data@,
        final(r).pos >= old(r).pos,
        res matches Ok(h) ==> header_wf(h, c) && final(r).bits().subrange(
            old(r).pos as int,
            final(r).pos as int,
        ) == grain_header_bits(h, c),
        !c.has_block() ==> (res matches Ok(h) && h is Disable) && final(r).pos == old(r).pos,
        c.has_block() && old(r).remaining() >= 1 && !old(r).bits()[old(r).pos as int] ==> (
        res matches Ok(h) && h is Disable),
        c.has_block() && c.frame_type == FrameType::Inter && old(r).remaining() >= 21 && old(
            r,
        ).bits()[old(r).pos as int] && !old(r).bits()[old(r).pos + 17] ==> (res matches Ok(h)
            && h is CopyRefFrame && final(r).pos == old(r).pos + 21),
        old(r).remaining() >= 1300 ==> res is Ok || res == Err::<FilmGrainHeader, ParseError>(
            ParseError::InvalidValue,
        ),
        header_wf(target.0, c) && old(r).bits().subrange(old(r).pos as int, old(r).bits().len() as int)
            == grain_header_bits(target.0, c) + target.1 ==> res is Ok,
{
    let ghost start = r.pos as int;
    let ghost b = r.bits();
    let ghost th = target.0;
    let ghost rest = target.1;
    let ghost ok = header_wf(th, c) && b.subrange(start, b.len() as int) == grain_header_bits(th, c)
        + rest;
    let ghost inter = bits_if(c.frame_type == FrameType::Inter, flag(true));
    proof {
        lemma_small_pow2();
        if ok && c.has_block() {
            lemma_grain_target_shape(th, c, rest);
        }
    }
    proof {
        assert(r.bits().subrange(start, start) =~= Seq::<bool>::empty());
    }
    if !c.film_grain_params_present || (!c.show_frame && !c.showable_frame) {
        return Ok(FilmGrainHeader::Disable);
    }
    let apply_grain = take_flag(r, Ghost(start))?;
    if !apply_grain {
        proof {
            assert(Seq::<bool>::empty() + flag(false) =~= flag(false));
        }
        return Ok(FilmGrainHeader::Disable);
    }
    proof {
        if ok {
            assert(b.subrange(start, b.len() as int)[0] == b[start]);
            assert(!(th is Disable));
            assert(b.subrange(start, b.len() as int).len() >= 18);
        }
    }
    let ghost seed_at = r.pos as int;
    let grain_seed = take(r, 16, Ghost(start))?;
    proof {
        lemma2_to64();
    }
    let ghost upd_at = r.pos as int;
    let update_grain = if c.frame_type == FrameType::Inter {
        take_flag(r, Ghost(start))?
    } else {
        true
    };
    proof {
        if ok {
            if c.frame_type == FrameType::Inter {
                assert(b.subrange(start, b.len() as int)[17] == b[start + 17]);
            }
        }
    }
    if !update_grain {
        let ref_idx = take(r, 3, Ghost(start))?;
        let h = FilmGrainHeader::CopyRefFrame { ref_idx: ref_idx as u8, grain_seed: grain_seed as u16 };
        proof {
            assert(Seq::<bool>::empty() + flag(true) + uint_bits(grain_seed as nat, 16) + flag(false)
                + uint_bits(ref_idx as nat, 3) =~= grain_header_bits(h, c));
        }
        return Ok(h);
    }
    let ghost head = r.bits().subrange(start, r.pos as int);
    assert(head =~= flag(true) + uint_bits(grain_seed as nat, 16) + bits_if(
        c.frame_type == FrameType::Inter,
        flag(true),
    ));
    let ghost mid = r.pos as int;
    let ghost pt = th->UpdateGrain_0;
    let ghost a_t = ar_section_bits(pt) + (tail_section_bits(pt) + rest);
    proof {
        if ok {
            assert(th is UpdateGrain);
            lemma_peel_update_head(b, start, c, pt, rest, grain_seed as nat);
            assert(mid == start + 17 + if c.frame_type == FrameType::Inter {
                1int
            } else {
                0int
            });
        }
    }
    let p = read_update_params(r, c, grain_seed as u16, Ghost(pt), Ghost(rest))?;
    proof {
        let s = r.bits();
        assert(s.subrange(start, r.pos as int) =~= s.subrange(start, mid) + s.subrange(mid, r.pos as int));
        assert(s.subrange(start, mid) == head);
    }
    Ok(FilmGrainHeader::UpdateGrain(p))
}

/// Reads the parameters of a block that carries new grain, after its seed
/// and update flag.
#[verifier::rlimit(100)]
fn read_update_params(
    r: &mut BitReader,
    c: GrainContext,
    grain_seed: u16,
    Ghost(pt): Ghost<FilmGrainParams>,
    Ghost(rest): Ghost<Seq<bool>>,
) -> (res: Result<FilmGrainParams, ParseError>)
    requires
        old(r).wf(),
    ensures
        final(r).wf(),
        final(r).data@ == old(r).data@,
        final(r).pos >= old(r).pos,
        final(r).pos <= old(r).pos + 1209,
        res matches Ok(p) ==> params_wf(p, c) && p.grain_seed == grain_seed && final(r).bits().subrange(
            old(r).pos as int,
            final(r).pos as int,
        ) == scaling_section_bits(p, c) + ar_section_bits(p) + tail_section_bits(p),
        old(r).remaining() >= 1209 ==> res is Ok || res == Err::<FilmGrainParams, ParseError>(
            ParseError::InvalidValue,
        ),
        params_wf(pt, c) && old(r).bits().subrange(old(r).pos as int, old(r).bits().len() as int)
            == scaling_section_bits(pt, c) + (ar_section_bits(pt) + (tail_section_bits(pt) + rest))
            ==> res is Ok,
{
    let ghost mid = r.pos as int;
    let ghost ok = params_wf(pt, c) && r.bits().subrange(mid, r.bits().len() as int)
        == scaling_section_bits(pt, c) + (ar_section_bits(pt) + (tail_section_bits(pt) + rest));
    let ghost a_t = ar_section_bits(pt) + (tail_section_bits(pt) + rest);
    let (scaling_points_y, chroma_scaling_from_luma, scaling_points_cb, scaling_points_cr) =
        read_scaling_section(
        r,
        c,
        Ghost(
            (
                pt.scaling_points_y@,
                pt.chroma_scaling_from_luma,
                pt.scaling_points_cb@,
                pt.scaling_points_cr@,
                a_t,
            ),
        ),
    )?;
    let ghost mid2 = r.pos as int;
    let (
        scaling_shift,
        ar_coeff_lag,
        ar_coeffs_y,
        ar_coeffs_cb,
        ar_coeffs_cr,
        ar_coeff_shift,
        grain_scale_shift,
    ) = read_ar_section(
        r,
        scaling_points_y.len() as u64,
        chroma_scaling_from_luma,
        scaling_points_cb.len() as u64,
        scaling_points_cr.len() as u64,
        Ghost(
            (
                pt.scaling_shift,
                pt.ar_coeff_lag,
                pt.ar_coeffs_y@,
                pt.ar_coeffs_cb@,
                pt.ar_coeffs_cr@,
                pt.ar_coeff_shift,
                pt.grain_scale_shift,
                tail_section_bits(pt) + rest,
            ),
        ),
    )?;
    proof {
        if ok {
            crate::bits::lemma_uint_bits_len(pt.cb_mult as nat, 8);
            crate::bits::lemma_uint_bits_len(pt.cb_luma_mult as nat, 8);
            crate::bits::lemma_uint_bits_len(pt.cb_offset as nat, 9);
            crate::bits::lemma_uint_bits_len(pt.cr_mult as nat, 8);
            crate::bits::lemma_uint_bits_len(pt.cr_luma_mult as nat, 8);
            crate::bits::lemma_uint_bits_len(pt.cr_offset as nat, 9);
            assert(r.bits().subrange(r.pos as int, r.bits().len() as int).len() >= tail_section_bits(pt).len());
        }
    }
    let ghost mid3 = r.pos as int;
    let (cb_mult, cb_luma_mult, cb_offset, cr_mult, cr_luma_mult, cr_offset, overlap_flag, clip) =
        read_tail_section(r, scaling_points_cb.len() > 0, scaling_points_cr.len() > 0)?;
    let p = FilmGrainParams {
        grain_seed,
        scaling_points_y,
        scaling_points_cb,
        scaling_points_cr,
        scaling_shift,
        ar_coeff_lag,
        ar_coeffs_y,
        ar_coeffs_cb,
        ar_coeffs_cr,
        ar_coeff_shift,
        cb_mult,
        cb_luma_mult,
        cb_offset,
        cr_mult,
        cr_luma_mult,
        cr_offset,
        chroma_scaling_from_luma,
        grain_scale_shift,
        overlap_flag,
        clip_to_restricted_range: clip,
    };
    proof {
        let s = r.bits();
        assert(s.subrange(mid, r.pos as int) =~= s.subrange(mid, mid2) + s.subrange(mid2, mid3)
            + s.subrange(mid3, r.pos as int));
    }
    Ok(p)
}

/// What the scaling section at a position holds: the code of the points
/// and flag in `t`, which suit the syntax, followed by the bits `t.4`.
pub open spec fn scaling_target(
    s: Seq<bool>,
    c: GrainContext,
    t: (Seq<(u8, u8)>, bool, Seq<(u8, u8)>, Seq<(u8, u8)>, Seq<bool>),
) -> bool {
    &&& t.0.len() <= GS_NUM_Y_POINTS
    &&& t.2.len() <= GS_NUM_UV_POINTS
    &&& t.3.len() <= GS_NUM_UV_POINTS
    &&& c.mono_chrome ==> !t.1
    &&& !chroma_coded(t.0.len(), t.1, c) ==> t.2.len() == 0 && t.3.len() == 0
    &&& s == scaling_bits_of(t.0, t.1, t.2, t.3, c) + t.4
}

proof fn lemma_take_uint(b: Seq<bool>, p: int, n: nat, v: nat, tv: nat, next: Seq<bool>)
    requires
        0 <= p,
        p + n <= b.len(),
        b.subrange(p, p + n) == uint_bits(v, n),
        b.subrange(p, b.len() as int) == uint_bits(tv, n) + next,
        v < pow2(n),
        tv < pow2(n),
    ensures
        v == tv,
        b.subrange(p + n, b.len() as int) == next,
{
    assert(b.subrange(p, b.len() as int) =~= b.subrange(p, p + n) + b.subrange(p + n, b.len() as int));
    lemma_peel_uint(n, v, tv, b.subrange(p + n, b.len() as int), next);
}

proof fn lemma_take_flag(b: Seq<bool>, p: int, v: bool, tv: bool, next: Seq<bool>)
    requires
        0 <= p < b.len(),
        b[p] == v,
        b.subrange(p, b.len() as int) == flag(tv) + next,
    ensures
        v == tv,
        b.subrange(p + 1, b.len() as int) == next,
{
    assert(b.subrange(p, b.len() as int) =~= flag(v) + b.subrange(p + 1, b.len() as int));
    lemma_peel_flag(v, tv, b.subrange(p + 1, b.len() as int), next);
}

proof fn lemma_take_points(b: Seq<bool>, p: int, v: Seq<(u8, u8)>, tv: Seq<(u8, u8)>, next: Seq<bool>)
    requires
        0 <= p,
        p + 16 * v.len() <= b.len(),
        v.len() == tv.len(),
        b.subrange(p, p + 16 * v.len()) == points_bits(v),
        b.subrange(p, b.len() as int) == points_bits(tv) + next,
    ensures
        v == tv,
        b.subrange(p + 16 * v.len(), b.len() as int) == next,
{
    assert(b.subrange(p, b.len() as int) =~= b.subrange(p, p + 16 * v.len()) + b.subrange(
        p + 16 * v.len(),
        b.len() as int,
    ));
    lemma_peel_points(v, tv, b.subrange(p + 16 * v.len(), b.len() as int), next);
}

proof fn lemma_take_coeffs(b: Seq<bool>, p: int, v: Seq<i8>, tv: Seq<i8>, next: Seq<bool>)
    requires
        0 <= p,
        p + 8 * v.len() <= b.len(),
        v.len() == tv.len(),
        b.subrange(p, p + 8 * v.len()) == coeff_bits(v),
        b.subrange(p, b.len() as int) == coeff_bits(tv) + next,
    ensures
        v == tv,
        b.subrange(p + 8 * v.len(), b.len() as int) == next,
{
    assert(b.subrange(p, b.len() as int) =~= b.subrange(p, p + 8 * v.len()) + b.subrange(
        p + 8 * v.len(),
        b.len() as int,
    ));
    lemma_peel_coeffs(v, tv, b.subrange(p + 8 * v.len(), b.len() as int), next);
}

/// Reads the scaling-point section: luma points, the chroma-from-luma flag,
/// and the chroma points.
#[verifier::rlimit(100)]
fn read_scaling_section(
    r: &mut BitReader,
    c: GrainContext,
    Ghost(t): Ghost<(Seq<(u8, u8)>, bool, Seq<(u8, u8)>, Seq<(u8, u8)>, Seq<bool>)>,
) -> (res: Result<
    (Vec<(u8, u8)>, bool, Vec<(u8, u8)>, Vec<(u8, u8)>),
    ParseError,
>)
    requires
        old(r).wf(),
    ensures
        final(r).wf(),
        final(r).data@ == old(r).data@,
        final(r).pos >= old(r).pos,
        res matches Ok((y, cfl, cb, cr)) ==> {
            &&& final(r).bits().subrange(old(r).pos as int, final(r).pos as int)
                == scaling_bits_of(y@, cfl, cb@, cr@, c)
            &&& y@.len() <= GS_NUM_Y_POINTS
            &&& cb@.len() <= GS_NUM_UV_POINTS
            &&& cr@.len() <= GS_NUM_UV_POINTS
            &&& c.mono_chrome ==> !cfl
            &&& !chroma_coded(y@.len(), cfl, c) ==> cb@.len() == 0 && cr@.len() == 0
        },
        final(r).pos <= old(r).pos + 557,
        old(r).remaining() >= 557 ==> res is Ok || res == Err::<
            (Vec<(u8, u8)>, bool, Vec<(u8, u8)>, Vec<(u8, u8)>),
            ParseError,
        >(ParseError::InvalidValue),
        scaling_target(old(r).bits().subrange(old(r).pos as int, old(r).bits().len() as int), c, t)
            ==> (res matches Ok((y, cfl, cb, cr)) && y@ == t.0 && cfl == t.1 && cb@ == t.2 && cr@
            == t.3 && final(r).bits().subrange(final(r).pos as int, final(r).bits().len() as int)
            == t.4),
{
    let ghost start = r.pos as int;
    let ghost b = r.bits();
    let ghost ok = scaling_target(b.subrange(start, b.len() as int), c, t);
    let ghost coded_t = chroma_coded(t.0.len(), t.1, c);
    let ghost ch_t = uint_bits(t.2.len(), 4) + points_bits(t.2) + uint_bits(t.3.len(), 4)
        + points_bits(t.3);
    let ghost k_t = bits_if(coded_t, ch_t) + t.4;
    let ghost f_t = bits_if(!c.mono_chrome, flag(t.1)) + k_t;
    proof {
        lemma_small_pow2();
        if ok {
            lemma_assoc5(uint_bits(t.0.len(), 4), points_bits(t.0), bits_if(!c.mono_chrome, flag(t.1)), bits_if(coded_t, ch_t), t.4);
            crate::bits::lemma_uint_bits_len(t.0.len(), 4);
            lemma_points_bits_len(t.0);
            assert(b.subrange(start, b.len() as int).len() >= 4);
        }
    }
    let num_y_points = r.read_bits(4)?;
    proof {
        if ok {
            lemma_take_uint(b, start, 4, num_y_points as nat, t.0.len(), points_bits(t.0) + f_t);
        }
    }
    if num_y_points > GS_NUM_Y_POINTS as u64 {
        return Err(ParseError::InvalidValue);
    }
    let ghost at1 = r.pos as int;
    let y = read_points(r, num_y_points)?;
    proof {
        if ok {
            lemma_take_points(b, at1, y@, t.0, f_t);
        }
    }
    let ghost at2 = r.pos as int;
    let cfl = if c.mono_chrome {
        false
    } else {
        r.read_bool()?
    };
    proof {
        if ok {
            if !c.mono_chrome {
                assert(f_t =~= flag(t.1) + k_t);
                lemma_take_flag(b, at2, cfl, t.1, k_t);
            } else {
                assert(f_t =~= k_t);
            }
        }
    }
    let ghost at3 = r.pos as int;
    let coded = !(c.mono_chrome || cfl || (c.subsampling_x && c.subsampling_y && num_y_points
        == 0));
    let mut cb: Vec<(u8, u8)> = Vec::new();
    let mut cr: Vec<(u8, u8)> = Vec::new();
    let ghost mut q1 = r.pos as int;
    let ghost mut q2 = r.pos as int;
    let ghost mut q3 = r.pos as int;
    let ghost r1 = points_bits(t.2) + (uint_bits(t.3.len(), 4) + (points_bits(t.3) + t.4));
    let ghost r2 = uint_bits(t.3.len(), 4) + (points_bits(t.3) + t.4);
    proof {
        if ok && coded {
            assert(coded_t);
            assert(b.subrange(at3, b.len() as int) == k_t);
            assert(k_t =~= ch_t + t.4);
            lemma_assoc5(uint_bits(t.2.len(), 4), points_bits(t.2), uint_bits(t.3.len(), 4), points_bits(t.3), t.4);
            crate::bits::lemma_uint_bits_len(t.2.len(), 4);
            crate::bits::lemma_uint_bits_len(t.3.len(), 4);
            lemma_points_bits_len(t.2);
            lemma_points_bits_len(t.3);
        }
        if ok && !coded {
            assert(k_t =~= t.4);
            assert(cb@ =~= t.2);
            assert(cr@ =~= t.3);
        }
    }
    if coded {
        let num_cb = r.read_bits(4)?;
        proof {
            if ok {
                lemma_take_uint(b, at3, 4, num_cb as nat, t.2.len(), r1);
            }
        }
        if num_cb > GS_NUM_UV_POINTS as u64 {
            return Err(ParseError::InvalidValue);
        }
        proof {
            q1 = r.pos as int;
        }
        cb = read_points(r, num_cb)?;
        proof {
            q2 = r.pos as int;
            if ok {
                lemma_take_points(b, q1, cb@, t.2, r2);
            }
        }
        let num_cr = r.read_bits(4)?;
        proof {
            if ok {
                lemma_take_uint(b, q2, 4, num_cr as nat, t.3.len(), points_bits(t.3) + t.4);
            }
        }
        if num_cr > GS_NUM_UV_POINTS as u64 {
            return Err(ParseError::InvalidValue);
        }
        proof {
            q3 = r.pos as int;
        }
        cr = read_points(r, num_cr)?;
        proof {
            if ok {
                lemma_take_points(b, q3, cr@, t.3, t.4);
            }
        }
    }
    proof {
        let s = r.bits();
        if coded {
            assert(s.subrange(at3, r.pos as int) =~= s.subrange(at3, q1) + s.subrange(q1, q2)
                + s.subrange(q2, q3) + s.subrange(q3, r.pos as int));
        } else {
            assert(s.subrange(at3, r.pos as int) =~= Seq::<bool>::empty());
        }
        if !c.mono_chrome {
            assert(s.subrange(at2, at3) =~= flag(cfl));
        } else {
            assert(s.subrange(at2, at3) =~= Seq::<bool>::empty());
        }
        assert(s.subrange(start, r.pos as int) =~= s.subrange(start, at1) + s.subrange(at1, at2)
            + s.subrange(at2, at3) + s.subrange(at3, r.pos as int));
    }
    Ok((y, cfl, cb, cr))
}

/// What the auto-regression section at a position holds: the code of the
/// fields in `t`, in range and with the coefficient counts the syntax
/// gives, followed by the bits `t.7`.
pub open spec fn ar_target(
    s: Seq<bool>,
    num_y: u64,
    cfl: bool,
    num_cb: u64,
    num_cr: u64,
    t: (u8, u8, Seq<i8>, Seq<i8>, Seq<i8>, u8, u8, Seq<bool>),
) -> bool {
    let npl = num_pos_luma(t.1 as nat);
    let npc = npl + if num_y > 0 {
        1nat
    } else {
        0nat
    };
    &&& 8 <= t.0 <= 11
    &&& t.1 <= 3
    &&& 6 <= t.5 <= 9
    &&& t.6 <= 3
    &&& t.2.len() == if num_y > 0 {
        npl
    } else {
        0
    }
    &&& t.3.len() == if cfl || num_cb > 0 {
        npc
    } else {
        0
    }
    &&& t.4.len() == if cfl || num_cr > 0 {
        npc
    } else {
        0
    }
    &&& s == uint_bits((t.0 - 8) as nat, 2) + uint_bits(t.1 as nat, 2) + coeff_bits(t.2)
        + coeff_bits(t.3) + coeff_bits(t.4) + uint_bits((t.5 - 6) as nat, 2) + uint_bits(
        t.6 as nat,
        2,
    ) + t.7
}

/// Reads the auto-regression section.
#[verifier::rlimit(100)]
fn read_ar_section(
    r: &mut BitReader,
    num_y: u64,
    cfl: bool,
    num_cb: u64,
    num_cr: u64,
    Ghost(t): Ghost<(u8, u8, Seq<i8>, Seq<i8>, Seq<i8>, u8, u8, Seq<bool>)>,
) -> (res: Result<(u8, u8, Vec<i8>, Vec<i8>, Vec<i8>, u8, u8), ParseError>)
    requires
        old(r).wf(),
    ensures
        final(r).wf(),
        final(r).data@ == old(r).data@,
        final(r).pos >= old(r).pos,
        res matches Ok((ss, lag, cy, ccb, ccr, shift, gss)) ==> {
            let npl = num_pos_luma(lag as nat);
            let npc = npl + if num_y > 0 {
                1nat
            } else {
                0nat
            };
            &&& 8 <= ss <= 11
            &&& lag <= 3
            &&& 6 <= shift <= 9
            &&& gss <= 3
            &&& cy@.len() == if num_y > 0 {
                npl
            } else {
                0
            }
            &&& ccb@.len() == if cfl || num_cb > 0 {
                npc
            } else {
                0
            }
            &&& ccr@.len() == if cfl || num_cr > 0 {
                npc
            } else {
                0
            }
            &&& final(r).bits().subrange(old(r).pos as int, final(r).pos as int) == uint_bits(
                (ss - 8) as nat,
                2,
            ) + uint_bits(lag as nat, 2) + coeff_bits(cy@) + coeff_bits(ccb@) + coeff_bits(ccr@)
                + uint_bits((shift - 6) as nat, 2) + uint_bits(gss as nat, 2)
        },
        final(r).pos <= old(r).pos + 600,
        ar_target(
            old(r).bits().subrange(old(r).pos as int, old(r).bits().len() as int),
            num_y,
            cfl,
            num_cb,
            num_cr,
            t,
        ) ==> (res matches Ok((ss, lag, cy, ccb, ccr, shift, gss)) && ss == t.0 && lag == t.1
            && cy@ == t.2 && ccb@ == t.3 && ccr@ == t.4 && shift == t.5 && gss == t.6
            && final(r).bits().subrange(final(r).pos as int, final(r).bits().len() as int) == t.7),
        old(r).remaining() >= 600 ==> res is Ok,
{
    let ghost start = r.pos as int;
    proof {
        lemma2_to64();
        assert(r.bits().subrange(start, start) =~= Seq::<bool>::empty());
    }
    let ghost b = r.bits();
    let ghost ok = ar_target(b.subrange(start, b.len() as int), num_y, cfl, num_cb, num_cr, t);
    let ghost g_t = uint_bits(t.6 as nat, 2) + t.7;
    let ghost sh_t = uint_bits((t.5 - 6) as nat, 2) + g_t;
    let ghost cr_t = coeff_bits(t.4) + sh_t;
    let ghost cb_t = coeff_bits(t.3) + cr_t;
    let ghost y_t = coeff_bits(t.2) + cb_t;
    let ghost l_t = uint_bits(t.1 as nat, 2) + y_t;
    proof {
        if ok {
            lemma_assoc8(
                uint_bits((t.0 - 8) as nat, 2),
                uint_bits(t.1 as nat, 2),
                coeff_bits(t.2),
                coeff_bits(t.3),
                coeff_bits(t.4),
                uint_bits((t.5 - 6) as nat, 2),
                uint_bits(t.6 as nat, 2),
                t.7,
            );
            crate::bits::lemma_uint_bits_len((t.0 - 8) as nat, 2);
            crate::bits::lemma_uint_bits_len(t.1 as nat, 2);
            crate::bits::lemma_uint_bits_len((t.5 - 6) as nat, 2);
            crate::bits::lemma_uint_bits_len(t.6 as nat, 2);
            lemma_coeff_bits_len(t.2);
            lemma_coeff_bits_len(t.3);
            lemma_coeff_bits_len(t.4);
            assert(b.subrange(start, b.len() as int).len() >= 4);
        }
    }
    let scaling_minus_8 = take(r, 2, Ghost(start))?;
    proof {
        if ok {
            lemma_take_uint(b, start, 2, scaling_minus_8 as nat, (t.0 - 8) as nat, l_t);
        }
    }
    let ghost p1 = r.pos as int;
    let lag = take(r, 2, Ghost(start))?;
    proof {
        if ok {
            lemma_take_uint(b, p1, 2, lag as nat, t.1 as nat, y_t);
        }
    }
    assert(lag < 4);
    assert(2 * lag * (lag + 1) <= 24) by (nonlinear_arith)
        requires
            lag < 4,
    ;
    let num_pos_luma = 2 * lag * (lag + 1);
    let num_pos_chroma = if num_y > 0 {
        num_pos_luma + 1
    } else {
        num_pos_luma
    };
    let ghost at1 = r.pos as int;
    let cy = if num_y > 0 {
        read_coeffs(r, num_pos_luma)?
    } else {
        Vec::new()
    };
    proof {
        assert(r.bits().subrange(at1, r.pos as int) =~= coeff_bits(cy@)) by {
            if cy@.len() == 0 {
                assert(r.bits().subrange(at1, r.pos as int) =~= Seq::<bool>::empty());
            }
        };
        assert(r.bits() == b);
        if ok {
            lemma_take_coeffs(b, at1, cy@, t.2, cb_t);
        }
    }
    let ghost at2 = r.pos as int;
    let ccb = if cfl || num_cb > 0 {
        read_coeffs(r, num_pos_chroma)?
    } else {
        Vec::new()
    };
    proof {
        assert(r.bits().subrange(at2, r.pos as int) =~= coeff_bits(ccb@)) by {
            if ccb@.len() == 0 {
                assert(r.bits().subrange(at2, r.pos as int) =~= Seq::<bool>::empty());
            }
        };
        assert(r.bits() == b);
        if ok {
            lemma_take_coeffs(b, at2, ccb@, t.3, cr_t);
        }
    }
    let ghost at3 = r.pos as int;
    let ccr = if cfl || num_cr > 0 {
        read_coeffs(r, num_pos_chroma)?
    } else {
        Vec::new()
    };
    proof {
        assert(r.bits().subrange(at3, r.pos as int) =~= coeff_bits(ccr@)) by {
            if ccr@.len() == 0 {
                assert(r.bits().subrange(at3, r.pos as int) =~= Seq::<bool>::empty());
            }
        };
        assert(r.bits() == b);
        if ok {
            lemma_take_coeffs(b, at3, ccr@, t.4, sh_t);
        }
    }
    let ghost at4 = r.pos as int;
    proof {
        let s = r.bits();
        assert(s.subrange(at1, at2) =~= coeff_bits(cy@));
        assert(s.subrange(at2, at3) =~= coeff_bits(ccb@));
        assert(s.subrange(at3, at4) =~= coeff_bits(ccr@));
        assert(s.subrange(start, at4) =~= s.subrange(start, at1) + s.subrange(at1, at2) + s.subrange(
            at2,
            at3,
        ) + s.subrange(at3, at4));
    }
    let shift_minus_6 = take(r, 2, Ghost(start))?;
    proof {
        if ok {
            lemma_take_uint(b, at4, 2, shift_minus_6 as nat, (t.5 - 6) as nat, g_t);
        }
    }
    let ghost at5 = r.pos as int;
    let gss = take(r, 2, Ghost(start))?;
    proof {
        if ok {
            lemma_take_uint(b, at5, 2, gss as nat, t.6 as nat, t.7);
        }
    }
    Ok(
        (
            (scaling_minus_8 + 8) as u8,
            lag as u8,
            cy,
            ccb,
            ccr,
            (shift_minus_6 + 6) as u8,
            gss as u8,
        ),
    )
}

/// Reads the chroma multipliers and the two closing flags.
fn read_tail_section(r: &mut BitReader, has_cb: bool, has_cr: bool) -> (res: Result<
    (u8, u8, u16, u8, u8, u16, bool, bool),
    ParseError,
>)
    requires
        old(r).wf(),
    ensures
        final(r).wf(),
        final(r).data@ == old(r).data@,
        final(r).pos >= old(r).pos,
        res matches Ok((cbm, cblm, cbo, crm, crlm, cro, overlap, clip)) ==> {
            &&& cbo < 512
            &&& cro < 512
            &&& !has_cb ==> cbm == 0 && cblm == 0 && cbo == 0
            &&& !has_cr ==> crm == 0 && crlm == 0 && cro == 0
            &&& final(r).bits().subrange(old(r).pos as int, final(r).pos as int) == bits_if(
                has_cb,
                uint_bits(cbm as nat, 8) + uint_bits(cblm as nat, 8) + uint_bits(cbo as nat, 9),
            ) + bits_if(
                has_cr,
                uint_bits(crm as nat, 8) + uint_bits(crlm as nat, 8) + uint_bits(cro as nat, 9),
            ) + flag(overlap) + flag(clip)
        },
        final(r).pos <= old(r).pos + 52,
        old(r).remaining() >= 52 ==> res is Ok,
        old(r).remaining() >= 2 + (if has_cb {
            25int
        } else {
            0int
        }) + (if has_cr {
            25int
        } else {
            0int
        }) ==> res is Ok,
{
    let ghost start = r.pos as int;
    proof {
        lemma2_to64();
        assert(r.bits().subrange(start, start) =~= Seq::<bool>::empty());
    }
    let (mut cbm, mut cblm, mut cbo) = (0u64, 0u64, 0u64);
    if has_cb {
        cbm = take(r, 8, Ghost(start))?;
        cblm = take(r, 8, Ghost(start))?;
        cbo = take(r, 9, Ghost(start))?;
    }
    let ghost at1 = r.pos as int;
    proof {
        assert(r.bits().subrange(start, at1) =~= bits_if(
            has_cb,
            uint_bits(cbm as nat, 8) + uint_bits(cblm as nat, 8) + uint_bits(cbo as nat, 9),
        ));
    }
    let (mut crm, mut crlm, mut cro) = (0u64, 0u64, 0u64);
    if has_cr {
        crm = take(r, 8, Ghost(at1))?;
        crlm = take(r, 8, Ghost(at1))?;
        cro = take(r, 9, Ghost(at1))?;
    }
    let ghost at2 = r.pos as int;
    proof {
        let s = r.bits();
        assert(s.subrange(at1, at1) =~= Seq::<bool>::empty());
        assert(s.subrange(at1, at2) =~= bits_if(
            has_cr,
            uint_bits(crm as nat, 8) + uint_bits(crlm as nat, 8) + uint_bits(cro as nat, 9),
        ));
        assert(s.subrange(start, at2) =~= s.subrange(start, at1) + s.subrange(at1, at2));
    }
    let overlap = take_flag(r, Ghost(start))?;
    let clip = take_flag(r, Ghost(start))?;
    Ok(
        (
            cbm as u8,
            cblm as u8,
            cbo as u16,
            crm as u8,
            crlm as u8,
            cro as u16,
            overlap,
            clip,
        ),
    )
}

/// Appends the code of a list of scaling points.
fn write_points(out: &mut Vec<bool>, pts: &Vec<(u8, u8)>)
    ensures
        final(out)@ == old(out)@ + points_bits(pts@),
{
    let ghost start = out@;
    let mut i: usize = 0;
    proof {
        assert(pts@.subrange(0, 0) =~= Seq::<(u8, u8)>::empty());
        assert(start + points_bits(Seq::<(u8, u8)>::empty()) =~= start);
    }
    while i < pts.len()
        invariant
            i <= pts@.len(),
            out@ == start + points_bits(pts@.subrange(0, i as int)),
        decreases pts@.len() - i,
    {
        let (value, scaling) = pts[i];
        put_bits(out, value as u64, 8);
        put_bits(out, scaling as u64, 8);
        proof {
            let next = pts@.subrange(0, i + 1);
            assert(next.drop_last() =~= pts@.subrange(0, i as int));
            assert(out@ =~= start + points_bits(next));
        }
        i = i + 1;
    }
    assert(pts@.subrange(0, pts@.len() as int) =~= pts@);
}

/// Appends the code of a list of auto-regression coefficients.
fn write_coeffs(out: &mut Vec<bool>, cs: &Vec<i8>)
    ensures
        final(out)@ == old(out)@ + coeff_bits(cs@),
{
    let ghost start = out@;
    let mut i: usize = 0;
    proof {
        assert(cs@.subrange(0, 0) =~= Seq::<i8>::empty());
        assert(start + coeff_bits(Seq::<i8>::empty()) =~= start);
    }
    while i < cs.len()
        invariant
            i <= cs@.len(),
            out@ == start + coeff_bits(cs@.subrange(0, i as int)),
        decreases cs@.len() - i,
    {
        let c = cs[i];
        put_bits(out, (c as i16 + 128) as u64, 8);
        proof {
            let next = cs@.subrange(0, i + 1);
            assert(next.drop_last() =~= cs@.subrange(0, i as int));
            assert(out@ =~= start + coeff_bits(next));
        }
        i = i + 1;
    }
    assert(cs@.subrange(0, cs@.len() as int) =~= cs@);
}

/// Appends the code of a grain block for the given context: the inverse of
/// `film_grain_params`.
pub fn write_film_grain_params(out: &mut Vec<bool>, h: &FilmGrainHeader, c: GrainContext)
    requires
        header_wf(*h, c),
    ensures
        final(out)@ == old(out)@ + grain_header_bits(*h, c),
{
    let ghost start = out@;
    if !c.film_grain_params_present || (!c.show_frame && !c.showable_frame) {
        assert(start + Seq::<bool>::empty() =~= start);
        return;
    }
    match h {
        FilmGrainHeader::Disable => {
            out.push(false);
            assert(out@ =~= start + flag(false));
        },
        FilmGrainHeader::CopyRefFrame { ref_idx, grain_seed } => {
            out.push(true);
            put_bits(out, *grain_seed as u64, 16);
            out.push(false);
            put_bits(out, *ref_idx as u64, 3);
            assert(out@ =~= start + grain_header_bits(*h, c));
        },
        FilmGrainHeader::UpdateGrain(p) => {
            out.push(true);
            put_bits(out, p.grain_seed as u64, 16);
            if c.frame_type == FrameType::Inter {
                out.push(true);
            }
            let ghost a = out@;
            assert(a =~= start + (flag(true) + uint_bits(p.grain_seed as nat, 16) + bits_if(
                c.frame_type == FrameType::Inter,
                flag(true),
            )));
            write_scaling_section(out, p, c);
            write_ar_section(out, p);
            write_tail_section(out, p);
            proof {
                assert(out@ =~= start + grain_header_bits(*h, c));
            }
        },
    }
}

fn write_scaling_section(out: &mut Vec<bool>, p: &FilmGrainParams, c: GrainContext)
    requires
        params_wf(*p, c),
    ensures
        final(out)@ == old(out)@ + scaling_section_bits(*p, c),
{
    let ghost a = out@;
    put_bits(out, p.scaling_points_y.len() as u64, 4);
    write_points(out, &p.scaling_points_y);
    if !c.mono_chrome {
        out.push(p.chroma_scaling_from_luma);
    }
    let coded = !(c.mono_chrome || p.chroma_scaling_from_luma || (c.subsampling_x
        && c.subsampling_y && p.scaling_points_y.len() == 0));
    let ghost b = out@;
    if coded {
        put_bits(out, p.scaling_points_cb.len() as u64, 4);
        write_points(out, &p.scaling_points_cb);
        put_bits(out, p.scaling_points_cr.len() as u64, 4);
        write_points(out, &p.scaling_points_cr);
    }
    proof {
        assert(b =~= a + (uint_bits(p.scaling_points_y@.len(), 4) + points_bits(
            p.scaling_points_y@,
        ) + bits_if(!c.mono_chrome, flag(p.chroma_scaling_from_luma))));
        assert(out@ =~= a + scaling_section_bits(*p, c));
    }
}

fn write_ar_section(out: &mut Vec<bool>, p: &FilmGrainParams)
    requires
        8 <= p.scaling_shift,
        6 <= p.ar_coeff_shift,
    ensures
        final(out)@ == old(out)@ + ar_section_bits(*p),
{
    let ghost d = out@;
    put_bits(out, (p.scaling_shift - 8) as u64, 2);
    put_bits(out, p.ar_coeff_lag as u64, 2);
    write_coeffs(out, &p.ar_coeffs_y);
    write_coeffs(out, &p.ar_coeffs_cb);
    write_coeffs(out, &p.ar_coeffs_cr);
    put_bits(out, (p.ar_coeff_shift - 6) as u64, 2);
    put_bits(out, p.grain_scale_shift as u64, 2);
    assert(out@ =~= d + ar_section_bits(*p));
}

fn write_tail_section(out: &mut Vec<bool>, p: &FilmGrainParams)
    ensures
        final(out)@ == old(out)@ + tail_section_bits(*p),
{
    let ghost e = out@;
    if p.scaling_points_cb.len() > 0 {
        put_bits(out, p.cb_mult as u64, 8);
        put_bits(out, p.cb_luma_mult as u64, 8);
        put_bits(out, p.cb_offset as u64, 9);
    }
    let ghost f = out@;
    if p.scaling_points_cr.len() > 0 {
        put_bits(out, p.cr_mult as u64, 8);
        put_bits(out, p.cr_luma_mult as u64, 8);
        put_bits(out, p.cr_offset as u64, 9);
    }
    let ghost g = out@;
    out.push(p.overlap_flag);
    out.push(p.clip_to_restricted_range);
    proof {
        assert(f =~= e + bits_if(
            p.scaling_points_cb@.len() > 0,
            uint_bits(p.cb_mult as nat, 8) + uint_bits(p.cb_luma_mult as nat, 8) + uint_bits(
                p.cb_offset as nat,
                9,
            ),
        ));
        assert(g =~= f + bits_if(
            p.scaling_points_cr@.len() > 0,
            uint_bits(p.cr_mult as nat, 8) + uint_bits(p.cr_luma_mult as nat, 8) + uint_bits(
                p.cr_offset as nat,
                9,
            ),
        ));
        assert(out@ =~= e + tail_section_bits(*p));
    }
}

/// The first `n` entries of `v`, padded with zero coefficients.
fn resized_coeffs(v: &Vec<i8>, n: usize) -> (r: Vec<i8>)
    ensures
        r@.len() == n,
        v@.len() == n ==> r@ == v@,
{
    let mut r: Vec<i8> = Vec::new();
    let mut i: usize = 0;
    while i < n
        invariant
            i <= n,
            r@.len() == i,
            v@.len() == n ==> r@ == v@.subrange(0, i as int),
        decreases n - i,
    {
        if i < v.len() {
            r.push(v[i]);
        } else {
            r.push(0);
        }
        i = i + 1;
        proof {
            if v@.len() == n {
                assert(r@ =~= v@.subrange(0, i as int));
            }
        }
    }
    proof {
        if v@.len() == n {
            assert(r@ =~= v@);
        }
    }
    r
}

/// The first `n` points of `v` (all of them when there are fewer).
fn first_points(v: &Vec<(u8, u8)>, n: usize) -> (r: Vec<(u8, u8)>)
    ensures
        r@.len() <= n,
        v@.len() <= n ==> r@ == v@,
        r@.len() == 0 <==> (v@.len() == 0 || n == 0),
{
    let mut r: Vec<(u8, u8)> = Vec::new();
    let mut i: usize = 0;
    while i < n && i < v.len()
        invariant
            i <= n,
            i <= v@.len(),
            r@ == v@.subrange(0, i as int),
        decreases n - i,
    {
        r.push(v[i]);
        i = i + 1;
        assert(r@ =~= v@.subrange(0, i as int));
    }
    proof {
        if v@.len() <= n {
            assert(r@ =~= v@);
        }
    }
    r
}

/// Fits parameters to the syntax of a frame: keeps what the frame can carry
/// and brings every field into its range, so the result can be written.
pub fn fit_params(p: &FilmGrainParams, c: GrainContext) -> (r: FilmGrainParams)
    ensures
        params_wf(r, c),
        r.grain_seed == p.grain_seed,
        params_wf(*p, c) ==> r@ == p@,
{
    let y = first_points(&p.scaling_points_y, GS_NUM_Y_POINTS);
    let cfl = !c.mono_chrome && p.chroma_scaling_from_luma;
    let coded = !(c.mono_chrome || cfl || (c.subsampling_x && c.subsampling_y && y.len() == 0));
    let cb = if coded {
        first_points(&p.scaling_points_cb, GS_NUM_UV_POINTS)
    } else {
        Vec::new()
    };
    let cr = if coded {
        first_points(&p.scaling_points_cr, GS_NUM_UV_POINTS)
    } else {
        Vec::new()
    };
    let scaling_shift = if p.scaling_shift < 8 {
        8
    } else if p.scaling_shift > 11 {
        11
    } else {
        p.scaling_shift
    };
    let lag: u8 = if p.ar_coeff_lag > 3 {
        3
    } else {
        p.ar_coeff_lag
    };
    assert(2 * lag * (lag + 1) <= 24) by (nonlinear_arith)
        requires
            lag <= 3,
    ;
    let npl: usize = 2 * (lag as usize) * (lag as usize + 1);
    let npc: usize = if y.len() > 0 {
        npl + 1
    } else {
        npl
    };
    let cy = resized_coeffs(
        &p.ar_coeffs_y,
        if y.len() > 0 {
            npl
        } else {
            0
        },
    );
    let ccb = resized_coeffs(
        &p.ar_coeffs_cb,
        if cfl || cb.len() > 0 {
            npc
        } else {
            0
        },
    );
    let ccr = resized_coeffs(
        &p.ar_coeffs_cr,
        if cfl || cr.len() > 0 {
            npc
        } else {
            0
        },
    );
    let ar_coeff_shift = if p.ar_coeff_shift < 6 {
        6
    } else if p.ar_coeff_shift > 9 {
        9
    } else {
        p.ar_coeff_shift
    };
    let has_cb = cb.len() > 0;
    let has_cr = cr.len() > 0;
    proof {
        if params_wf(*p, c) {
            assert(cb@ =~= p.scaling_points_cb@);
            assert(cr@ =~= p.scaling_points_cr@);
        }
    }
    FilmGrainParams {
        grain_seed: p.grain_seed,
        scaling_points_y: y,
        scaling_points_cb: cb,
        scaling_points_cr: cr,
        scaling_shift,
        ar_coeff_lag: lag,
        ar_coeffs_y: cy,
        ar_coeffs_cb: ccb,
        ar_coeffs_cr: ccr,
        ar_coeff_shift,
        cb_mult: if has_cb {
            p.cb_mult
        } else {
            0
        },
        cb_luma_mult: if has_cb {
            p.cb_luma_mult
        } else {
            0
        },
        cb_offset: if !has_cb {
            0
        } else if p.cb_offset > 511 {
            511
        } else {
            p.cb_offset
        },
        cr_mult: if has_cr {
            p.cr_mult
        } else {
            0
        },
        cr_luma_mult: if has_cr {
            p.cr_luma_mult
        } else {
            0
        },
        cr_offset: if !has_cr {
            0
        } else if p.cr_offset > 511 {
            511
        } else {
            p.cr_offset
        },
        chroma_scaling_from_luma: cfl,
        grain_scale_shift: if p.grain_scale_shift > 3 {
            3
        } else {
            p.grain_scale_shift
        },
        overlap_flag: p.overlap_flag,
        clip_to_restricted_range: p.clip_to_restricted_range,
    }
}

proof fn lemma_points_bits_len(pts: Seq<(u8, u8)>)
    ensures
        points_bits(pts).len() == 16 * pts.len(),
    decreases pts.len(),
{
    if pts.len() > 0 {
        lemma_points_bits_len(pts.drop_last());
        crate::bits::lemma_uint_bits_len(pts.last().0 as nat, 8);
        crate::bits::lemma_uint_bits_len(pts.last().1 as nat, 8);
    }
}

proof fn lemma_coeff_bits_len(cs: Seq<i8>)
    ensures
        coeff_bits(cs).len() == 8 * cs.len(),
    decreases cs.len(),
{
    if cs.len() > 0 {
        lemma_coeff_bits_len(cs.drop_last());
        crate::bits::lemma_uint_bits_len((cs.last() + 128) as nat, 8);
    }
}

/// A grain block that suits its context is under 4096 bits long.
pub proof fn lemma_grain_bits_len(h: FilmGrainHeader, c: GrainContext)
    requires
        header_wf(h, c),
    ensures
        grain_header_bits(h, c).len() <= 0x1000,
{
    crate::bits::lemma_uint_bits_len(0, 0);
    match h {
        FilmGrainHeader::Disable => {},
        FilmGrainHeader::CopyRefFrame { ref_idx, grain_seed } => {
            crate::bits::lemma_uint_bits_len(grain_seed as nat, 16);
            crate::bits::lemma_uint_bits_len(ref_idx as nat, 3);
        },
        FilmGrainHeader::UpdateGrain(p) => {
            crate::bits::lemma_uint_bits_len(p.grain_seed as nat, 16);
            crate::bits::lemma_uint_bits_len(p.scaling_points_y@.len(), 4);
            crate::bits::lemma_uint_bits_len(p.scaling_points_cb@.len(), 4);
            crate::bits::lemma_uint_bits_len(p.scaling_points_cr@.len(), 4);
            crate::bits::lemma_uint_bits_len((p.scaling_shift - 8) as nat, 2);
            crate::bits::lemma_uint_bits_len(p.ar_coeff_lag as nat, 2);
            crate::bits::lemma_uint_bits_len((p.ar_coeff_shift - 6) as nat, 2);
            crate::bits::lemma_uint_bits_len(p.grain_scale_shift as nat, 2);
            crate::bits::lemma_uint_bits_len(p.cb_mult as nat, 8);
            crate::bits::lemma_uint_bits_len(p.cb_luma_mult as nat, 8);
            crate::bits::lemma_uint_bits_len(p.cb_offset as nat, 9);
            crate::bits::lemma_uint_bits_len(p.cr_mult as nat, 8);
            crate::bits::lemma_uint_bits_len(p.cr_luma_mult as nat, 8);
            crate::bits::lemma_uint_bits_len(p.cr_offset as nat, 9);
            lemma_points_bits_len(p.scaling_points_y@);
            lemma_points_bits_len(p.scaling_points_cb@);
            lemma_points_bits_len(p.scaling_points_cr@);
            lemma_coeff_bits_len(p.ar_coeffs_y@);
            lemma_coeff_bits_len(p.ar_coeffs_cb@);
            lemma_coeff_bits_len(p.ar_coeffs_cr@);
            assert(num_pos_luma(p.ar_coeff_lag as nat) <= 24) by (nonlinear_arith)
                requires
                    p.ar_coeff_lag <= 3,
            ;
        },
    }
}

/// A concatenation splits back into its parts when the first parts have
/// equal lengths.
proof fn lemma_split<A>(a: Seq<A>, b: Seq<A>, c: Seq<A>, d: Seq<A>)
    requires
        a + b == c + d,
        a.len() == c.len(),
    ensures
        a == c,
        b == d,
{
    assert(a =~= (a + b).subrange(0, a.len() as int));
    assert(c =~= (c + d).subrange(0, c.len() as int));
    assert(b =~= (a + b).subrange(a.len() as int, (a + b).len() as int));
    assert(d =~= (c + d).subrange(c.len() as int, (c + d).len() as int));
}

/// Equal codes of the same width are codes of the same value.
proof fn lemma_uint_bits_injective(v1: nat, v2: nat, n: nat)
    requires
        v1 < pow2(n),
        v2 < pow2(n),
        uint_bits(v1, n) == uint_bits(v2, n),
    ensures
        v1 == v2,
{
    crate::bits::lemma_uint_bits_value(v1, n);
    crate::bits::lemma_uint_bits_value(v2, n);
}

proof fn lemma_points_bits_injective(a: Seq<(u8, u8)>, b: Seq<(u8, u8)>)
    requires
        a.len() == b.len(),
        points_bits(a) == points_bits(b),
    ensures
        a == b,
    decreases a.len(),
{
    if a.len() > 0 {
        lemma_points_bits_len(a.drop_last());
        lemma_points_bits_len(b.drop_last());
        crate::bits::lemma_uint_bits_len(a.last().0 as nat, 8);
        crate::bits::lemma_uint_bits_len(a.last().1 as nat, 8);
        crate::bits::lemma_uint_bits_len(b.last().0 as nat, 8);
        crate::bits::lemma_uint_bits_len(b.last().1 as nat, 8);
        let pa = points_bits(a.drop_last()) + uint_bits(a.last().0 as nat, 8);
        let pb = points_bits(b.drop_last()) + uint_bits(b.last().0 as nat, 8);
        lemma_split(pa, uint_bits(a.last().1 as nat, 8), pb, uint_bits(b.last().1 as nat, 8));
        lemma_split(
            points_bits(a.drop_last()),
            uint_bits(a.last().0 as nat, 8),
            points_bits(b.drop_last()),
            uint_bits(b.last().0 as nat, 8),
        );
        lemma_small_pow2();
        lemma_uint_bits_injective(a.last().0 as nat, b.last().0 as nat, 8);
        lemma_uint_bits_injective(a.last().1 as nat, b.last().1 as nat, 8);
        lemma_points_bits_injective(a.drop_last(), b.drop_last());
        assert(a =~= a.drop_last().push(a.last()));
        assert(b =~= b.drop_last().push(b.last()));
    }
}

proof fn lemma_coeff_bits_injective(a: Seq<i8>, b: Seq<i8>)
    requires
        a.len() == b.len(),
        coeff_bits(a) == coeff_bits(b),
    ensures
        a == b,
    decreases a.len(),
{
    if a.len() > 0 {
        lemma_coeff_bits_len(a.drop_last());
        lemma_coeff_bits_len(b.drop_last());
        crate::bits::lemma_uint_bits_len((a.last() + 128) as nat, 8);
        crate::bits::lemma_uint_bits_len((b.last() + 128) as nat, 8);
        lemma_split(
            coeff_bits(a.drop_last()),
            uint_bits((a.last() + 128) as nat, 8),
            coeff_bits(b.drop_last()),
            uint_bits((b.last() + 128) as nat, 8),
        );
        lemma_small_pow2();
        lemma_uint_bits_injective((a.last() + 128) as nat, (b.last() + 128) as nat, 8);
        lemma_coeff_bits_injective(a.drop_last(), b.drop_last());
        assert(a =~= a.drop_last().push(a.last()));
        assert(b =~= b.drop_last().push(b.last()));
    }
}

proof fn lemma_assoc4<A>(a: Seq<A>, b: Seq<A>, c: Seq<A>, d: Seq<A>)
    ensures
        ((a + b) + c) + d == a + (b + (c + d)),
{
    assert(((a + b) + c) + d =~= a + (b + (c + d)));
}

proof fn lemma_assoc5<A>(a: Seq<A>, b: Seq<A>, c: Seq<A>, d: Seq<A>, e: Seq<A>)
    ensures
        (((a + b) + c) + d) + e == a + (b + (c + (d + e))),
{
    assert((((a + b) + c) + d) + e =~= a + (b + (c + (d + e))));
}

proof fn lemma_assoc6<A>(a: Seq<A>, b: Seq<A>, c: Seq<A>, d: Seq<A>, e: Seq<A>, f: Seq<A>)
    ensures
        ((((a + b) + c) + d) + e) + f == a + (b + (c + (d + (e + f)))),
{
    assert(((((a + b) + c) + d) + e) + f =~= a + (b + (c + (d + (e + f)))));
}

proof fn lemma_assoc8<A>(
    a: Seq<A>,
    b: Seq<A>,
    c: Seq<A>,
    d: Seq<A>,
    e: Seq<A>,
    f: Seq<A>,
    g: Seq<A>,
    h: Seq<A>,
)
    ensures
        ((((((a + b) + c) + d) + e) + f) + g) + h == a + (b + (c + (d + (e + (f + (g + h)))))),
{
    assert(((((((a + b) + c) + d) + e) + f) + g) + h =~= a + (b + (c + (d + (e + (f + (g
        + h)))))));
}

proof fn lemma_peel_uint(n: nat, v1: nat, v2: nat, r1: Seq<bool>, r2: Seq<bool>)
    requires
        v1 < pow2(n),
        v2 < pow2(n),
        uint_bits(v1, n) + r1 == uint_bits(v2, n) + r2,
    ensures
        v1 == v2,
        r1 == r2,
{
    crate::bits::lemma_uint_bits_len(v1, n);
    crate::bits::lemma_uint_bits_len(v2, n);
    lemma_split(uint_bits(v1, n), r1, uint_bits(v2, n), r2);
    lemma_uint_bits_injective(v1, v2, n);
}

proof fn lemma_peel_flag(b1: bool, b2: bool, r1: Seq<bool>, r2: Seq<bool>)
    requires
        flag(b1) + r1 == flag(b2) + r2,
    ensures
        b1 == b2,
        r1 == r2,
{
    lemma_split(flag(b1), r1, flag(b2), r2);
    assert(flag(b1)[0] == flag(b2)[0]);
}

proof fn lemma_peel_points(a: Seq<(u8, u8)>, b: Seq<(u8, u8)>, r1: Seq<bool>, r2: Seq<bool>)
    requires
        a.len() == b.len(),
        points_bits(a) + r1 == points_bits(b) + r2,
    ensures
        a == b,
        r1 == r2,
{
    lemma_points_bits_len(a);
    lemma_points_bits_len(b);
    lemma_split(points_bits(a), r1, points_bits(b), r2);
    lemma_points_bits_injective(a, b);
}

proof fn lemma_peel_coeffs(a: Seq<i8>, b: Seq<i8>, r1: Seq<bool>, r2: Seq<bool>)
    requires
        a.len() == b.len(),
        coeff_bits(a) + r1 == coeff_bits(b) + r2,
    ensures
        a == b,
        r1 == r2,
{
    lemma_coeff_bits_len(a);
    lemma_coeff_bits_len(b);
    lemma_split(coeff_bits(a), r1, coeff_bits(b), r2);
    lemma_coeff_bits_injective(a, b);
}

/// The code of one chroma plane's multipliers.
pub open spec fn chroma_block(m: u8, lm: u8, o: u16) -> Seq<bool> {
    uint_bits(m as nat, 8) + uint_bits(lm as nat, 8) + uint_bits(o as nat, 9)
}

proof fn lemma_peel_chroma(
    has: bool,
    m1: u8,
    l1: u8,
    o1: u16,
    m2: u8,
    l2: u8,
    o2: u16,
    r1: Seq<bool>,
    r2: Seq<bool>,
)
    requires
        o1 < 512,
        o2 < 512,
        bits_if(has, chroma_block(m1, l1, o1)) + r1 == bits_if(has, chroma_block(m2, l2, o2)) + r2,
    ensures
        has ==> m1 == m2 && l1 == l2 && o1 == o2,
        r1 == r2,
{
    lemma_small_pow2();
    if has {
        let t1 = uint_bits(l1 as nat, 8) + (uint_bits(o1 as nat, 9) + r1);
        let t2 = uint_bits(l2 as nat, 8) + (uint_bits(o2 as nat, 9) + r2);
        lemma_assoc4(uint_bits(m1 as nat, 8), uint_bits(l1 as nat, 8), uint_bits(o1 as nat, 9), r1);
        lemma_assoc4(uint_bits(m2 as nat, 8), uint_bits(l2 as nat, 8), uint_bits(o2 as nat, 9), r2);
        lemma_peel_uint(8, m1 as nat, m2 as nat, t1, t2);
        lemma_peel_uint(8, l1 as nat, l2 as nat, uint_bits(o1 as nat, 9) + r1, uint_bits(o2 as nat, 9) + r2);
        lemma_peel_uint(9, o1 as nat, o2 as nat, r1, r2);
    } else {
        assert(bits_if(has, chroma_block(m1, l1, o1)) + r1 =~= r1);
        assert(bits_if(has, chroma_block(m2, l2, o2)) + r2 =~= r2);
    }
}

/// The chroma multipliers and closing flags decode uniquely, whatever
/// bits follow them.
proof fn lemma_tail_injective(lhs: FilmGrainParams, rhs: FilmGrainParams, r1: Seq<bool>, r2: Seq<bool>)
    requires
        lhs.cb_offset < 512,
        rhs.cb_offset < 512,
        lhs.cr_offset < 512,
        rhs.cr_offset < 512,
        lhs.scaling_points_cb@.len() == rhs.scaling_points_cb@.len(),
        lhs.scaling_points_cr@.len() == rhs.scaling_points_cr@.len(),
        tail_section_bits(lhs) + r1 == tail_section_bits(rhs) + r2,
    ensures
        lhs.scaling_points_cb@.len() > 0 ==> lhs.cb_mult == rhs.cb_mult && lhs.cb_luma_mult
            == rhs.cb_luma_mult && lhs.cb_offset == rhs.cb_offset,
        lhs.scaling_points_cr@.len() > 0 ==> lhs.cr_mult == rhs.cr_mult && lhs.cr_luma_mult
            == rhs.cr_luma_mult && lhs.cr_offset == rhs.cr_offset,
        lhs.overlap_flag == rhs.overlap_flag,
        lhs.clip_to_restricted_range == rhs.clip_to_restricted_range,
        r1 == r2,
{
    let has_cb = lhs.scaling_points_cb@.len() > 0;
    let has_cr = lhs.scaling_points_cr@.len() > 0;
    let cr1 = bits_if(has_cr, chroma_block(lhs.cr_mult, lhs.cr_luma_mult, lhs.cr_offset));
    let cr2 = bits_if(has_cr, chroma_block(rhs.cr_mult, rhs.cr_luma_mult, rhs.cr_offset));
    let cb1 = bits_if(has_cb, chroma_block(lhs.cb_mult, lhs.cb_luma_mult, lhs.cb_offset));
    let cb2 = bits_if(has_cb, chroma_block(rhs.cb_mult, rhs.cb_luma_mult, rhs.cb_offset));
    let e1 = flag(lhs.overlap_flag) + (flag(lhs.clip_to_restricted_range) + r1);
    let e2 = flag(rhs.overlap_flag) + (flag(rhs.clip_to_restricted_range) + r2);
    lemma_assoc5(cb1, cr1, flag(lhs.overlap_flag), flag(lhs.clip_to_restricted_range), r1);
    lemma_assoc5(cb2, cr2, flag(rhs.overlap_flag), flag(rhs.clip_to_restricted_range), r2);
    lemma_peel_chroma(
        has_cb,
        lhs.cb_mult,
        lhs.cb_luma_mult,
        lhs.cb_offset,
        rhs.cb_mult,
        rhs.cb_luma_mult,
        rhs.cb_offset,
        cr1 + e1,
        cr2 + e2,
    );
    lemma_peel_chroma(
        has_cr,
        lhs.cr_mult,
        lhs.cr_luma_mult,
        lhs.cr_offset,
        rhs.cr_mult,
        rhs.cr_luma_mult,
        rhs.cr_offset,
        e1,
        e2,
    );
    lemma_peel_flag(
        lhs.overlap_flag,
        rhs.overlap_flag,
        flag(lhs.clip_to_restricted_range) + r1,
        flag(rhs.clip_to_restricted_range) + r2,
    );
    lemma_peel_flag(lhs.clip_to_restricted_range, rhs.clip_to_restricted_range, r1, r2);
}

proof fn lemma_small_pow2()
    ensures
        pow2(2) == 4,
        pow2(3) == 8,
        pow2(4) == 16,
        pow2(8) == 256,
        pow2(9) == 512,
        pow2(16) == 65536,
{
    lemma2_to64();
}

#[verifier::rlimit(80)]
proof fn lemma_ar_injective(lhs: FilmGrainParams, rhs: FilmGrainParams, t1: Seq<bool>, t2: Seq<bool>)
    requires
        8 <= lhs.scaling_shift <= 11,
        8 <= rhs.scaling_shift <= 11,
        lhs.ar_coeff_lag <= 3,
        rhs.ar_coeff_lag <= 3,
        6 <= lhs.ar_coeff_shift <= 9,
        6 <= rhs.ar_coeff_shift <= 9,
        lhs.grain_scale_shift <= 3,
        rhs.grain_scale_shift <= 3,
        lhs.ar_coeff_lag == rhs.ar_coeff_lag ==> lhs.ar_coeffs_y@.len() == rhs.ar_coeffs_y@.len()
            && lhs.ar_coeffs_cb@.len() == rhs.ar_coeffs_cb@.len() && lhs.ar_coeffs_cr@.len()
            == rhs.ar_coeffs_cr@.len(),
        ar_section_bits(lhs) + t1 == ar_section_bits(rhs) + t2,
    ensures
        lhs.scaling_shift == rhs.scaling_shift,
        lhs.ar_coeff_lag == rhs.ar_coeff_lag,
        lhs.ar_coeffs_y@ == rhs.ar_coeffs_y@,
        lhs.ar_coeffs_cb@ == rhs.ar_coeffs_cb@,
        lhs.ar_coeffs_cr@ == rhs.ar_coeffs_cr@,
        lhs.ar_coeff_shift == rhs.ar_coeff_shift,
        lhs.grain_scale_shift == rhs.grain_scale_shift,
        t1 == t2,
{
    lemma_small_pow2();
    let g1 = uint_bits(lhs.grain_scale_shift as nat, 2) + t1;
    let g2 = uint_bits(rhs.grain_scale_shift as nat, 2) + t2;
    let s1 = uint_bits((lhs.ar_coeff_shift - 6) as nat, 2) + g1;
    let s2 = uint_bits((rhs.ar_coeff_shift - 6) as nat, 2) + g2;
    let cr1 = coeff_bits(lhs.ar_coeffs_cr@) + s1;
    let cr2 = coeff_bits(rhs.ar_coeffs_cr@) + s2;
    let cb1 = coeff_bits(lhs.ar_coeffs_cb@) + cr1;
    let cb2 = coeff_bits(rhs.ar_coeffs_cb@) + cr2;
    let y1 = coeff_bits(lhs.ar_coeffs_y@) + cb1;
    let y2 = coeff_bits(rhs.ar_coeffs_y@) + cb2;
    let l1 = uint_bits(lhs.ar_coeff_lag as nat, 2) + y1;
    let l2 = uint_bits(rhs.ar_coeff_lag as nat, 2) + y2;
    lemma_assoc8(
        uint_bits((lhs.scaling_shift - 8) as nat, 2),
        uint_bits(lhs.ar_coeff_lag as nat, 2),
        coeff_bits(lhs.ar_coeffs_y@),
        coeff_bits(lhs.ar_coeffs_cb@),
        coeff_bits(lhs.ar_coeffs_cr@),
        uint_bits((lhs.ar_coeff_shift - 6) as nat, 2),
        uint_bits(lhs.grain_scale_shift as nat, 2),
        t1,
    );
    lemma_assoc8(
        uint_bits((rhs.scaling_shift - 8) as nat, 2),
        uint_bits(rhs.ar_coeff_lag as nat, 2),
        coeff_bits(rhs.ar_coeffs_y@),
        coeff_bits(rhs.ar_coeffs_cb@),
        coeff_bits(rhs.ar_coeffs_cr@),
        uint_bits((rhs.ar_coeff_shift - 6) as nat, 2),
        uint_bits(rhs.grain_scale_shift as nat, 2),
        t2,
    );
    lemma_peel_uint(2, (lhs.scaling_shift - 8) as nat, (rhs.scaling_shift - 8) as nat, l1, l2);
    lemma_peel_uint(2, lhs.ar_coeff_lag as nat, rhs.ar_coeff_lag as nat, y1, y2);
    lemma_peel_coeffs(lhs.ar_coeffs_y@, rhs.ar_coeffs_y@, cb1, cb2);
    lemma_peel_coeffs(lhs.ar_coeffs_cb@, rhs.ar_coeffs_cb@, cr1, cr2);
    lemma_peel_coeffs(lhs.ar_coeffs_cr@, rhs.ar_coeffs_cr@, s1, s2);
    lemma_peel_uint(2, (lhs.ar_coeff_shift - 6) as nat, (rhs.ar_coeff_shift - 6) as nat, g1, g2);
    lemma_peel_uint(2, lhs.grain_scale_shift as nat, rhs.grain_scale_shift as nat, t1, t2);
}

#[verifier::rlimit(80)]
proof fn lemma_scaling_injective(
    lhs: FilmGrainParams,
    rhs: FilmGrainParams,
    c: GrainContext,
    r1: Seq<bool>,
    r2: Seq<bool>,
)
    requires
        params_wf(lhs, c),
        params_wf(rhs, c),
        scaling_section_bits(lhs, c) + r1 == scaling_section_bits(rhs, c) + r2,
    ensures
        lhs.scaling_points_y@ == rhs.scaling_points_y@,
        lhs.scaling_points_cb@ == rhs.scaling_points_cb@,
        lhs.scaling_points_cr@ == rhs.scaling_points_cr@,
        lhs.chroma_scaling_from_luma == rhs.chroma_scaling_from_luma,
        r1 == r2,
{
    lemma_small_pow2();
    let y1 = lhs.scaling_points_y@;
    let y2 = rhs.scaling_points_y@;
    let coded1 = chroma_coded(y1.len(), lhs.chroma_scaling_from_luma, c);
    let coded2 = chroma_coded(y2.len(), rhs.chroma_scaling_from_luma, c);
    let ch1 = uint_bits(lhs.scaling_points_cb@.len(), 4) + points_bits(lhs.scaling_points_cb@)
        + uint_bits(lhs.scaling_points_cr@.len(), 4) + points_bits(lhs.scaling_points_cr@);
    let ch2 = uint_bits(rhs.scaling_points_cb@.len(), 4) + points_bits(rhs.scaling_points_cb@)
        + uint_bits(rhs.scaling_points_cr@.len(), 4) + points_bits(rhs.scaling_points_cr@);
    let k1 = bits_if(coded1, ch1) + r1;
    let k2 = bits_if(coded2, ch2) + r2;
    let f1 = bits_if(!c.mono_chrome, flag(lhs.chroma_scaling_from_luma)) + k1;
    let f2 = bits_if(!c.mono_chrome, flag(rhs.chroma_scaling_from_luma)) + k2;
    lemma_assoc5(
        uint_bits(y1.len(), 4),
        points_bits(y1),
        bits_if(!c.mono_chrome, flag(lhs.chroma_scaling_from_luma)),
        bits_if(coded1, ch1),
        r1,
    );
    lemma_assoc5(
        uint_bits(y2.len(), 4),
        points_bits(y2),
        bits_if(!c.mono_chrome, flag(rhs.chroma_scaling_from_luma)),
        bits_if(coded2, ch2),
        r2,
    );
    lemma_peel_uint(4, y1.len(), y2.len(), points_bits(y1) + f1, points_bits(y2) + f2);
    lemma_peel_points(y1, y2, f1, f2);
    if !c.mono_chrome {
        assert(f1 =~= flag(lhs.chroma_scaling_from_luma) + k1);
        assert(f2 =~= flag(rhs.chroma_scaling_from_luma) + k2);
        lemma_peel_flag(lhs.chroma_scaling_from_luma, rhs.chroma_scaling_from_luma, k1, k2);
    } else {
        assert(f1 =~= k1);
        assert(f2 =~= k2);
    }
    if coded1 {
        let cb1 = lhs.scaling_points_cb@;
        let cb2 = rhs.scaling_points_cb@;
        let cr1 = lhs.scaling_points_cr@;
        let cr2 = rhs.scaling_points_cr@;
        let q1 = uint_bits(cr1.len(), 4) + (points_bits(cr1) + r1);
        let q2 = uint_bits(cr2.len(), 4) + (points_bits(cr2) + r2);
        lemma_assoc5(uint_bits(cb1.len(), 4), points_bits(cb1), uint_bits(cr1.len(), 4), points_bits(cr1), r1);
        lemma_assoc5(uint_bits(cb2.len(), 4), points_bits(cb2), uint_bits(cr2.len(), 4), points_bits(cr2), r2);
        lemma_peel_uint(4, cb1.len(), cb2.len(), points_bits(cb1) + q1, points_bits(cb2) + q2);
        lemma_peel_points(cb1, cb2, q1, q2);
        lemma_peel_uint(4, cr1.len(), cr2.len(), points_bits(cr1) + r1, points_bits(cr2) + r2);
        lemma_peel_points(cr1, cr2, r1, r2);
    } else {
        assert(k1 =~= r1);
        assert(k2 =~= r2);
        assert(lhs.scaling_points_cb@ =~= rhs.scaling_points_cb@);
        assert(lhs.scaling_points_cr@ =~= rhs.scaling_points_cr@);
    }
}

/// A grain block decodes uniquely whatever bits follow it: two headers
/// that suit a context and whose codes each start the same bits are the
/// same header with the same code.
#[verifier::rlimit(80)]
pub proof fn lemma_grain_code_prefix(
    h1: FilmGrainHeader,
    h2: FilmGrainHeader,
    c: GrainContext,
    r1: Seq<bool>,
    r2: Seq<bool>,
)
    requires
        header_wf(h1, c),
        header_wf(h2, c),
        grain_header_bits(h1, c) + r1 == grain_header_bits(h2, c) + r2,
    ensures
        h1@ == h2@,
        grain_header_bits(h1, c) == grain_header_bits(h2, c),
        r1 == r2,
{
    lemma_small_pow2();
    if !c.has_block() {
        assert(grain_header_bits(h1, c) =~= grain_header_bits(h2, c));
        lemma_split(grain_header_bits(h1, c), r1, grain_header_bits(h2, c), r2);
        return;
    }
    let b = grain_header_bits(h1, c) + r1;
    match (h1, h2) {
        (FilmGrainHeader::Disable, FilmGrainHeader::Disable) => {
            lemma_split(grain_header_bits(h1, c), r1, grain_header_bits(h2, c), r2);
        },
        (FilmGrainHeader::CopyRefFrame { ref_idx: i1, grain_seed: s1 }, FilmGrainHeader::CopyRefFrame {
            ref_idx: i2,
            grain_seed: s2,
        }) => {
            let q1 = uint_bits(s1 as nat, 16) + (flag(false) + (uint_bits(i1 as nat, 3) + r1));
            let q2 = uint_bits(s2 as nat, 16) + (flag(false) + (uint_bits(i2 as nat, 3) + r2));
            lemma_assoc5(flag(true), uint_bits(s1 as nat, 16), flag(false), uint_bits(i1 as nat, 3), r1);
            lemma_assoc5(flag(true), uint_bits(s2 as nat, 16), flag(false), uint_bits(i2 as nat, 3), r2);
            lemma_peel_flag(true, true, q1, q2);
            lemma_peel_uint(16, s1 as nat, s2 as nat, flag(false) + (uint_bits(i1 as nat, 3) + r1), flag(false) + (uint_bits(i2 as nat, 3) + r2));
            lemma_peel_flag(false, false, uint_bits(i1 as nat, 3) + r1, uint_bits(i2 as nat, 3) + r2);
            lemma_peel_uint(3, i1 as nat, i2 as nat, r1, r2);
        },
        (FilmGrainHeader::Disable, _) => {
            assert(b[0] == false);
            assert((grain_header_bits(h2, c) + r2)[0] == true);
        },
        (_, FilmGrainHeader::Disable) => {
            assert(b[0] == true);
            assert((grain_header_bits(h2, c) + r2)[0] == false);
        },
        (FilmGrainHeader::CopyRefFrame { ref_idx, grain_seed }, FilmGrainHeader::UpdateGrain(p)) => {
            crate::bits::lemma_uint_bits_len(grain_seed as nat, 16);
            crate::bits::lemma_uint_bits_len(p.grain_seed as nat, 16);
            crate::bits::lemma_uint_bits_len(ref_idx as nat, 3);
            assert(b[17] == false);
            assert((grain_header_bits(h2, c) + r2)[17] == true);
        },
        (FilmGrainHeader::UpdateGrain(p), FilmGrainHeader::CopyRefFrame { ref_idx, grain_seed }) => {
            crate::bits::lemma_uint_bits_len(grain_seed as nat, 16);
            crate::bits::lemma_uint_bits_len(p.grain_seed as nat, 16);
            crate::bits::lemma_uint_bits_len(ref_idx as nat, 3);
            assert(b[17] == true);
            assert((grain_header_bits(h2, c) + r2)[17] == false);
        },
        (FilmGrainHeader::UpdateGrain(lhs), FilmGrainHeader::UpdateGrain(rhs)) => {
            let inter = bits_if(c.frame_type == FrameType::Inter, flag(true));
            let t1 = tail_section_bits(lhs) + r1;
            let t2 = tail_section_bits(rhs) + r2;
            let a1 = ar_section_bits(lhs) + t1;
            let a2 = ar_section_bits(rhs) + t2;
            let s1 = scaling_section_bits(lhs, c) + a1;
            let s2 = scaling_section_bits(rhs, c) + a2;
            lemma_assoc_grain(lhs, c, inter, r1);
            lemma_assoc_grain(rhs, c, inter, r2);
            lemma_peel_flag(
                true,
                true,
                uint_bits(lhs.grain_seed as nat, 16) + (inter + s1),
                uint_bits(rhs.grain_seed as nat, 16) + (inter + s2),
            );
            lemma_peel_uint(16, lhs.grain_seed as nat, rhs.grain_seed as nat, inter + s1, inter + s2);
            lemma_split(inter, s1, inter, s2);
            lemma_scaling_injective(lhs, rhs, c, a1, a2);
            assert(lhs.ar_coeff_lag == rhs.ar_coeff_lag ==> lhs.ar_coeffs_y@.len()
                == rhs.ar_coeffs_y@.len() && lhs.ar_coeffs_cb@.len() == rhs.ar_coeffs_cb@.len()
                && lhs.ar_coeffs_cr@.len() == rhs.ar_coeffs_cr@.len());
            lemma_ar_injective(lhs, rhs, t1, t2);
            lemma_tail_injective(lhs, rhs, r1, r2);
            assert(lhs@ == rhs@);
            assert(grain_header_bits(h1, c) =~= grain_header_bits(h2, c));
        },
    }
}

/// Past the apply flag, seed and update flag of a block of new grain come
/// its sections.
proof fn lemma_peel_update_head(
    b: Seq<bool>,
    start: int,
    c: GrainContext,
    pt: FilmGrainParams,
    rest: Seq<bool>,
    seed: nat,
)
    requires
        0 <= start,
        start + 17 <= b.len(),
        b.subrange(start, b.len() as int) == flag(true) + (uint_bits(pt.grain_seed as nat, 16) + (
        bits_if(c.frame_type == FrameType::Inter, flag(true)) + (scaling_section_bits(pt, c) + (
        ar_section_bits(pt) + (tail_section_bits(pt) + rest))))),
        b.subrange(start + 1, start + 17) == uint_bits(seed, 16),
        seed < pow2(16),
    ensures
        b.subrange(
            start + 17 + if c.frame_type == FrameType::Inter {
                1int
            } else {
                0int
            },
            b.len() as int,
        ) == scaling_section_bits(pt, c) + (ar_section_bits(pt) + (tail_section_bits(pt) + rest)),
{
    lemma_small_pow2();
    let q = scaling_section_bits(pt, c) + (ar_section_bits(pt) + (tail_section_bits(pt) + rest));
    let inter = bits_if(c.frame_type == FrameType::Inter, flag(true));
    assert(b.subrange(start, b.len() as int)[0] == b[start]);
    lemma_take_flag(b, start, b[start], true, uint_bits(pt.grain_seed as nat, 16) + (inter + q));
    lemma_take_uint(b, start + 1, 16, seed, pt.grain_seed as nat, inter + q);
    if c.frame_type == FrameType::Inter {
        assert(b.subrange(start + 17, b.len() as int)[0] == b[start + 17]);
        lemma_take_flag(b, start + 17, b[start + 17], true, q);
    } else {
        assert(inter + q =~= q);
    }
}

/// The first bits of a grain block that suits its context: a set first bit
/// unless it disables grain, a clear bit 17 for a copied reference, a set
/// bit 17 for new grain in an inter frame, and the parts of new grain.
proof fn lemma_grain_target_shape(h: FilmGrainHeader, c: GrainContext, rest: Seq<bool>)
    requires
        header_wf(h, c),
        c.has_block(),
    ensures
        grain_header_bits(h, c).len() >= 1,
        (grain_header_bits(h, c) + rest)[0] == !(h is Disable),
        !(h is Disable) ==> grain_header_bits(h, c).len() >= 18,
        h is CopyRefFrame ==> grain_header_bits(h, c).len() == 21 && !(grain_header_bits(h, c)
            + rest)[17],
        h is UpdateGrain && c.frame_type == FrameType::Inter ==> (grain_header_bits(h, c)
            + rest)[17],
        h matches FilmGrainHeader::UpdateGrain(pt) ==> grain_header_bits(h, c) + rest == flag(true)
            + (uint_bits(pt.grain_seed as nat, 16) + (bits_if(
            c.frame_type == FrameType::Inter,
            flag(true),
        ) + (scaling_section_bits(pt, c) + (ar_section_bits(pt) + (tail_section_bits(pt)
            + rest))))),
{
    let inter = bits_if(c.frame_type == FrameType::Inter, flag(true));
    match h {
        FilmGrainHeader::UpdateGrain(pt) => {
            lemma_assoc_grain(pt, c, inter, rest);
            crate::bits::lemma_uint_bits_len(pt.grain_seed as nat, 16);
            lemma_points_bits_len(pt.scaling_points_y@);
            crate::bits::lemma_uint_bits_len(pt.scaling_points_y@.len(), 4);
        },
        FilmGrainHeader::CopyRefFrame { ref_idx, grain_seed } => {
            crate::bits::lemma_uint_bits_len(grain_seed as nat, 16);
            crate::bits::lemma_uint_bits_len(ref_idx as nat, 3);
        },
        FilmGrainHeader::Disable => {},
    }
}

proof fn lemma_assoc_grain(p: FilmGrainParams, c: GrainContext, inter: Seq<bool>, r: Seq<bool>)
    ensures
        flag(true) + uint_bits(p.grain_seed as nat, 16) + inter + scaling_section_bits(p, c)
            + ar_section_bits(p) + tail_section_bits(p) + r == flag(true) + (uint_bits(
            p.grain_seed as nat,
            16,
        ) + (inter + (scaling_section_bits(p, c) + (ar_section_bits(p) + (tail_section_bits(p)
            + r))))),
{
    let a = flag(true);
    let b = uint_bits(p.grain_seed as nat, 16);
    let d = scaling_section_bits(p, c);
    let e = ar_section_bits(p);
    let f = tail_section_bits(p);
    assert(a + b + inter + d + e + f + r =~= a + (b + (inter + (d + (e + (f + r))))));
}

/// A grain block decodes uniquely: two headers that suit a context and have
/// the same code there are the same header (a copied reference's slot and
/// seed aside, which the header's value does not hold). So reading back a
/// block that was written gives the parameters that were written.
#[verifier::rlimit(80)]
pub proof fn lemma_grain_code_injective(h1: FilmGrainHeader, h2: FilmGrainHeader, c: GrainContext)
    requires
        header_wf(h1, c),
        header_wf(h2, c),
        grain_header_bits(h1, c) == grain_header_bits(h2, c),
    ensures
        h1@ == h2@,
{
    assert(grain_header_bits(h1, c) + Seq::<bool>::empty() =~= grain_header_bits(h2, c) + Seq::<
        bool,
    >::empty());
    lemma_grain_code_prefix(h1, h2, c, Seq::empty(), Seq::empty());
}

} // verus!

//! Grain tables: time segments with grain parameters, their text form, and
//! their checks.
use vstd::prelude::*;

use crate::error::ParseError;
use crate::grain::{
    FilmGrainHeader, FilmGrainParams, GS_NUM_UV_COEFFS, GS_NUM_UV_POINTS, GS_NUM_Y_COEFFS,
    GS_NUM_Y_POINTS,
};

verus! {

/// Grain parameters as mathematical values.
pub struct FilmGrainParamsView {
    pub grain_seed: u16,
    pub scaling_points_y: Seq<(u8, u8)>,
    pub scaling_points_cb: Seq<(u8, u8)>,
    pub scaling_points_cr: Seq<(u8, u8)>,
    pub scaling_shift: u8,
    pub ar_coeff_lag: u8,
    pub ar_coeffs_y: Seq<i8>,
    pub ar_coeffs_cb: Seq<i8>,
    pub ar_coeffs_cr: Seq<i8>,
    pub ar_coeff_shift: u8,
    pub cb_mult: u8,
    pub cb_luma_mult: u8,
    pub cb_offset: u16,
    pub cr_mult: u8,
    pub cr_luma_mult: u8,
    pub cr_offset: u16,
    pub chroma_scaling_from_luma: bool,
    pub grain_scale_shift: u8,
    pub overlap_flag: bool,
    pub clip_to_restricted_range: bool,
}

impl View for FilmGrainParams {
    type V = FilmGrainParamsView;

    open spec fn view(&self) -> FilmGrainParamsView {
        FilmGrainParamsView {
            grain_seed: self.grain_seed,
            scaling_points_y: self.scaling_points_y@,
            scaling_points_cb: self.scaling_points_cb@,
            scaling_points_cr: self.scaling_points_cr@,
            scaling_shift: self.scaling_shift,
            ar_coeff_lag: self.ar_coeff_lag,
            ar_coeffs_y: self.ar_coeffs_y@,
            ar_coeffs_cb: self.ar_coeffs_cb@,
            ar_coeffs_cr: self.ar_coeffs_cr@,
            ar_coeff_shift: self.ar_coeff_shift,
            cb_mult: self.cb_mult,
            cb_luma_mult: self.cb_luma_mult,
            cb_offset: self.cb_offset,
            cr_mult: self.cr_mult,
            cr_luma_mult: self.cr_luma_mult,
            cr_offset: self.cr_offset,
            chroma_scaling_from_luma: self.chroma_scaling_from_luma,
            grain_scale_shift: self.grain_scale_shift,
            overlap_flag: self.overlap_flag,
            clip_to_restricted_range: self.clip_to_restricted_range,
        }
    }
}

/// A film grain header as a mathematical value.
pub enum FilmGrainHeaderView {
    Disable,
    CopyRefFrame,
    UpdateGrain(FilmGrainParamsView),
}

impl View for FilmGrainHeader {
    type V = FilmGrainHeaderView;

    open spec fn view(&self) -> FilmGrainHeaderView {
        match self {
            FilmGrainHeader::Disable => FilmGrainHeaderView::Disable,
            FilmGrainHeader::CopyRefFrame { .. } => FilmGrainHeaderView::CopyRefFrame,
            FilmGrainHeader::UpdateGrain(p) => FilmGrainHeaderView::UpdateGrain(p@),
        }
    }
}

/// Grain parameters that apply from `start_time` up to `end_time`, in units
/// of 1/10,000,000 s.
#[derive(Debug, Clone)]
pub struct GrainTableSegment {
    pub start_time: u64,
    pub end_time: u64,
    pub grain_params: FilmGrainParams,
}

/// A segment as a mathematical value.
pub struct GrainTableSegmentView {
    pub start_time: u64,
    pub end_time: u64,
    pub grain_params: FilmGrainParamsView,
}

impl View for GrainTableSegment {
    type V = GrainTableSegmentView;

    open spec fn view(&self) -> GrainTableSegmentView {
        GrainTableSegmentView {
            start_time: self.start_time,
            end_time: self.end_time,
            grain_params: self.grain_params@,
        }
    }
}

/// Two parameter sets are equal in every field but the seed.
pub open spec fn same_but_seed(a: FilmGrainParamsView, b: FilmGrainParamsView) -> bool {
    a == FilmGrainParamsView { grain_seed: a.grain_seed, ..b }
}

fn same_seq(a: &Vec<i8>, b: &Vec<i8>) -> (r: bool)
    ensures
        r == (a@ == b@),
{
    if a.len() != b.len() {
        return false;
    }
    let mut i: usize = 0;
    while i < a.len()
        invariant
            a@.len() == b@.len(),
            i <= a@.len(),
            forall|k: int| 0 <= k < i ==> a@[k] == b@[k],
        decreases a@.len() - i,
    {
        if a[i] != b[i] {
            return false;
        }
        i = i + 1;
    }
    assert(a@ =~= b@);
    true
}

fn same_points(a: &Vec<(u8, u8)>, b: &Vec<(u8, u8)>) -> (r: bool)
    ensures
        r == (a@ == b@),
{
    if a.len() != b.len() {
        return false;
    }
    let mut i: usize = 0;
    while i < a.len()
        invariant
            a@.len() == b@.len(),
            i <= a@.len(),
            forall|k: int| 0 <= k < i ==> a@[k] == b@[k],
        decreases a@.len() - i,
    {
        let (x0, x1) = a[i];
        let (y0, y1) = b[i];
        if x0 != y0 || x1 != y1 {
            return false;
        }
        i = i + 1;
    }
    assert(a@ =~= b@);
    true
}

/// Whether two parameter sets agree in every field but the seed.
pub fn params_equal_ignoring_seed(a: &FilmGrainParams, b: &FilmGrainParams) -> (r: bool)
    ensures
        r == same_but_seed(a@, b@),
{
    a.scaling_shift == b.scaling_shift && a.ar_coeff_lag == b.ar_coeff_lag && a.ar_coeff_shift
        == b.ar_coeff_shift && a.cb_mult == b.cb_mult && a.cb_luma_mult == b.cb_luma_mult
        && a.cb_offset == b.cb_offset && a.cr_mult == b.cr_mult && a.cr_luma_mult
        == b.cr_luma_mult && a.cr_offset == b.cr_offset && a.chroma_scaling_from_luma
        == b.chroma_scaling_from_luma && a.grain_scale_shift == b.grain_scale_shift
        && a.overlap_flag == b.overlap_flag && a.clip_to_restricted_range
        == b.clip_to_restricted_range && same_points(&a.scaling_points_y, &b.scaling_points_y)
        && same_points(&a.scaling_points_cb, &b.scaling_points_cb) && same_points(
        &a.scaling_points_cr,
        &b.scaling_points_cr,
    ) && same_seq(&a.ar_coeffs_y, &b.ar_coeffs_y) && same_seq(&a.ar_coeffs_cb, &b.ar_coeffs_cb)
        && same_seq(&a.ar_coeffs_cr, &b.ar_coeffs_cr)
}

fn copy_points(v: &Vec<(u8, u8)>) -> (r: Vec<(u8, u8)>)
    ensures
        r@ == v@,
{
    let mut r: Vec<(u8, u8)> = Vec::new();
    let mut i: usize = 0;
    while i < v.len()
        invariant
            i <= v@.len(),
            r@ == v@.subrange(0, i as int),
        decreases v@.len() - i,
    {
        r.push(v[i]);
        i = i + 1;
        assert(r@ =~= v@.subrange(0, i as int));
    }
    assert(v@.subrange(0, v@.len() as int) =~= v@);
    r
}

fn copy_coeffs(v: &Vec<i8>) -> (r: Vec<i8>)
    ensures
        r@ == v@,
{
    let mut r: Vec<i8> = Vec::new();
    let mut i: usize = 0;
    while i < v.len()
        invariant
            i <= v@.len(),
            r@ == v@.subrange(0, i as int),
        decreases v@.len() - i,
    {
        r.push(v[i]);
        i = i + 1;
        assert(r@ =~= v@.subrange(0, i as int));
    }
    assert(v@.subrange(0, v@.len() as int) =~= v@);
    r
}

/// A copy of a parameter set.
pub fn copy_params(p: &FilmGrainParams) -> (r: FilmGrainParams)
    ensures
        r@ == p@,
{
    FilmGrainParams {
        grain_seed: p.grain_seed,
        scaling_points_y: copy_points(&p.scaling_points_y),
        scaling_points_cb: copy_points(&p.scaling_points_cb),
        scaling_points_cr: copy_points(&p.scaling_points_cr),
        scaling_shift: p.scaling_shift,
        ar_coeff_lag: p.ar_coeff_lag,
        ar_coeffs_y: copy_coeffs(&p.ar_coeffs_y),
        ar_coeffs_cb: copy_coeffs(&p.ar_coeffs_cb),
        ar_coeffs_cr: copy_coeffs(&p.ar_coeffs_cr),
        ar_coeff_shift: p.ar_coeff_shift,
        cb_mult: p.cb_mult,
        cb_luma_mult: p.cb_luma_mult,
        cb_offset: p.cb_offset,
        cr_mult: p.cr_mult,
        cr_luma_mult: p.cr_luma_mult,
        cr_offset: p.cr_offset,
        chroma_scaling_from_luma: p.chroma_scaling_from_luma,
        grain_scale_shift: p.grain_scale_shift,
        overlap_flag: p.overlap_flag,
        clip_to_restricted_range: p.clip_to_restricted_range,
    }
}

/// The ranges a grain table gives each parameter.
pub open spec fn table_params_ok(p: FilmGrainParamsView) -> bool {
    &&& p.scaling_points_y.len() <= GS_NUM_Y_POINTS
    &&& p.scaling_points_cb.len() <= GS_NUM_UV_POINTS
    &&& p.scaling_points_cr.len() <= GS_NUM_UV_POINTS
    &&& p.ar_coeffs_y.len() <= GS_NUM_Y_COEFFS
    &&& p.ar_coeffs_cb.len() <= GS_NUM_UV_COEFFS
    &&& p.ar_coeffs_cr.len() <= GS_NUM_UV_COEFFS
    &&& 8 <= p.scaling_shift <= 11
    &&& p.ar_coeff_lag <= 3
    &&& 6 <= p.ar_coeff_shift <= 9
    &&& p.grain_scale_shift <= 3
    &&& p.cb_offset < 512
    &&& p.cr_offset < 512
}

/// A grain table whose segments are each non-empty, in range, sorted and
/// non-overlapping.
pub open spec fn table_ok(t: Seq<GrainTableSegmentView>) -> bool {
    &&& forall|i: int| 0 <= i < t.len() ==> #[trigger] t[i].start_time < t[i].end_time
    &&& forall|i: int| 0 <= i < t.len() ==> table_params_ok(#[trigger] t[i].grain_params)
    &&& forall|i: int| 0 < i < t.len() ==> t[i - 1].end_time <= #[trigger] t[i].start_time
}

/// The views of a list of segments.
pub open spec fn segments_view(v: Seq<GrainTableSegment>) -> Seq<GrainTableSegmentView> {
    v.map_values(|s: GrainTableSegment| s@)
}

fn params_in_range(p: &FilmGrainParams) -> (r: bool)
    ensures
        r == table_params_ok(p@),
{
    p.scaling_points_y.len() <= GS_NUM_Y_POINTS && p.scaling_points_cb.len() <= GS_NUM_UV_POINTS
        && p.scaling_points_cr.len() <= GS_NUM_UV_POINTS && p.ar_coeffs_y.len() <= GS_NUM_Y_COEFFS
        && p.ar_coeffs_cb.len() <= GS_NUM_UV_COEFFS && p.ar_coeffs_cr.len() <= GS_NUM_UV_COEFFS
        && 8 <= p.scaling_shift && p.scaling_shift <= 11 && p.ar_coeff_lag <= 3 && 6
        <= p.ar_coeff_shift && p.ar_coeff_shift <= 9 && p.grain_scale_shift <= 3 && p.cb_offset
        < 512 && p.cr_offset < 512
}

/// Checks a grain table: every segment non-empty and in range, the segments
/// sorted and non-overlapping. Returns the table unchanged when it passes.
pub fn validate_grain_table(segments: Vec<GrainTableSegment>) -> (r: Result<
    Vec<GrainTableSegment>,
    ParseError,
>)
    ensures
        r matches Ok(v) ==> v@ == segments@,
        r is Ok <==> table_ok(segments_view(segments@)),
        r is Err ==> r == Err::<Vec<GrainTableSegment>, ParseError>(ParseError::GrainTableSyntax),
{
    let mut i: usize = 0;
    let ghost t = segments_view(segments@);
    while i < segments.len()
        invariant
            i <= segments@.len(),
            t == segments_view(segments@),
            t.len() == segments@.len(),
            forall|k: int| 0 <= k < i ==> #[trigger] t[k].start_time < t[k].end_time,
            forall|k: int| 0 <= k < i ==> table_params_ok(#[trigger] t[k].grain_params),
            forall|k: int| 0 < k < i ==> t[k - 1].end_time <= #[trigger] t[k].start_time,
        decreases segments@.len() - i,
    {
        let s = &segments[i];
        assert(t[i as int] == s@);
        if s.start_time >= s.end_time || !params_in_range(&s.grain_params) {
            assert(!(t[i as int].start_time < t[i as int].end_time) || !table_params_ok(
                t[i as int].grain_params,
            ));
            return Err(ParseError::GrainTableSyntax);
        }
        if i > 0 && segments[i - 1].end_time > s.start_time {
            assert(t[i - 1] == segments@[i - 1]@);
            assert(!(t[i - 1].end_time <= t[i as int].start_time));
            return Err(ParseError::GrainTableSyntax);
        }
        proof {
            if i > 0 {
                assert(t[i - 1] == segments@[i - 1]@);
            }
        }
        i = i + 1;
    }
    Ok(segments)
}

/// The decimal digits of `n`, as ASCII.
pub open spec fn dec(n: nat) -> Seq<u8>
    decreases n,
{
    if n < 10 {
        seq![(48 + n) as u8]
    } else {
        dec(n / 10).push((48 + n % 10) as u8)
    }
}

/// A signed number in decimal, with a leading minus sign when negative.
pub open spec fn sdec(n: int) -> Seq<u8> {
    if n < 0 {
        seq![45u8] + dec((-n) as nat)
    } else {
        dec(n as nat)
    }
}

/// Appends the decimal digits of `n`.
pub fn push_dec(out: &mut Vec<u8>, n: u64)
    ensures
        final(out)@ == old(out)@ + dec(n as nat),
    decreases n,
{
    if n >= 10 {
        push_dec(out, n / 10);
    }
    out.push((48 + n % 10) as u8);
    proof {
        if n >= 10 {
            assert(old(out)@ + dec(n as nat) =~= (old(out)@ + dec((n / 10) as nat)).push(
                (48 + n % 10) as u8,
            ));
        } else {
            assert(old(out)@ + dec(n as nat) =~= old(out)@.push((48 + n % 10) as u8));
        }
    }
}

/// Appends a signed number in decimal.
pub fn push_sdec(out: &mut Vec<u8>, n: i64)
    requires
        n > i64::MIN,
    ensures
        final(out)@ == old(out)@ + sdec(n as int),
{
    if n < 0 {
        out.push(45u8);
        push_dec(out, (-n) as u64);
        assert(final(out)@ =~= old(out)@ + sdec(n as int)) by {
            assert(old(out)@.push(45u8) + dec((-n) as nat) =~= old(out)@ + (seq![45u8] + dec(
                (-n) as nat,
            )));
        };
    } else {
        push_dec(out, n as u64);
    }
}

/// The text of a list of scaling points: a space and the value and scaling
/// of each point.
pub open spec fn points_text(pts: Seq<(u8, u8)>) -> Seq<u8>
    decreases pts.len(),
{
    if pts.len() == 0 {
        Seq::empty()
    } else {
        points_text(pts.drop_last()) + seq![32u8] + dec(pts.last().0 as nat) + seq![32u8] + dec(
            pts.last().1 as nat,
        )
    }
}

/// The text of a list of coefficients: a space and each coefficient.
pub open spec fn coeffs_text(cs: Seq<i8>) -> Seq<u8>
    decreases cs.len(),
{
    if cs.len() == 0 {
        Seq::empty()
    } else {
        coeffs_text(cs.drop_last()) + seq![32u8] + sdec(cs.last() as int)
    }
}

fn push_points(out: &mut Vec<u8>, pts: &Vec<(u8, u8)>)
    ensures
        final(out)@ == old(out)@ + points_text(pts@),
{
    let ghost start = out@;
    let mut i: usize = 0;
    assert(start + points_text(pts@.subrange(0, 0)) =~= start);
    while i < pts.len()
        invariant
            i <= pts@.len(),
            out@ == start + points_text(pts@.subrange(0, i as int)),
        decreases pts@.len() - i,
    {
        let (v, s) = pts[i];
        out.push(32u8);
        push_dec(out, v as u64);
        out.push(32u8);
        push_dec(out, s as u64);
        proof {
            let next = pts@.subrange(0, i + 1);
            assert(next.drop_last() =~= pts@.subrange(0, i as int));
            assert(out@ =~= start + points_text(next));
        }
        i = i + 1;
    }
    assert(pts@.subrange(0, pts@.len() as int) =~= pts@);
}

fn push_coeffs(out: &mut Vec<u8>, cs: &Vec<i8>)
    ensures
        final(out)@ == old(out)@ + coeffs_text(cs@),
{
    let ghost start = out@;
    let mut i: usize = 0;
    assert(start + coeffs_text(cs@.subrange(0, 0)) =~= start);
    while i < cs.len()
        invariant
            i <= cs@.len(),
            out@ == start + coeffs_text(cs@.subrange(0, i as int)),
        decreases cs@.len() - i,
    {
        out.push(32u8);
        push_sdec(out, cs[i] as i64);
        proof {
            let next = cs@.subrange(0, i + 1);
            assert(next.drop_last() =~= cs@.subrange(0, i as int));
            assert(out@ =~= start + coeffs_text(next));
        }
        i = i + 1;
    }
    assert(cs@.subrange(0, cs@.len() as int) =~= cs@);
}

/// The first line of a segment: times and seed.
pub open spec fn segment_head_text(s: GrainTableSegmentView) -> Seq<u8> {
    seq![69u8, 32u8] + dec(s.start_time as nat) + seq![32u8] + dec(s.end_time as nat) + seq![
        32u8,
        49u8,
        32u8,
    ] + dec(s.grain_params.grain_seed as nat) + seq![32u8, 49u8, 10u8]
}

/// A space and a number in decimal.
pub open spec fn field(n: nat) -> Seq<u8> {
    seq![32u8] + dec(n)
}

/// 1 for a set flag, 0 for a clear one.
pub open spec fn flag_num(b: bool) -> nat {
    if b {
        1
    } else {
        0
    }
}

/// The first six fields of the parameter line.
pub open spec fn param_text_shape(p: FilmGrainParamsView) -> Seq<u8> {
    field(p.ar_coeff_lag as nat) + field(p.ar_coeff_shift as nat) + field(
        p.grain_scale_shift as nat,
    ) + field(p.scaling_shift as nat) + field(flag_num(p.chroma_scaling_from_luma)) + field(
        flag_num(p.overlap_flag),
    )
}

/// The chroma fields of the parameter line.
pub open spec fn param_text_chroma(p: FilmGrainParamsView) -> Seq<u8> {
    field(p.cb_mult as nat) + field(p.cb_luma_mult as nat) + field(p.cb_offset as nat) + field(
        p.cr_mult as nat,
    ) + field(p.cr_luma_mult as nat) + field(p.cr_offset as nat)
}

/// The parameter line of a segment.
pub open spec fn segment_param_text(p: FilmGrainParamsView) -> Seq<u8> {
    seq![9u8, 112u8] + param_text_shape(p) + param_text_chroma(p) + seq![10u8]
}

/// One scaling-point line: its tag, the point count, an optional extra
/// space, the points, and a line end.
pub open spec fn point_line(tag: Seq<u8>, gap: bool, pts: Seq<(u8, u8)>) -> Seq<u8> {
    tag + dec(pts.len()) + (if gap {
        seq![32u8]
    } else {
        Seq::empty()
    }) + points_text(pts) + seq![10u8]
}

/// The scaling-point lines of a segment. The luma point count is followed
/// by a space before the points.
pub open spec fn segment_points_text(p: FilmGrainParamsView) -> Seq<u8> {
    point_line(seq![9u8, 115u8, 89u8, 32u8], true, p.scaling_points_y) + point_line(
        seq![9u8, 115u8, 67u8, 98u8, 32u8],
        false,
        p.scaling_points_cb,
    ) + point_line(seq![9u8, 115u8, 67u8, 114u8, 32u8], false, p.scaling_points_cr)
}

/// The coefficient lines of a segment.
pub open spec fn segment_coeffs_text(p: FilmGrainParamsView) -> Seq<u8> {
    seq![9u8, 99u8, 89u8] + coeffs_text(p.ar_coeffs_y) + seq![10u8] + seq![9u8, 99u8, 67u8, 98u8]
        + coeffs_text(p.ar_coeffs_cb) + seq![10u8] + seq![9u8, 99u8, 67u8, 114u8] + coeffs_text(
        p.ar_coeffs_cr,
    ) + seq![10u8]
}

/// The scaling-point and coefficient lines of a segment.
pub open spec fn segment_lists_text(p: FilmGrainParamsView) -> Seq<u8> {
    segment_points_text(p) + segment_coeffs_text(p)
}

/// The text of one segment of a grain table.
pub open spec fn segment_text(s: GrainTableSegmentView) -> Seq<u8> {
    segment_head_text(s) + segment_param_text(s.grain_params) + segment_lists_text(s.grain_params)
}

fn push_field(out: &mut Vec<u8>, n: u64)
    ensures
        final(out)@ == old(out)@ + field(n as nat),
{
    out.push(32u8);
    push_dec(out, n);
    assert(final(out)@ =~= old(out)@ + field(n as nat));
}

fn push_param_shape(out: &mut Vec<u8>, p: &FilmGrainParams)
    ensures
        final(out)@ == old(out)@ + param_text_shape(p@),
{
    let ghost start = out@;
    push_field(out, p.ar_coeff_lag as u64);
    push_field(out, p.ar_coeff_shift as u64);
    push_field(out, p.grain_scale_shift as u64);
    push_field(out, p.scaling_shift as u64);
    push_field(
        out,
        if p.chroma_scaling_from_luma {
            1
        } else {
            0
        },
    );
    push_field(
        out,
        if p.overlap_flag {
            1
        } else {
            0
        },
    );
    assert(out@ =~= start + param_text_shape(p@));
}

fn push_param_chroma(out: &mut Vec<u8>, p: &FilmGrainParams)
    ensures
        final(out)@ == old(out)@ + param_text_chroma(p@),
{
    let ghost start = out@;
    push_field(out, p.cb_mult as u64);
    push_field(out, p.cb_luma_mult as u64);
    push_field(out, p.cb_offset as u64);
    push_field(out, p.cr_mult as u64);
    push_field(out, p.cr_luma_mult as u64);
    push_field(out, p.cr_offset as u64);
    assert(out@ =~= start + param_text_chroma(p@));
}

fn push_param_line(out: &mut Vec<u8>, p: &FilmGrainParams)
    ensures
        final(out)@ == old(out)@ + segment_param_text(p@),
{
    let ghost start = out@;
    out.push(9u8);
    out.push(112u8);
    push_param_shape(out, p);
    push_param_chroma(out, p);
    out.push(10u8);
    assert(out@ =~= start + segment_param_text(p@));
}

fn push_bytes(out: &mut Vec<u8>, bytes: &[u8])
    ensures
        final(out)@ == old(out)@ + bytes@,
{
    let ghost start = out@;
    let mut i: usize = 0;
    while i < bytes.len()
        invariant
            i <= bytes@.len(),
            out@ == start + bytes@.subrange(0, i as int),
        decreases bytes@.len() - i,
    {
        out.push(bytes[i]);
        i = i + 1;
        assert(out@ =~= start + bytes@.subrange(0, i as int));
    }
    assert(bytes@.subrange(0, bytes@.len() as int) =~= bytes@);
}

fn push_point_line(out: &mut Vec<u8>, tag: &[u8], gap: bool, pts: &Vec<(u8, u8)>)
    ensures
        final(out)@ == old(out)@ + point_line(tag@, gap, pts@),
{
    let ghost start = out@;
    push_bytes(out, tag);
    push_dec(out, pts.len() as u64);
    if gap {
        out.push(32u8);
    }
    push_points(out, pts);
    out.push(10u8);
    assert(out@ =~= start + point_line(tag@, gap, pts@));
}

fn push_point_lines(out: &mut Vec<u8>, p: &FilmGrainParams)
    ensures
        final(out)@ == old(out)@ + segment_points_text(p@),
{
    let ghost start = out@;
    let y_tag: [u8; 4] = [9u8, 115u8, 89u8, 32u8];
    let cb_tag: [u8; 5] = [9u8, 115u8, 67u8, 98u8, 32u8];
    let cr_tag: [u8; 5] = [9u8, 115u8, 67u8, 114u8, 32u8];
    push_point_line(out, y_tag.as_slice(), true, &p.scaling_points_y);
    push_point_line(out, cb_tag.as_slice(), false, &p.scaling_points_cb);
    push_point_line(out, cr_tag.as_slice(), false, &p.scaling_points_cr);
    assert(y_tag@ =~= seq![9u8, 115u8, 89u8, 32u8]);
    assert(cb_tag@ =~= seq![9u8, 115u8, 67u8, 98u8, 32u8]);
    assert(cr_tag@ =~= seq![9u8, 115u8, 67u8, 114u8, 32u8]);
    assert(out@ =~= start + segment_points_text(p@));
}

fn push_coeff_lines(out: &mut Vec<u8>, p: &FilmGrainParams)
    ensures
        final(out)@ == old(out)@ + segment_coeffs_text(p@),
{
    let ghost start = out@;
    out.push(9u8);
    out.push(99u8);
    out.push(89u8);
    push_coeffs(out, &p.ar_coeffs_y);
    out.push(10u8);
    out.push(9u8);
    out.push(99u8);
    out.push(67u8);
    out.push(98u8);
    push_coeffs(out, &p.ar_coeffs_cb);
    out.push(10u8);
    out.push(9u8);
    out.push(99u8);
    out.push(67u8);
    out.push(114u8);
    push_coeffs(out, &p.ar_coeffs_cr);
    out.push(10u8);
    assert(out@ =~= start + segment_coeffs_text(p@));
}

fn push_list_lines(out: &mut Vec<u8>, p: &FilmGrainParams)
    ensures
        final(out)@ == old(out)@ + segment_lists_text(p@),
{
    let ghost start = out@;
    push_point_lines(out, p);
    push_coeff_lines(out, p);
    assert(out@ =~= start + segment_lists_text(p@));
}

/// Appends the text of one grain table segment.
pub fn write_film_grain_segment(out: &mut Vec<u8>, segment: &GrainTableSegment)
    ensures
        final(out)@ == old(out)@ + segment_text(segment@),
{
    let ghost start = out@;
    out.push(69u8);
    out.push(32u8);
    push_dec(out, segment.start_time);
    out.push(32u8);
    push_dec(out, segment.end_time);
    out.push(32u8);
    out.push(49u8);
    out.push(32u8);
    push_dec(out, segment.grain_params.grain_seed as u64);
    out.push(32u8);
    out.push(49u8);
    out.push(10u8);
    assert(out@ =~= start + segment_head_text(segment@));
    push_param_line(out, &segment.grain_params);
    push_list_lines(out, &segment.grain_params);
    assert(out@ =~= start + segment_text(segment@));
}

/// The header line of a grain table.
pub open spec fn table_header_text() -> Seq<u8> {
    seq![102u8, 105u8, 108u8, 109u8, 103u8, 114u8, 110u8, 49u8, 10u8]
}

/// The text of a whole grain table.
pub open spec fn table_text(t: Seq<GrainTableSegmentView>) -> Seq<u8>
    decreases t.len(),
{
    if t.len() == 0 {
        table_header_text()
    } else {
        table_text(t.drop_last()) + segment_text(t.last())
    }
}

/// The text of a grain table: the `filmgrn1` line and then each segment.
pub fn write_grain_table(segments: &Vec<GrainTableSegment>) -> (r: Vec<u8>)
    ensures
        r@ == table_text(segments_view(segments@)),
{
    let mut out: Vec<u8> = Vec::new();
    out.push(102u8);
    out.push(105u8);
    out.push(108u8);
    out.push(109u8);
    out.push(103u8);
    out.push(114u8);
    out.push(110u8);
    out.push(49u8);
    out.push(10u8);
    let ghost t = segments_view(segments@);
    assert(out@ =~= table_text(t.subrange(0, 0)));
    let mut i: usize = 0;
    while i < segments.len()
        invariant
            i <= segments@.len(),
            t == segments_view(segments@),
            t.len() == segments@.len(),
            out@ == table_text(t.subrange(0, i as int)),
        decreases segments@.len() - i,
    {
        write_film_grain_segment(&mut out, &segments[i]);
        proof {
            let next = t.subrange(0, i + 1);
            assert(next.drop_last() =~= t.subrange(0, i as int));
            assert(next.last() == segments@[i as int]@);
        }
        i = i + 1;
    }
    assert(t.subrange(0, t.len() as int) =~= t);
    out
}

} // verus!

//! Turning the per-frame grain headers of a stream into grain table segments.
use vstd::arithmetic::div_mod::{lemma_div_is_ordered, lemma_div_plus_one};
use vstd::prelude::*;

use crate::grain::FilmGrainHeader;
use crate::table::{
    copy_params, params_equal_ignoring_seed, same_but_seed, segments_view, FilmGrainHeaderView,
    GrainTableSegment, GrainTableSegmentView,
};

verus! {

/// Timestamp units per second.
pub const TIMESTAMP_BASE_UNIT: u64 = 10_000_000;

/// `k * d / num` rounded up.
pub open spec fn ceil_ratio(k: nat, num: nat, d: nat) -> nat {
    ((k * d + num - 1) as nat) / num
}

/// End of packet `k - 1` (start of packet `k`) at `num/den` frames per
/// second: the elapsed time `k * den / num` seconds in timestamp units,
/// rounded up to a whole tick.
pub open spec fn packet_end(k: nat, num: nat, den: nat) -> nat {
    ceil_ratio(k, num, den * 10_000_000)
}

/// One packet's effect on the segments built so far.
pub open spec fn step(
    acc: Seq<GrainTableSegmentView>,
    h: FilmGrainHeaderView,
    start: nat,
    end: nat,
) -> Seq<GrainTableSegmentView> {
    let prev_has_grain = acc.len() > 0 && acc.last().end_time == start;
    let extended = acc.update(
        acc.len() - 1,
        GrainTableSegmentView { end_time: end as u64, ..acc.last() },
    );
    match h {
        FilmGrainHeaderView::Disable => acc,
        FilmGrainHeaderView::CopyRefFrame => if prev_has_grain {
            extended
        } else {
            acc
        },
        FilmGrainHeaderView::UpdateGrain(p) => if prev_has_grain && same_but_seed(
            p,
            acc.last().grain_params,
        ) {
            extended
        } else {
            acc.push(
                GrainTableSegmentView { start_time: start as u64, end_time: end as u64, grain_params: p },
            )
        },
    }
}

/// The segments for a sequence of per-packet grain headers.
pub open spec fn aggregate(hs: Seq<FilmGrainHeaderView>, num: nat, den: nat) -> Seq<
    GrainTableSegmentView,
>
    decreases hs.len(),
{
    if hs.len() == 0 {
        Seq::empty()
    } else {
        let k = (hs.len() - 1) as nat;
        step(
            aggregate(hs.drop_last(), num, den),
            hs.last(),
            packet_end(k, num, den),
            packet_end(k + 1, num, den),
        )
    }
}

/// The views of a list of grain headers.
pub open spec fn headers_view(v: Seq<FilmGrainHeader>) -> Seq<FilmGrainHeaderView> {
    v.map_values(|h: FilmGrainHeader| h@)
}

/// Builds grain table segments from the grain headers of consecutive packets
/// at `frame_rate_num / frame_rate_den` frames per second: equal parameters
/// (seed aside) and copied references extend the current segment, disabled
/// grain ends it. Packet `k` ends at `ceil(k * den * 10_000_000 / num)`:
/// the cumulative time rounded up to a whole tick of 1/10,000,000 s, so
/// drift stays below one tick and every packet at up to 10,000,000 frames
/// per second gets a non-empty span.
pub fn aggregate_grain_headers(
    grain_headers: &Vec<FilmGrainHeader>,
    frame_rate_num: u64,
    frame_rate_den: u64,
) -> (r: Vec<GrainTableSegment>)
    requires
        frame_rate_num >= 1,
        (grain_headers@.len() + 1) * (frame_rate_den * 10_000_000) + frame_rate_num <= u64::MAX,
    ensures
        segments_view(r@) == aggregate(
            headers_view(grain_headers@),
            frame_rate_num as nat,
            frame_rate_den as nat,
        ),
{
    let ghost hs = headers_view(grain_headers@);
    let ghost num = frame_rate_num as nat;
    let ghost den = frame_rate_den as nat;
    let ghost len = grain_headers@.len();
    assert(frame_rate_den * 10_000_000 <= (len + 1) * (frame_rate_den * 10_000_000))
        by (nonlinear_arith);
    let d: u64 = frame_rate_den * TIMESTAMP_BASE_UNIT;
    let mut acc: Vec<GrainTableSegment> = Vec::new();
    let mut i: usize = 0;
    proof {
        assert(hs.subrange(0, 0) =~= Seq::<FilmGrainHeaderView>::empty());
        assert(segments_view(acc@) =~= Seq::<GrainTableSegmentView>::empty());
    }
    while i < grain_headers.len()
        invariant
            i <= grain_headers@.len(),
            hs == headers_view(grain_headers@),
            hs.len() == grain_headers@.len(),
            len == grain_headers@.len(),
            num == frame_rate_num,
            den == frame_rate_den,
            d == frame_rate_den * 10_000_000,
            frame_rate_num >= 1,
            (len + 1) * d + frame_rate_num <= u64::MAX,
            segments_view(acc@) == aggregate(hs.subrange(0, i as int), num, den),
        decreases grain_headers@.len() - i,
    {
        assert((i + 1) * d <= (len + 1) * d) by (nonlinear_arith)
            requires
                i + 1 <= len + 1,
        ;
        assert(i * d <= (i + 1) * d) by (nonlinear_arith);
        let cur_start = ((i as u64) * d + frame_rate_num - 1) / frame_rate_num;
        let cur_end = ((i as u64 + 1) * d + frame_rate_num - 1) / frame_rate_num;
        let ghost before = segments_view(acc@);
        let prev_has_grain = acc.len() > 0 && acc[acc.len() - 1].end_time == cur_start;
        proof {
            if acc@.len() > 0 {
                assert(before.last() == acc@[acc@.len() - 1]@);
            }
        }
        match &grain_headers[i] {
            FilmGrainHeader::Disable => {},
            FilmGrainHeader::CopyRefFrame { .. } => {
                if prev_has_grain {
                    let mut last = acc.pop().unwrap();
                    last.end_time = cur_end;
                    acc.push(last);
                }
            },
            FilmGrainHeader::UpdateGrain(p) => {
                if prev_has_grain && params_equal_ignoring_seed(p, &acc[acc.len() - 1].grain_params) {
                    let mut last = acc.pop().unwrap();
                    last.end_time = cur_end;
                    acc.push(last);
                } else {
                    acc.push(
                        GrainTableSegment {
                            start_time: cur_start,
                            end_time: cur_end,
                            grain_params: copy_params(p),
                        },
                    );
                }
            },
        }
        proof {
            let prefix = hs.subrange(0, i + 1);
            assert(prefix.drop_last() =~= hs.subrange(0, i as int));
            assert(prefix.last() == grain_headers@[i as int]@);
            assert(segments_view(acc@) =~= step(
                before,
                prefix.last(),
                packet_end(i as nat, num, den),
                packet_end((i + 1) as nat, num, den),
            ));
        }
        i = i + 1;
    }
    assert(hs.subrange(0, hs.len() as int) =~= hs);
    acc
}

proof fn lemma_packet_end_monotone(k: nat, num: nat, d: nat)
    requires
        num >= 1,
    ensures
        ceil_ratio(k, num, d) <= ceil_ratio(k + 1, num, d),
        d >= num ==> ceil_ratio(k, num, d) + 1 <= ceil_ratio(k + 1, num, d),
{
    assert(k * d <= (k + 1) * d) by (nonlinear_arith);
    lemma_div_is_ordered((k * d + num - 1) as int, ((k + 1) * d + num - 1) as int, num as int);
    if d >= num {
        assert((k + 1) * d == k * d + d) by (nonlinear_arith);
        lemma_div_is_ordered(
            (num + (k * d + num - 1)) as int,
            ((k + 1) * d + num - 1) as int,
            num as int,
        );
        lemma_div_plus_one((k * d + num - 1) as int, num as int);
    }
}

/// The segments are ordered: each starts no later than it ends and ends no
/// later than the next starts, and the last ends by the end of the packets.
pub open spec fn ordered_segments(s: Seq<GrainTableSegmentView>, limit: nat) -> bool {
    &&& forall|i: int| 0 <= i < s.len() ==> #[trigger] s[i].start_time <= s[i].end_time
    &&& forall|i: int| 0 < i < s.len() ==> s[i - 1].end_time <= #[trigger] s[i].start_time
    &&& s.len() > 0 ==> s.last().end_time <= limit
}

/// Every segment is non-empty.
pub open spec fn nonempty_segments(s: Seq<GrainTableSegmentView>) -> bool {
    forall|i: int| 0 <= i < s.len() ==> #[trigger] s[i].start_time < s[i].end_time
}

/// Timeline monotonicity: aggregated segments satisfy
/// `start_i < end_i <= start_{i+1}` whenever a frame lasts at least one
/// timestamp tick (at most 10,000,000 frames per second).
pub proof fn lemma_timeline_monotonic(hs: Seq<FilmGrainHeaderView>, num: nat, den: nat)
    requires
        num >= 1,
        num <= den * 10_000_000,
        (hs.len() + 1) * (den * 10_000_000) + num <= u64::MAX,
    ensures
        ordered_segments(aggregate(hs, num, den), packet_end(hs.len(), num, den)),
        nonempty_segments(aggregate(hs, num, den)),
    decreases hs.len(),
{
    let d = den * 10_000_000;
    if hs.len() > 0 {
        let k = (hs.len() - 1) as nat;
        let prev = hs.drop_last();
        assert((prev.len() + 1) * d <= (hs.len() + 1) * d) by (nonlinear_arith)
            requires
                prev.len() + 1 <= hs.len() + 1,
        ;
        lemma_timeline_monotonic(prev, num, den);
        lemma_packet_end_monotone(k, num, d);
        assert(hs.len() * d <= (hs.len() + 1) * d) by (nonlinear_arith);
        lemma_packet_end_fits(k + 1, num, d);
        assert(k * d <= (k + 1) * d) by (nonlinear_arith);
        lemma_packet_end_fits(k, num, d);
        let acc = aggregate(prev, num, den);
        let start = packet_end(k, num, den);
        let end = packet_end(k + 1, num, den);
        let r = aggregate(hs, num, den);
        assert(r == step(acc, hs.last(), start, end));
        if acc.len() > 0 {
            assert(acc.last().end_time <= start);
        }
        assert forall|i: int| 0 <= i < r.len() implies #[trigger] r[i].start_time
            < r[i].end_time by {
            if i < acc.len() - 1 || (i == acc.len() - 1 && r.len() == acc.len() && r[i]
                == acc[i]) {
            }
        }
    }
}

proof fn lemma_packet_end_fits(k: nat, num: nat, d: nat)
    requires
        num >= 1,
        k * d + num <= u64::MAX,
    ensures
        ceil_ratio(k, num, d) <= u64::MAX,
{
    let a: int = (k * d + num - 1) as int;
    vstd::arithmetic::div_mod::lemma_div_is_ordered_by_denominator(a, 1, num as int);
    assert(a / 1 == a);
}

} // verus!

//! The OBU walker: frames each OBU of a packet, parses the headers that
//! matter, collects grain headers, and in rewrite mode assembles the new
//! packet with its grain blocks replaced and its size fields re-encoded.
use vstd::prelude::*;

use crate::bits::{bits_of, pack_bits, BitReader};
use crate::error::ParseError;
use crate::frame::{uncompressed_header, RefState, TileInfo};
use crate::grain::{fit_params, grain_header_bits, write_film_grain_params, FilmGrainHeader, GrainContext};
use crate::leb128::{leb128, leb128_write, leb_decode, leb_encode};
use crate::obu::{header_bytes_ok, header_of, parse_obu_header, ObuType};
use crate::sequence::SequenceHeader;
use crate::table::GrainTableSegment;

verus! {

/// What rewriting does to film grain.
pub enum GrainPolicy {
    /// Every grain block and the sequence flag stay as they are.
    Keep,
    /// The sequence flag is cleared, so frames carry no grain block.
    Remove,
    /// The sequence flag is set and each frame gets the parameters of the
    /// table segment that covers its timestamp, or no grain outside them.
    Apply(Vec<GrainTableSegment>),
}

/// Where an OBU starting at byte `pos` ends: after its header, size field
/// and payload when it has a size field, else at the end of the packet.
pub open spec fn obu_extent(data: Seq<u8>, pos: int) -> Option<int> {
    if !header_bytes_ok(data, pos) {
        None
    } else {
        let h = header_of(
            data[pos],
            if (data[pos] / 4) % 2 == 1 {
                data[pos + 1]
            } else {
                0
            },
        );
        let hl = h.spec_len();
        if h.has_size_field {
            match leb_decode(data.subrange(pos + hl, data.len() as int)) {
                Some((size, n)) => if pos + hl + n + size <= data.len() {
                    Some(pos + hl + n + size)
                } else {
                    None
                },
                None => None,
            }
        } else {
            Some(data.len() as int)
        }
    }
}

/// The kind of the OBU whose header starts at byte `pos`.
pub open spec fn obu_type_at(data: Seq<u8>, pos: int) -> ObuType {
    header_of(
        data[pos],
        if (data[pos] / 4) % 2 == 1 {
            data[pos + 1]
        } else {
            0
        },
    ).obu_type
}

/// The header of the OBU at `pos`.
pub open spec fn obu_header_at(data: Seq<u8>, pos: int) -> crate::obu::ObuHeader {
    header_of(
        data[pos],
        if (data[pos] / 4) % 2 == 1 {
            data[pos + 1]
        } else {
            0
        },
    )
}

/// Where the payload of the OBU at `pos` starts: after its header and its
/// size field, if any.
pub open spec fn obu_payload_start(data: Seq<u8>, pos: int) -> int {
    let h = obu_header_at(data, pos);
    let hl = h.spec_len() as int;
    if h.has_size_field {
        match leb_decode(data.subrange(pos + hl, data.len() as int)) {
            Some((_, n)) => pos + hl + n,
            None => pos + hl,
        }
    } else {
        pos + hl
    }
}

/// The OBU at `pos` is of a kind whose content this parser does not read.
pub open spec fn is_plain_obu(data: Seq<u8>, pos: int) -> bool {
    let t = obu_type_at(data, pos);
    t != ObuType::SequenceHeader && t != ObuType::FrameHeader && t != ObuType::Frame && t
        != ObuType::TileGroup && t != ObuType::RedundantFrameHeader
}

/// Parsing state carried from OBU to OBU and from packet to packet.
pub struct BitstreamParser {
    /// The rewrite to perform; `None` when only inspecting.
    pub policy: Option<GrainPolicy>,
    /// A frame header has been read and its tiles are not all seen yet.
    pub seen_frame_header: bool,
    pub sequence_header: Option<SequenceHeader>,
    /// Tile layout of the last frame header.
    pub prev_tile_info: Option<TileInfo>,
    pub refs: RefState,
    /// Grain header of every shown frame, in order.
    pub grain_headers: Vec<FilmGrainHeader>,
}

/// Appends `data[from..to]`.
fn append_range(out: &mut Vec<u8>, data: &[u8], from: usize, to: usize)
    requires
        from <= to <= data@.len(),
    ensures
        final(out)@ == old(out)@ + data@.subrange(from as int, to as int),
{
    let ghost start = out@;
    let mut i: usize = from;
    while i < to
        invariant
            from <= i <= to,
            to <= data@.len(),
            out@ == start + data@.subrange(from as int, i as int),
        decreases to - i,
    {
        out.push(data[i]);
        i = i + 1;
        assert(out@ =~= start + data@.subrange(from as int, i as int));
    }
}

/// Appends all of `v`.
fn append_bytes(out: &mut Vec<u8>, v: &Vec<u8>)
    ensures
        final(out)@ == old(out)@ + v@,
{
    let ghost start = out@;
    let mut i: usize = 0;
    while i < v.len()
        invariant
            i <= v@.len(),
            out@ == start + v@.subrange(0, i as int),
        decreases v@.len() - i,
    {
        out.push(v[i]);
        i = i + 1;
        assert(out@ =~= start + v@.subrange(0, i as int));
    }
    assert(v@.subrange(0, v@.len() as int) =~= v@);
}

/// The value the rewrite gives `film_grain_params_present` under a policy,
/// given its old value.
pub open spec fn policy_flag(p: Option<GrainPolicy>, old_flag: bool) -> bool {
    match p {
        Some(GrainPolicy::Remove) => false,
        Some(GrainPolicy::Apply(_)) => true,
        _ => old_flag,
    }
}

/// The header that applying `table` gives a frame shown at `ts` under
/// context `c` (flag set): none when the frame carries no block or no
/// segment holds `ts`; otherwise new parameters, which are those of the
/// first segment holding `ts` when they suit the frame.
pub open spec fn applied_header(
    h: FilmGrainHeader,
    table: Seq<GrainTableSegment>,
    ts: u64,
    c: GrainContext,
) -> bool {
    &&& !c.has_block() || first_cover(table, ts) >= table.len() ==> h is Disable
    &&& c.has_block() && first_cover(table, ts) < table.len() ==> (h matches FilmGrainHeader::UpdateGrain(p)
        && (crate::grain::params_wf(table[first_cover(table, ts)].grain_params, c) ==> p@
        == table[first_cover(table, ts)].grain_params@))
}

/// Apply then inspect: a block that reads back with the same code as the
/// block applying `table` wrote for a frame at `ts` holds the parameters of
/// the segment covering `ts` (when they suit the frame), or no grain when
/// no segment covers it.
pub proof fn lemma_apply_then_inspect(
    written: FilmGrainHeader,
    read: FilmGrainHeader,
    table: Seq<GrainTableSegment>,
    ts: u64,
    c: GrainContext,
)
    requires
        crate::grain::header_wf(written, c),
        crate::grain::header_wf(read, c),
        applied_header(written, table, ts, c),
        grain_header_bits(read, c) == grain_header_bits(written, c),
    ensures
        read@ == written@,
        c.has_block() && first_cover(table, ts) < table.len() && crate::grain::params_wf(
            table[first_cover(table, ts)].grain_params,
            c,
        ) ==> read@ == crate::table::FilmGrainHeaderView::UpdateGrain(
            table[first_cover(table, ts)].grain_params@,
        ),
        !c.has_block() || first_cover(table, ts) >= table.len() ==> read@
            == crate::table::FilmGrainHeaderView::Disable,
{
    crate::grain::lemma_grain_code_injective(read, written, c);
}

/// What a policy puts in the block of a frame shown at `ts`: under `Apply`
/// the header `applied_header` describes; otherwise any header.
pub open spec fn policy_header(p: Option<GrainPolicy>, h: FilmGrainHeader, ts: u64, c: GrainContext) -> bool {
    match p {
        Some(GrainPolicy::Apply(t)) => applied_header(h, t@, ts, c),
        _ => true,
    }
}

/// The grain context under which a rewrite writes a frame's block.
pub open spec fn new_ctx(p: Option<GrainPolicy>, c: GrainContext) -> GrainContext {
    GrainContext { film_grain_params_present: policy_flag(p, c.film_grain_params_present), ..c }
}

/// The `film_grain_params_present` bit of the installed sequence header.
pub open spec fn seq_flag(p: &BitstreamParser) -> bool {
    match p.sequence_header {
        Some(h) => h.film_grain_params_present,
        None => false,
    }
}

/// The size field written for a new payload of `len` bytes: none when the
/// OBU has none, the original bytes `data[from..ps]` when the length is that
/// of the old payload `data[ps..end]`, else the shortest LEB128 code of `len`.
pub open spec fn size_field(data: Seq<u8>, from: int, ps: int, end: int, has_size: bool, len: nat) -> Seq<u8> {
    if !has_size {
        Seq::empty()
    } else if len == end - ps {
        data.subrange(from, ps)
    } else {
        leb_encode(len)
    }
}

/// `out` is `old_out` followed by a rewritten frame header OBU: its header
/// bytes `data[pos..pos + hl]`, a size field holding the new payload length
/// when the OBU has one, and the new payload `np`, whose bits up to `gs`
/// are those of the old payload `data[ps..end]` and which then holds the
/// code of the grain header `h` under context `c`.
pub open spec fn frame_rewrite(
    old_out: Seq<u8>,
    out: Seq<u8>,
    data: Seq<u8>,
    pos: int,
    hl: int,
    ps: int,
    end: int,
    has_size: bool,
    gs: int,
    np: Seq<u8>,
    h: FilmGrainHeader,
    c: GrainContext,
) -> bool {
    &&& out == old_out + data.subrange(pos, pos + hl) + size_field(
        data,
        pos + hl,
        ps,
        end,
        has_size,
        np.len(),
    ) + np
    &&& 0 <= gs <= (end - ps) * 8
    &&& gs + grain_header_bits(h, c).len() <= np.len() * 8
    &&& bits_of(np).subrange(0, gs) == bits_of(data.subrange(ps, end)).subrange(0, gs)
    &&& crate::grain::header_wf(h, c)
    &&& bits_of(np).subrange(gs, gs + grain_header_bits(h, c).len()) == grain_header_bits(h, c)
}

/// `out` is `old_out` followed by the OBU `data[pos..end]` with only bit
/// `flag_pos` of its payload (from `ps`) set to `flag`.
pub open spec fn rewritten_with_flag(
    old_out: Seq<u8>,
    out: Seq<u8>,
    data: Seq<u8>,
    pos: int,
    ps: int,
    end: int,
    flag_pos: int,
    flag: bool,
) -> bool {
    &&& out.len() == old_out.len() + (end - pos)
    &&& out.subrange(0, old_out.len() + (ps - pos)) == old_out + data.subrange(pos, ps)
    &&& bits_of(out.subrange(old_out.len() + (ps - pos), out.len() as int)) == bits_of(
        data.subrange(ps, end),
    ).update(flag_pos, flag)
}

/// The first `nbits` bits of `data`.
fn unpack_prefix(data: &[u8], nbits: usize) -> (r: Vec<bool>)
    requires
        data@.len() * 8 + 0x2000 <= usize::MAX,
        nbits <= data@.len() * 8,
    ensures
        r@ == bits_of(data@).subrange(0, nbits as int),
{
    let mut r: Vec<bool> = Vec::new();
    let mut rd = BitReader::new(data, 0);
    while rd.pos < nbits
        invariant
            rd.wf(),
            rd.data@ == data@,
            rd.pos <= nbits,
            nbits <= data@.len() * 8,
            r@ == bits_of(data@).subrange(0, rd.pos as int),
        decreases nbits - rd.pos,
    {
        let b = match rd.read_bit() {
            Ok(b) => b,
            Err(_) => false,
        };
        r.push(b);
        assert(r@ =~= bits_of(data@).subrange(0, rd.pos as int));
    }
    r
}

/// Whether two bit buffers are equal.
fn same_bits(a: &Vec<bool>, b: &Vec<bool>) -> (r: bool)
    ensures
        r == (a@ == b@),
{
    if a.len() != b.len() {
        return false;
    }
    let mut i: usize = 0;
    while i < a.len()
        invariant
            a@.len() == b@.len(),
            i <= a@.len(),
            forall|k: int| 0 <= k < i ==> a@[k] == b@[k],
        decreases a@.len() - i,
    {
        if a[i] != b[i] {
            return false;
        }
        i = i + 1;
    }
    assert(a@ =~= b@);
    true
}

/// The payload of a frame header with a new grain block: the header bits
/// before the block, the new block, then the closing bits (a one bit and
/// zeros for a frame header OBU, zeros for a frame OBU) up to a byte
/// boundary, followed for a frame OBU by the tile data from byte `tail`.
fn rebuild_frame_payload(
    payload: &[u8],
    grain_start: usize,
    new_bits: &Vec<bool>,
    is_frame: bool,
    tail: usize,
) -> (r: Vec<u8>)
    requires
        payload@.len() * 8 + 0x2000 <= usize::MAX,
        grain_start <= payload@.len() * 8,
        tail <= payload@.len(),
        new_bits@.len() <= 0x1000,
    ensures
        bits_of(r@).subrange(0, grain_start as int) == bits_of(payload@).subrange(
            0,
            grain_start as int,
        ),
        bits_of(r@).subrange(grain_start as int, grain_start + new_bits@.len()) == new_bits@,
        r@.len() * 8 >= grain_start + new_bits@.len(),
{
    let mut bits = unpack_prefix(payload, grain_start);
    let mut i: usize = 0;
    while i < new_bits.len()
        invariant
            i <= new_bits@.len(),
            bits@ == bits_of(payload@).subrange(0, grain_start as int) + new_bits@.subrange(
                0,
                i as int,
            ),
            grain_start <= payload@.len() * 8,
        decreases new_bits@.len() - i,
    {
        bits.push(new_bits[i]);
        i = i + 1;
        assert(bits@ =~= bits_of(payload@).subrange(0, grain_start as int) + new_bits@.subrange(
            0,
            i as int,
        ));
    }
    assert(new_bits@.subrange(0, new_bits@.len() as int) =~= new_bits@);
    let ghost written = bits@;
    if !is_frame {
        bits.push(true);
    }
    assert(bits@.subrange(0, written.len() as int) =~= written);
    let pad = (8 - bits.len() % 8) % 8;
    let mut j: usize = 0;
    while j < pad
        invariant
            j <= pad,
            pad < 8,
            written.len() <= bits@.len() <= written.len() + 1 + j,
            written.len() == grain_start + new_bits@.len(),
            grain_start <= payload@.len() * 8,
            payload@.len() * 8 + 0x2000 <= usize::MAX,
            new_bits@.len() <= 0x1000,
            bits@.subrange(0, written.len() as int) == written,
        decreases pad - j,
    {
        bits.push(false);
        j = j + 1;
        assert(bits@.subrange(0, written.len() as int) =~= written);
    }
    let mut r = pack_bits(&bits);
    proof {
        assert(bits_of(r@).subrange(0, written.len() as int) =~= written) by {
            assert(bits_of(r@).subrange(0, bits@.len() as int) == bits@);
        };
        assert(bits_of(r@).subrange(0, grain_start as int) =~= written.subrange(
            0,
            grain_start as int,
        ));
        assert(bits_of(r@).subrange(grain_start as int, grain_start + new_bits@.len())
            =~= written.subrange(grain_start as int, written.len() as int));
    }
    let ghost head = r@;
    if is_frame {
        append_range(&mut r, payload, tail, payload.len());
        proof {
            assert forall|k: int| 0 <= k < written.len() implies bits_of(r@)[k] == bits_of(
                head,
            )[k] by {
                assert(r@[k / 8] == head[k / 8]);
            }
            assert(bits_of(r@).subrange(0, grain_start as int) =~= bits_of(head).subrange(
                0,
                grain_start as int,
            ));
            assert(bits_of(r@).subrange(grain_start as int, grain_start + new_bits@.len())
                =~= bits_of(head).subrange(grain_start as int, grain_start + new_bits@.len()));
        }
    }
    r
}

impl BitstreamParser {
    /// The OBU at `pos` belongs to a layer outside the selected operating
    /// point, so it is skipped.
    pub open spec fn skips_layer(&self, data: Seq<u8>, pos: int) -> bool {
        let h = header_of(
            data[pos],
            if (data[pos] / 4) % 2 == 1 {
                data[pos + 1]
            } else {
                0
            },
        );
        &&& h.obu_type != ObuType::SequenceHeader
        &&& h.obu_type != ObuType::TemporalDelimiter
        &&& h.extension matches Some(ext)
        &&& self.sequence_header matches Some(sh)
        &&& sh.cur_operating_point_idc != 0
        &&& !((sh.cur_operating_point_idc >> ext.temporal_id as u16) & 1 == 1 && (
        sh.cur_operating_point_idc >> (ext.spatial_id as u16 + 8)) & 1 == 1)
    }

    /// The installed sequence header, if any, carries no film grain.
    pub open spec fn carries_no_grain(&self) -> bool {
        self.sequence_header matches Some(h) ==> !h.film_grain_params_present
    }

    pub open spec fn wf(&self) -> bool {
        &&& self.refs.wf()
        &&& self.sequence_header matches Some(h) ==> h.wf()
        &&& self.prev_tile_info matches Some(t) ==> t.wf()
    }

    /// A parser that only inspects.
    pub fn new() -> (r: BitstreamParser)
        ensures
            r.wf(),
            r.policy is None,
            r.grain_headers@.len() == 0,
    {
        BitstreamParser {
            policy: None,
            seen_frame_header: false,
            sequence_header: None,
            prev_tile_info: None,
            refs: RefState::new(),
            grain_headers: Vec::new(),
        }
    }

    /// A parser that rewrites: with a table it applies the table's grain,
    /// without one it removes grain.
    pub fn with_writer(incoming_grain_header: Option<Vec<GrainTableSegment>>) -> (r:
        BitstreamParser)
        ensures
            r.wf(),
            incoming_grain_header is None ==> r.policy == Some(GrainPolicy::Remove),
            incoming_grain_header matches Some(t) ==> r.policy == Some(GrainPolicy::Apply(t)),
    {
        let policy = match incoming_grain_header {
            Some(t) => GrainPolicy::Apply(t),
            None => GrainPolicy::Remove,
        };
        BitstreamParser::with_policy(policy)
    }

    /// A parser that rewrites with the given policy.
    pub fn with_policy(policy: GrainPolicy) -> (r: BitstreamParser)
        ensures
            r.wf(),
            r.policy == Some(policy),
    {
        BitstreamParser {
            policy: Some(policy),
            seen_frame_header: false,
            sequence_header: None,
            prev_tile_info: None,
            refs: RefState::new(),
            grain_headers: Vec::new(),
        }
    }

    /// The grain header of every shown frame parsed so far.
    pub fn get_grain_headers(&self) -> (r: &Vec<FilmGrainHeader>)
        ensures
            r@ == self.grain_headers@,
    {
        &self.grain_headers
    }

    /// The value the rewrite gives `film_grain_params_present`, given its old value.
    fn new_grain_flag(&self, old_flag: bool) -> (r: bool)
        requires
            self.policy is Some,
        ensures
            r == policy_flag(self.policy, old_flag),
    {
        match &self.policy {
            Some(GrainPolicy::Keep) => old_flag,
            Some(GrainPolicy::Remove) => false,
            _ => true,
        }
    }

    /// The grain block the rewrite writes into a frame whose block was
    /// `old_bits` (the code of `old_header`) under context `c`, shown at
    /// `packet_ts`: under `Keep` the old block; under `Remove` none (the flag
    /// is cleared); under `Apply` the code of `grain_for_timestamp` under the
    /// set flag. In every case it is the code of a header suiting the new
    /// context.
    fn replacement_bits(
        &self,
        c: GrainContext,
        old_bits: Vec<bool>,
        Ghost(old_header): Ghost<FilmGrainHeader>,
        packet_ts: u64,
    ) -> (r: Vec<bool>)
        requires
            self.policy is Some,
            old_bits@.len() <= 0x1000,
            crate::grain::header_wf(old_header, c),
            old_bits@ == grain_header_bits(old_header, c),
        ensures
            self.policy == Some(GrainPolicy::Keep) ==> r@ == old_bits@,
            self.policy == Some(GrainPolicy::Remove) ==> r@.len() == 0,
            exists|h: FilmGrainHeader|
                crate::grain::header_wf(h, new_ctx(self.policy, c)) && policy_header(
                    self.policy,
                    h,
                    packet_ts,
                    new_ctx(self.policy, c),
                ) && r@ == #[trigger] grain_header_bits(h, new_ctx(self.policy, c)),
            r@.len() <= 0x1000,
    {
        match &self.policy {
            Some(GrainPolicy::Apply(table)) => {
                let c2 = GrainContext { film_grain_params_present: true, ..c };
                let h = grain_for_timestamp(table, packet_ts, c2);
                let mut out: Vec<bool> = Vec::new();
                write_film_grain_params(&mut out, &h, c2);
                proof {
                    lemma_grain_bits_short(h, c2);
                    assert(out@ =~= grain_header_bits(h, c2));
                    assert(c2 == new_ctx(self.policy, c));
                    assert(policy_header(self.policy, h, packet_ts, c2));
                }
                out
            },
            Some(GrainPolicy::Remove) => {
                let ghost c2 = new_ctx(self.policy, c);
                assert(grain_header_bits(FilmGrainHeader::Disable, c2) =~= Seq::<bool>::empty());
                Vec::new()
            },
            _ => {
                assert(new_ctx(self.policy, c) == c);
                old_bits
            },
        }
    }

    /// Parses one OBU at byte `pos` of a packet and returns where it ends:
    /// after its header, size field and payload, or at the end of the packet
    /// when it has no size field. In rewrite mode the OBU, rewritten or
    /// copied, is appended to `out`. Under `Keep` it is copied unchanged.
    /// Under `Remove`, an OBU of a stream that already carries no grain is
    /// copied unchanged too, so stripping a stripped stream changes nothing.
    /// An OBU that carries no header this parser reads (metadata, padding,
    /// tile lists, reserved kinds, temporal delimiters) or that lies outside
    /// the selected operating point always succeeds when it is framed
    /// correctly, changes no state but the frame-header latch a temporal
    /// delimiter clears, and is copied unchanged. On failure the state is
    /// unchanged.
    #[verifier::rlimit(80)]
    pub fn parse_obu(&mut self, data: &[u8], pos: usize, packet_ts: u64, out: &mut Vec<u8>) -> (res:
        Result<usize, ParseError>)
        requires
            old(self).wf(),
            pos <= data@.len(),
            data@.len() * 8 + 0x2000 <= usize::MAX,
        ensures
            final(self).wf(),
            final(self).policy == old(self).policy,
            res is Err ==> *final(self) == *old(self),
            obu_extent(data@, pos as int) is None ==> res is Err,
            res matches Ok(end) ==> (obu_type_at(data@, pos as int) != ObuType::SequenceHeader
                ==> final(self).sequence_header == old(self).sequence_header),
            res matches Ok(end) ==> (obu_type_at(data@, pos as int) == ObuType::SequenceHeader
                ==> (final(self).sequence_header matches Some(h) && h.film_grain_params_present
                == bits_of(data@.subrange(obu_payload_start(data@, pos as int), end as int))[h.film_grain_flag_pos as int]
                && (old(self).policy is Some ==> rewritten_with_flag(
                old(out)@,
                final(out)@,
                data@,
                pos as int,
                obu_payload_start(data@, pos as int),
                end as int,
                h.film_grain_flag_pos as int,
                policy_flag(old(self).policy, h.film_grain_params_present),
            )))),
            res matches Ok(end) ==> (obu_type_at(data@, pos as int) == ObuType::RedundantFrameHeader
                && !old(self).skips_layer(data@, pos as int) ==> *final(self) == *old(self) && (old(
                self,
            ).policy is Some ==> final(out)@ == old(out)@ + data@.subrange(pos as int, end as int))),
            res matches Ok(end) ==> ((obu_type_at(data@, pos as int) == ObuType::Frame
                || obu_type_at(data@, pos as int) == ObuType::FrameHeader) && !old(self).skips_layer(
                data@,
                pos as int,
            ) && old(self).policy is Some ==> final(out)@ == old(out)@ + data@.subrange(
                pos as int,
                end as int,
            ) || exists|gs: int, np: Seq<u8>, h: FilmGrainHeader, c: GrainContext|
                #[trigger] frame_rewrite(
                    old(out)@,
                    final(out)@,
                    data@,
                    pos as int,
                    obu_header_at(data@, pos as int).spec_len() as int,
                    obu_payload_start(data@, pos as int),
                    end as int,
                    obu_header_at(data@, pos as int).has_size_field,
                    gs,
                    np,
                    h,
                    c,
                ) && c.film_grain_params_present == policy_flag(old(self).policy, seq_flag(old(self)))
                    && policy_header(old(self).policy, h, packet_ts, c)),
            obu_extent(data@, pos as int) matches Some(e) ==> (obu_type_at(data@, pos as int)
                == ObuType::TileGroup && (old(self).prev_tile_info is None || (e
                - obu_payload_start(data@, pos as int)) * 8 >= 25) ==> res is Ok),

            res is Ok ==> old(self).grain_headers@.len() <= final(self).grain_headers@.len() <= old(self).grain_headers@.len() + 1
                && final(self).grain_headers@.subrange(0, old(self).grain_headers@.len() as int)
                == old(self).grain_headers@,
            res is Ok && !seq_flag(old(self)) ==> forall|i: int|
                old(self).grain_headers@.len() <= i < final(self).grain_headers@.len()
                    ==> #[trigger] final(self).grain_headers@[i] is Disable,
            obu_extent(data@, pos as int) matches Some(e) ==> (is_plain_obu(data@, pos as int)
                || old(self).skips_layer(data@, pos as int) ==> {
                &&& res == Ok::<usize, ParseError>(e as usize)
                &&& final(self).seen_frame_header == (old(self).seen_frame_header && !(
                obu_type_at(data@, pos as int) == ObuType::TemporalDelimiter))
                &&& final(self).sequence_header == old(self).sequence_header
                &&& final(self).prev_tile_info == old(self).prev_tile_info
                &&& final(self).refs == old(self).refs
                &&& final(self).grain_headers == old(self).grain_headers
                &&& (old(self).policy is Some ==> final(out)@ == old(out)@ + data@.subrange(
                    pos as int,
                    e,
                ))
            }),
            res matches Ok(end) ==> obu_extent(data@, pos as int) == Some(end as int) && pos < end,
            res matches Ok(end) ==> (old(self).policy == Some(GrainPolicy::Keep) ==> final(out)@
                == old(out)@ + data@.subrange(pos as int, end as int)),
            res matches Ok(end) ==> (old(self).policy == Some(GrainPolicy::Remove)
                && old(self).carries_no_grain() && final(self).carries_no_grain() ==> final(out)@
                == old(out)@ + data@.subrange(pos as int, end as int)),
            old(self).policy is None ==> final(out)@ == old(out)@,
    {
        let (hdr, hl) = parse_obu_header(data, pos)?;
        let (size, leb_len): (usize, usize) = if hdr.has_size_field {
            let rr = leb128(data, pos + hl)?;
            let (v, n) = (rr.value, rr.bytes_read);
            if n > data.len() - pos - hl || v > (data.len() - pos - hl - n) as u64 {
                return Err(ParseError::UnexpectedEof);
            }
            (v as usize, n)
        } else {
            (data.len() - pos - hl, 0)
        };
        let payload_start = pos + hl + leb_len;
        let end = payload_start + size;
        proof {
            assert(obu_extent(data@, pos as int) == Some(end as int));
            assert(hdr == obu_header_at(data@, pos as int));
            assert(hl == obu_header_at(data@, pos as int).spec_len());
            assert(payload_start == obu_payload_start(data@, pos as int));
        }
        let ghost out0 = out@;
        let writing = self.policy.is_some();
        if hdr.obu_type != ObuType::SequenceHeader && hdr.obu_type != ObuType::TemporalDelimiter {
            if let Some(ext) = hdr.extension {
                if let Some(seq) = &self.sequence_header {
                    let idc = seq.cur_operating_point_idc;
                    if idc != 0 && ext.temporal_id < 8 && ext.spatial_id < 4 {
                        let in_temporal_layer = (idc >> ext.temporal_id as u16) & 1 == 1;
                        let in_spatial_layer = (idc >> (ext.spatial_id as u16 + 8)) & 1 == 1;
                        if !in_temporal_layer || !in_spatial_layer {
                            if writing {
                                append_range(out, data, pos, end);
                            }
                            return Ok(end);
                        }
                    }
                }
            }
        }
        match hdr.obu_type {
            ObuType::SequenceHeader => {
                self.parse_sequence_header(data, pos, payload_start, end, out)?;
            },
            ObuType::RedundantFrameHeader => {
                self.parse_redundant_frame_header(data, pos, payload_start, end, hdr.extension, out)?;
            },
            ObuType::FrameHeader => {
                self.parse_frame_header(data, pos, hl, payload_start, end, hdr.has_size_field, false, hdr.extension, packet_ts, out)?;
            },
            ObuType::Frame => {
                self.parse_frame_obu(data, pos, hl, payload_start, end, hdr.has_size_field, hdr.extension, packet_ts, out)?;
            },
            ObuType::TemporalDelimiter => {
                self.seen_frame_header = false;
                if writing {
                    append_range(out, data, pos, end);
                }
            },
            ObuType::TileGroup => {
                self.parse_tile_group_obu(data, pos, payload_start, end, out)?;
            },
            _ => {
                if writing {
                    append_range(out, data, pos, end);
                }
            },
        }
        Ok(end)
    }

    /// Handles a sequence header OBU spanning `pos..end` with its payload from
    /// `payload_start`: installs it and, when rewriting, writes it with the
    /// `film_grain_params_present` bit set to what the policy gives (cleared
    /// by `Remove`, set by `Apply`, kept by `Keep`) and every other byte
    /// unchanged. On failure the state is unchanged.
    pub fn parse_sequence_header(
        &mut self,
        data: &[u8],
        pos: usize,
        payload_start: usize,
        end: usize,
        out: &mut Vec<u8>,
    ) -> (res: Result<(), ParseError>)
        requires
            old(self).wf(),
            pos <= payload_start <= end <= data@.len(),
            data@.len() * 8 + 0x2000 <= usize::MAX,
        ensures
            final(self).wf(),
            final(self).policy == old(self).policy,
            res is Err ==> *final(self) == *old(self),
            res is Ok ==> {
                &&& final(self).sequence_header matches Some(h) && h.film_grain_params_present
                    == bits_of(data@.subrange(payload_start as int, end as int))[h.film_grain_flag_pos as int]
                    && h.film_grain_flag_pos < (end - payload_start) * 8
                &&& final(self).seen_frame_header == old(self).seen_frame_header
                &&& final(self).prev_tile_info == old(self).prev_tile_info
                &&& final(self).refs == old(self).refs
                &&& final(self).grain_headers == old(self).grain_headers
            },
            res is Ok && old(self).policy is Some ==> (final(self).sequence_header matches Some(h)
                && rewritten_with_flag(
                old(out)@,
                final(out)@,
                data@,
                pos as int,
                payload_start as int,
                end as int,
                h.film_grain_flag_pos as int,
                policy_flag(old(self).policy, h.film_grain_params_present),
            )),
            res is Ok && old(self).policy == Some(GrainPolicy::Keep) ==> final(out)@ == old(out)@
                + data@.subrange(pos as int, end as int),
            res is Ok && old(self).policy == Some(GrainPolicy::Remove) && old(self).carries_no_grain()
                && final(self).carries_no_grain() ==> final(out)@ == old(out)@ + data@.subrange(
                pos as int,
                end as int,
            ),
            old(self).policy is None ==> final(out)@ == old(out)@,
    {
        let payload = vstd::slice::slice_subrange(data, payload_start, end);
        let mut r = BitReader::new(payload, 0);
        let h = crate::sequence::parse_sequence_header(&mut r)?;
        let ghost pb = bits_of(payload@);
        let ghost fp = h.film_grain_flag_pos as int;
        let ghost o0 = out@;
        if self.policy.is_some() {
            let new_flag = self.new_grain_flag(h.film_grain_params_present);
            if new_flag == h.film_grain_params_present {
                append_range(out, data, pos, end);
                proof {
                    assert(pb.update(fp, new_flag) =~= pb);
                    assert(out@.subrange(0, o0.len() + (payload_start - pos)) =~= o0
                        + data@.subrange(pos as int, payload_start as int));
                    assert(out@.subrange(o0.len() + (payload_start - pos), out@.len() as int)
                        =~= payload@);
                }
            } else {
                let mut bits = unpack_prefix(payload, payload.len() * 8);
                bits.set(h.film_grain_flag_pos, new_flag);
                let new_payload = pack_bits(&bits);
                append_range(out, data, pos, payload_start);
                let ghost o1 = out@;
                append_bytes(out, &new_payload);
                proof {
                    assert(pb.subrange(0, pb.len() as int) =~= pb);
                    assert(bits_of(new_payload@) =~= bits_of(new_payload@).subrange(0, bits@.len() as int));
                    assert(out@.subrange(0, o0.len() + (payload_start - pos)) =~= o1);
                    assert(out@.subrange(o0.len() + (payload_start - pos), out@.len() as int)
                        =~= new_payload@);
                }
            }
        }
        self.sequence_header = Some(h);
        Ok(())
    }

    /// Handles a frame header, redundant frame header or frame OBU. Once a
    /// frame header has been seen and its tiles are not all read, the OBU
    /// repeats that header: it is copied and changes nothing. Otherwise the
    /// header is parsed against the installed sequence header (an error
    /// when there is none), the reference updates are committed, the grain
    /// header of a shown frame is recorded, and when rewriting the OBU is
    /// copied or written with its grain block replaced and its size field
    /// holding the new payload length. A stream without grain records only
    /// `Disable`. On failure the state is unchanged.
    #[verifier::rlimit(100)]
    pub fn parse_frame_header(
        &mut self,
        data: &[u8],
        pos: usize,
        hl: usize,
        payload_start: usize,
        end: usize,
        has_size_field: bool,
        is_frame: bool,
        extension: Option<crate::obu::ObuExtension>,
        packet_ts: u64,
        out: &mut Vec<u8>,
    ) -> (res: Result<(), ParseError>)
        requires
            old(self).wf(),
            pos + hl <= payload_start <= end <= data@.len(),
            data@.len() * 8 + 0x2000 <= usize::MAX,
        ensures
            final(self).wf(),
            final(self).policy == old(self).policy,
            res is Err ==> *final(self) == *old(self),
            !old(self).seen_frame_header && old(self).sequence_header is None ==> res
                == Err::<(), ParseError>(ParseError::SequenceHeaderMissing),
            res is Ok && old(self).seen_frame_header ==> *final(self) == *old(self) && (old(
                self,
            ).policy is Some ==> final(out)@ == old(out)@ + data@.subrange(pos as int, end as int)),
            old(self).seen_frame_header ==> res is Ok,
            res is Ok ==> final(self).sequence_header == old(self).sequence_header
                && old(self).grain_headers@.len() <= final(self).grain_headers@.len() <= old(self).grain_headers@.len() + 1
                && final(self).grain_headers@.subrange(0, old(self).grain_headers@.len() as int)
                == old(self).grain_headers@,
            res is Ok && !seq_flag(old(self)) ==> forall|i: int|
                old(self).grain_headers@.len() <= i < final(self).grain_headers@.len()
                    ==> #[trigger] final(self).grain_headers@[i] is Disable,
            res is Ok && old(self).policy is Some ==> final(out)@ == old(out)@ + data@.subrange(
                pos as int,
                end as int,
            ) || exists|gs: int, np: Seq<u8>, h: FilmGrainHeader, c: GrainContext|
                #[trigger] frame_rewrite(
                    old(out)@,
                    final(out)@,
                    data@,
                    pos as int,
                    hl as int,
                    payload_start as int,
                    end as int,
                    has_size_field,
                    gs,
                    np,
                    h,
                    c,
                ) && c.film_grain_params_present == policy_flag(old(self).policy, seq_flag(old(self)))
                    && policy_header(old(self).policy, h, packet_ts, c),
            res is Ok && old(self).policy == Some(GrainPolicy::Keep) ==> final(out)@ == old(out)@
                + data@.subrange(pos as int, end as int),
            res is Ok && old(self).policy == Some(GrainPolicy::Remove) && old(self).carries_no_grain()
                && final(self).carries_no_grain() ==> final(out)@ == old(out)@ + data@.subrange(
                pos as int,
                end as int,
            ),
            old(self).policy is None ==> final(out)@ == old(out)@,
            res is Ok && !old(self).seen_frame_header && !is_frame ==> (old(self).sequence_header matches Some(
                sh,
            ) && final(self).seen_frame_header == !(!sh.reduced_still_picture_header && bits_of(
                data@.subrange(payload_start as int, end as int),
            )[0])),
    {
        let writing = self.policy.is_some();
        if self.seen_frame_header {
            if writing {
                append_range(out, data, pos, end);
            }
            return Ok(());
        }
        let seq = match &self.sequence_header {
            Some(s) => s,
            None => {
                return Err(ParseError::SequenceHeaderMissing);
            },
        };
        let payload = vstd::slice::slice_subrange(data, payload_start, end);
        let mut r = BitReader::new(payload, 0);
        let mut refs = self.refs.duplicate();
        let h = uncompressed_header(&mut r, seq, &mut refs, extension, self.prev_tile_info)?;
        let header_end = r.pos;
        let ghost block = grain_header_bits(h.film_grain_params, h.grain_ctx);
        let ghost no_grain_before = old(self).carries_no_grain();
        proof {
            if no_grain_before && !h.show_existing_frame {
                assert(!h.grain_ctx.film_grain_params_present);
                assert(block =~= Seq::<bool>::empty());
            }
        }
        let tail = (header_end + 7) / 8;
        let mut seen = !h.show_existing_frame;
        if is_frame {
            let tg = slice_from(payload, tail);
            let mut tr = BitReader::new(tg, 0);
            if last_tile_group(&mut tr, h.tile_info)? {
                seen = false;
            }
        }
        let grain_start = h.grain_start;
        let show_existing = h.show_existing_frame;
        let ctx = h.grain_ctx;
        let tile_info = h.tile_info;
        let ghost gh = h.film_grain_params;
        // The rewritten payload, when the block changes.
        let mut plan: Option<Vec<u8>> = None;
        let ghost mut new_block: Seq<bool> = Seq::empty();
        let ghost mut new_header: FilmGrainHeader = FilmGrainHeader::Disable;
        if writing && !show_existing && header_end - grain_start <= 0x1000 {
            let all = unpack_prefix(payload, header_end);
            let old_bits = tail_bits(&all, grain_start);
            proof {
                assert(old_bits@ =~= bits_of(payload@).subrange(grain_start as int, header_end as int));
            }
            let new_bits = self.replacement_bits(ctx, old_bits, Ghost(gh), packet_ts);
            let old_again = tail_bits(&all, grain_start);
            proof {
                assert(old_again@ =~= bits_of(payload@).subrange(grain_start as int, header_end as int));
                if no_grain_before && self.policy == Some(GrainPolicy::Remove) {
                    assert(old_again@ =~= Seq::<bool>::empty());
                    assert(new_bits@ =~= old_again@);
                }
                new_header = choose|hh: FilmGrainHeader|
                    crate::grain::header_wf(hh, new_ctx(self.policy, ctx)) && policy_header(
                        self.policy,
                        hh,
                        packet_ts,
                        new_ctx(self.policy, ctx),
                    ) && new_bits@ == #[trigger] grain_header_bits(hh, new_ctx(self.policy, ctx));
                new_block = new_bits@;
            }
            if !same_bits(&new_bits, &old_again) {
                let new_payload = rebuild_frame_payload(payload, grain_start, &new_bits, is_frame, tail);
                if new_payload.len() as u64 >= 0x1_0000_0000u64 {
                    return Err(ParseError::LengthMismatch);
                }
                plan = Some(new_payload);
            }
        }
        self.refs = refs;
        self.prev_tile_info = Some(tile_info);
        self.seen_frame_header = seen;
        if h.show_frame {
            self.grain_headers.push(h.film_grain_params);
            proof {
                assert(self.grain_headers@.subrange(0, old(self).grain_headers@.len() as int)
                    =~= old(self).grain_headers@);
            }
        } else {
            assert(self.grain_headers@.subrange(0, old(self).grain_headers@.len() as int)
                =~= old(self).grain_headers@);
        }
        if !writing {
            return Ok(());
        }
        match plan {
            None => {
                append_range(out, data, pos, end);
            },
            Some(new_payload) => {
                let ghost o0 = out@;
                append_range(out, data, pos, pos + hl);
                let ghost o1 = out@;
                if has_size_field {
                    if new_payload.len() == end - payload_start {
                        append_range(out, data, pos + hl, payload_start);
                    } else {
                        let size_bytes = leb128_write(new_payload.len() as u32);
                        append_bytes(out, &size_bytes);
                    }
                }
                let ghost o2 = out@;
                append_bytes(out, &new_payload);
                proof {
                    let c2 = new_ctx(self.policy, ctx);
                    assert(ctx.film_grain_params_present == seq_flag(old(self)));
                    assert(o2 =~= o0 + data@.subrange(pos as int, pos + hl) + size_field(
                        data@,
                        pos + hl,
                        payload_start as int,
                        end as int,
                        has_size_field,
                        new_payload@.len(),
                    ));
                    crate::grain::lemma_grain_bits_len(new_header, c2);
                    assert(crate::grain::header_wf(new_header, c2));
                    assert(new_block == grain_header_bits(new_header, c2));
                    assert(out@ == o0 + data@.subrange(pos as int, pos + hl) + size_field(
                        data@,
                        pos + hl,
                        payload_start as int,
                        end as int,
                        has_size_field,
                        new_payload@.len(),
                    ) + new_payload@);
                    assert(frame_rewrite(
                        o0,
                        out@,
                        data@,
                        pos as int,
                        hl as int,
                        payload_start as int,
                        end as int,
                        has_size_field,
                        grain_start as int,
                        new_payload@,
                        new_header,
                        c2,
                    ));
                }
            },
        }
        Ok(())
    }

    /// Handles a redundant frame header OBU: a copy of the current frame's
    /// header. It is parsed (against a copy of the reference state when no
    /// header is latched) but changes no state, and it is copied unchanged.
    pub fn parse_redundant_frame_header(
        &mut self,
        data: &[u8],
        pos: usize,
        payload_start: usize,
        end: usize,
        extension: Option<crate::obu::ObuExtension>,
        out: &mut Vec<u8>,
    ) -> (res: Result<(), ParseError>)
        requires
            old(self).wf(),
            pos <= payload_start <= end <= data@.len(),
            data@.len() * 8 + 0x2000 <= usize::MAX,
        ensures
            *final(self) == *old(self),
            res is Ok && old(self).policy is Some ==> final(out)@ == old(out)@ + data@.subrange(
                pos as int,
                end as int,
            ),
            old(self).policy is None ==> final(out)@ == old(out)@,
            old(self).seen_frame_header ==> res is Ok,
            !old(self).seen_frame_header && old(self).sequence_header is None ==> res
                == Err::<(), ParseError>(ParseError::SequenceHeaderMissing),
    {
        if !self.seen_frame_header {
            let seq = match &self.sequence_header {
                Some(s) => s,
                None => {
                    return Err(ParseError::SequenceHeaderMissing);
                },
            };
            let payload = vstd::slice::slice_subrange(data, payload_start, end);
            let mut r = BitReader::new(payload, 0);
            let mut scratch = self.refs.duplicate();
            let _h = uncompressed_header(&mut r, seq, &mut scratch, extension, self.prev_tile_info)?;
        }
        if self.policy.is_some() {
            append_range(out, data, pos, end);
        }
        Ok(())
    }

    /// Handles a frame OBU: a frame header followed by a tile group.
    pub fn parse_frame_obu(
        &mut self,
        data: &[u8],
        pos: usize,
        hl: usize,
        payload_start: usize,
        end: usize,
        has_size_field: bool,
        extension: Option<crate::obu::ObuExtension>,
        packet_ts: u64,
        out: &mut Vec<u8>,
    ) -> (res: Result<(), ParseError>)
        requires
            old(self).wf(),
            pos + hl <= payload_start <= end <= data@.len(),
            data@.len() * 8 + 0x2000 <= usize::MAX,
        ensures
            final(self).wf(),
            final(self).policy == old(self).policy,
            res is Err ==> *final(self) == *old(self),
            !old(self).seen_frame_header && old(self).sequence_header is None ==> res
                == Err::<(), ParseError>(ParseError::SequenceHeaderMissing),
            res is Ok && old(self).seen_frame_header ==> *final(self) == *old(self) && (old(
                self,
            ).policy is Some ==> final(out)@ == old(out)@ + data@.subrange(pos as int, end as int)),
            old(self).seen_frame_header ==> res is Ok,
            res is Ok ==> final(self).sequence_header == old(self).sequence_header
                && old(self).grain_headers@.len() <= final(self).grain_headers@.len() <= old(self).grain_headers@.len() + 1
                && final(self).grain_headers@.subrange(0, old(self).grain_headers@.len() as int)
                == old(self).grain_headers@,
            res is Ok && !seq_flag(old(self)) ==> forall|i: int|
                old(self).grain_headers@.len() <= i < final(self).grain_headers@.len()
                    ==> #[trigger] final(self).grain_headers@[i] is Disable,
            res is Ok && old(self).policy is Some ==> final(out)@ == old(out)@ + data@.subrange(
                pos as int,
                end as int,
            ) || exists|gs: int, np: Seq<u8>, h: FilmGrainHeader, c: GrainContext|
                #[trigger] frame_rewrite(
                    old(out)@,
                    final(out)@,
                    data@,
                    pos as int,
                    hl as int,
                    payload_start as int,
                    end as int,
                    has_size_field,
                    gs,
                    np,
                    h,
                    c,
                ) && c.film_grain_params_present == policy_flag(old(self).policy, seq_flag(old(self)))
                    && policy_header(old(self).policy, h, packet_ts, c),
            res is Ok && old(self).policy == Some(GrainPolicy::Keep) ==> final(out)@ == old(out)@
                + data@.subrange(pos as int, end as int),
            res is Ok && old(self).policy == Some(GrainPolicy::Remove) && old(self).carries_no_grain()
                && final(self).carries_no_grain() ==> final(out)@ == old(out)@ + data@.subrange(
                pos as int,
                end as int,
            ),
            old(self).policy is None ==> final(out)@ == old(out)@,
    {
        self.parse_frame_header(
            data,
            pos,
            hl,
            payload_start,
            end,
            has_size_field,
            true,
            extension,
            packet_ts,
            out,
        )
    }

    /// Handles a tile group OBU: the frame's tiles are all seen once a group
    /// ends with its last tile. The OBU itself is copied unchanged.
    pub fn parse_tile_group_obu(
        &mut self,
        data: &[u8],
        pos: usize,
        payload_start: usize,
        end: usize,
        out: &mut Vec<u8>,
    ) -> (res: Result<(), ParseError>)
        requires
            old(self).wf(),
            pos <= payload_start <= end <= data@.len(),
            data@.len() * 8 + 0x2000 <= usize::MAX,
        ensures
            final(self).wf(),
            final(self).policy == old(self).policy,
            res is Ok && old(self).policy is Some ==> final(out)@ == old(out)@ + data@.subrange(
                pos as int,
                end as int,
            ),
            old(self).policy is None ==> final(out)@ == old(out)@,
            res is Err ==> *final(self) == *old(self),
            res is Ok ==> *final(self) == (BitstreamParser {
                seen_frame_header: old(self).seen_frame_header && !(old(self).prev_tile_info matches Some(
                    t,
                ) && tile_group_last(bits_of(data@.subrange(payload_start as int, end as int)), 0, t)),
                ..*old(self)
            }),
            old(self).prev_tile_info is None || (end - payload_start) * 8 >= 25 ==> res is Ok,
    {
        if let Some(t) = self.prev_tile_info {
            let payload = vstd::slice::slice_subrange(data, payload_start, end);
            let mut r = BitReader::new(payload, 0);
            if last_tile_group(&mut r, t)? {
                self.seen_frame_header = false;
            }
        }
        if self.policy.is_some() {
            append_range(out, data, pos, end);
        }
        Ok(())
    }

    /// Parses every OBU of a packet. In rewrite mode returns the rewritten
    /// packet, which under `Keep` is the packet itself; when inspecting,
    /// returns an empty buffer.
    pub fn parse_packet(&mut self, data: &[u8], packet_ts: u64) -> (res: Result<Vec<u8>, ParseError>)
        requires
            old(self).wf(),
            data@.len() * 8 + 0x2000 <= usize::MAX,
        ensures
            final(self).wf(),
            final(self).policy == old(self).policy,
            res matches Ok(v) ==> (old(self).policy == Some(GrainPolicy::Keep) ==> v@ == data@),
            res matches Ok(v) ==> (old(self).policy is None ==> v@.len() == 0),
            res is Ok ==> final(self).grain_headers@.len() >= old(self).grain_headers@.len()
                && final(self).grain_headers@.subrange(0, old(self).grain_headers@.len() as int)
                == old(self).grain_headers@,
            plain_from(data@, 0) ==> (res matches Ok(v) && (old(self).policy is Some ==> v@
                == data@) && final(self).sequence_header == old(self).sequence_header
                && final(self).refs == old(self).refs && final(self).grain_headers
                == old(self).grain_headers),
            res is Ok && no_seq_from(data@, 0) ==> final(self).sequence_header
                == old(self).sequence_header,
            res matches Ok(v) ==> (no_seq_from(data@, 0) && old(self).policy == Some(
                GrainPolicy::Remove,
            ) && old(self).carries_no_grain() ==> v@ == data@),
            res is Ok && no_seq_from(data@, 0) && !seq_flag(old(self)) ==> forall|i: int|
                old(self).grain_headers@.len() <= i < final(self).grain_headers@.len()
                    ==> #[trigger] final(self).grain_headers@[i] is Disable,
    {
        let mut out: Vec<u8> = Vec::new();
        let mut pos: usize = 0;
        while pos < data.len()
            invariant
                self.wf(),
                self.policy == old(self).policy,
                pos <= data@.len(),
                data@.len() * 8 + 0x2000 <= usize::MAX,
                self.policy == Some(GrainPolicy::Keep) ==> out@ == data@.subrange(0, pos as int),
                self.policy is None ==> out@.len() == 0,
                self.grain_headers@.len() >= old(self).grain_headers@.len(),
                self.grain_headers@.subrange(0, old(self).grain_headers@.len() as int)
                    == old(self).grain_headers@,
                no_seq_from(data@, 0) ==> no_seq_from(data@, pos as int) && self.sequence_header
                    == old(self).sequence_header && (self.policy == Some(GrainPolicy::Remove)
                    && old(self).carries_no_grain() ==> out@ == data@.subrange(0, pos as int))
                    && (!seq_flag(old(self)) ==> forall|i: int|
                    old(self).grain_headers@.len() <= i < self.grain_headers@.len()
                        ==> #[trigger] self.grain_headers@[i] is Disable),
                plain_from(data@, 0) ==> plain_from(data@, pos as int) && (self.policy is Some
                    ==> out@ == data@.subrange(0, pos as int)) && self.sequence_header
                    == old(self).sequence_header && self.refs == old(self).refs
                    && self.grain_headers == old(self).grain_headers,
            decreases data@.len() - pos,
        {
            let ghost before = out@;
            let ghost gh = self.grain_headers@;
            let end = self.parse_obu(data, pos, packet_ts, &mut out)?;
            proof {
                if self.policy == Some(GrainPolicy::Keep) {
                    assert(out@ =~= data@.subrange(0, end as int));
                }
                assert(self.grain_headers@.subrange(0, old(self).grain_headers@.len() as int)
                    =~= gh.subrange(0, old(self).grain_headers@.len() as int));
                if plain_from(data@, 0) {
                    if self.policy is Some {
                        assert(out@ =~= data@.subrange(0, end as int));
                    }
                }
                if no_seq_from(data@, 0) {
                    if self.policy == Some(GrainPolicy::Remove) && old(self).carries_no_grain() {
                        assert(out@ =~= data@.subrange(0, end as int));
                    }
                    assert forall|i: int|
                        old(self).grain_headers@.len() <= i < self.grain_headers@.len()
                            && !seq_flag(old(self)) implies #[trigger] self.grain_headers@[i] is Disable by {
                        if i < gh.len() {
                            assert(self.grain_headers@[i] == gh[i]);
                        }
                    }
                }
            }
            pos = end;
        }
        assert(data@.subrange(0, data@.len() as int) =~= data@);
        Ok(out)
    }
}

/// From byte `pos` on, the packet is a sequence of correctly framed OBUs
/// none of which is a sequence header.
pub open spec fn no_seq_from(data: Seq<u8>, pos: int) -> bool
    decreases data.len() - pos,
{
    if pos < 0 || pos > data.len() {
        false
    } else if pos == data.len() {
        true
    } else {
        match obu_extent(data, pos) {
            Some(e) => pos < e && obu_type_at(data, pos) != ObuType::SequenceHeader && no_seq_from(
                data,
                e,
            ),
            None => false,
        }
    }
}

/// From byte `pos` on, the packet is a sequence of correctly framed OBUs
/// whose content this parser does not read.
pub open spec fn plain_from(data: Seq<u8>, pos: int) -> bool
    decreases data.len() - pos,
{
    if pos < 0 || pos > data.len() {
        false
    } else if pos == data.len() {
        true
    } else {
        match obu_extent(data, pos) {
            Some(e) => pos < e && is_plain_obu(data, pos) && plain_from(data, e),
            None => false,
        }
    }
}

/// The index of the first segment of `table` whose time span holds `ts`,
/// or the table's length when none does.
pub open spec fn first_cover(table: Seq<GrainTableSegment>, ts: u64) -> int
    decreases table.len(),
{
    if table.len() == 0 {
        0
    } else if first_cover(table.drop_last(), ts) < table.len() - 1 {
        first_cover(table.drop_last(), ts)
    } else if table.last().start_time <= ts && ts < table.last().end_time {
        table.len() - 1
    } else {
        table.len() as int
    }
}

proof fn lemma_first_cover_step(table: Seq<GrainTableSegment>, ts: u64, i: int)
    requires
        0 <= i < table.len(),
        first_cover(table.subrange(0, i), ts) == i,
    ensures
        first_cover(table.subrange(0, i + 1), ts) == if table[i].start_time <= ts && ts
            < table[i].end_time {
            i
        } else {
            i + 1
        },
{
    assert(table.subrange(0, i + 1).drop_last() =~= table.subrange(0, i));
}

proof fn lemma_first_cover_prefix(table: Seq<GrainTableSegment>, ts: u64, i: int)
    requires
        0 <= i < table.len(),
        first_cover(table.subrange(0, i + 1), ts) == i,
    ensures
        first_cover(table, ts) == i,
    decreases table.len() - i,
{
    if i + 1 == table.len() {
        assert(table.subrange(0, i + 1) =~= table);
    } else {
        let n = table.len() - 1;
        assert(table.subrange(0, n).subrange(0, i + 1) =~= table.subrange(0, i + 1));
        lemma_first_cover_prefix(table.subrange(0, n), ts, i);
        assert(table.drop_last() =~= table.subrange(0, n));
    }
}

/// The grain header that applying `table` gives a frame shown at `ts`: the
/// parameters of the first segment whose span holds `ts`, fitted to the
/// frame (unchanged when they already suit it), or no grain when no segment
/// holds `ts` or the frame carries no grain block.
pub fn grain_for_timestamp(table: &Vec<GrainTableSegment>, ts: u64, c: GrainContext) -> (r:
    FilmGrainHeader)
    ensures
        crate::grain::header_wf(r, c),
        !c.has_block() || first_cover(table@, ts) >= table@.len() ==> r is Disable,
        c.has_block() && first_cover(table@, ts) < table@.len() ==> (r matches FilmGrainHeader::UpdateGrain(p)
            && (crate::grain::params_wf(table@[first_cover(table@, ts)].grain_params, c) ==> p@
            == table@[first_cover(table@, ts)].grain_params@)),
{
    if !(c.film_grain_params_present && (c.show_frame || c.showable_frame)) {
        return FilmGrainHeader::Disable;
    }
    let mut i: usize = 0;
    proof {
        assert(table@.subrange(0, 0) =~= Seq::<GrainTableSegment>::empty());
    }
    while i < table.len()
        invariant
            i <= table@.len(),
            first_cover(table@.subrange(0, i as int), ts) == i,
            c.has_block(),
        decreases table@.len() - i,
    {
        proof {
            lemma_first_cover_step(table@, ts, i as int);
        }
        if table[i].start_time <= ts && ts < table[i].end_time {
            proof {
                lemma_first_cover_prefix(table@, ts, i as int);
            }
            return FilmGrainHeader::UpdateGrain(fit_params(&table[i].grain_params, c));
        }
        i = i + 1;
    }
    assert(table@.subrange(0, table@.len() as int) =~= table@);
    FilmGrainHeader::Disable
}

/// The bits of `all` from `from` on.
fn tail_bits(all: &Vec<bool>, from: usize) -> (r: Vec<bool>)
    requires
        from <= all@.len(),
    ensures
        r@ == all@.subrange(from as int, all@.len() as int),
{
    let mut r: Vec<bool> = Vec::new();
    let mut i: usize = from;
    while i < all.len()
        invariant
            from <= i <= all@.len(),
            r@ == all@.subrange(from as int, i as int),
        decreases all@.len() - i,
    {
        r.push(all[i]);
        i = i + 1;
        assert(r@ =~= all@.subrange(from as int, i as int));
    }
    r
}

/// The bytes of `data` from `from` on (none when `from` is past the end).
fn slice_from(data: &[u8], from: usize) -> (r: &[u8])
    ensures
        from <= data@.len() ==> r@ == data@.subrange(from as int, data@.len() as int),
        r@.len() <= data@.len(),
{
    if from <= data.len() {
        vstd::slice::slice_subrange(data, from, data.len())
    } else {
        vstd::slice::slice_subrange(data, data.len(), data.len())
    }
}

/// Whether the tile group whose header starts at bit `pos` ends with the
/// frame's last tile: a frame of one tile, a group without start and end
/// fields, or one whose end field names the last tile.
pub open spec fn tile_group_last(bits: Seq<bool>, pos: int, t: TileInfo) -> bool {
    let num_tiles = t.tile_cols * t.tile_rows;
    let tb = t.tile_cols_log2 + t.tile_rows_log2;
    num_tiles == 1 || !bits[pos] || crate::bits::bits_value(
        bits.subrange(pos + 1 + tb, pos + 1 + 2 * tb),
    ) == num_tiles - 1
}

/// Reads a tile group header and tells whether the group ends with the
/// frame's last tile.
pub fn last_tile_group(r: &mut BitReader, tile_info: TileInfo) -> (res: Result<bool, ParseError>)
    requires
        old(r).wf(),
    ensures
        final(r).wf(),
        final(r).data@ == old(r).data@,
        res matches Ok(b) ==> b == tile_group_last(old(r).bits(), old(r).pos as int, tile_info),
        tile_info.wf() && old(r).remaining() >= 1 + 2 * (tile_info.tile_cols_log2
            + tile_info.tile_rows_log2) ==> res is Ok,
{
    if tile_info.tile_cols == 0 || tile_info.tile_rows == 0 || tile_info.tile_cols > 64
        || tile_info.tile_rows > 64 || tile_info.tile_cols_log2 > 6 || tile_info.tile_rows_log2
        > 6 {
        return Err(ParseError::InvalidValue);
    }
    assert(tile_info.tile_cols * tile_info.tile_rows <= 4096) by (nonlinear_arith)
        requires
            tile_info.tile_cols <= 64,
            tile_info.tile_rows <= 64,
    ;
    assert(tile_info.tile_cols * tile_info.tile_rows >= 1) by (nonlinear_arith)
        requires
            tile_info.tile_cols >= 1,
            tile_info.tile_rows >= 1,
    ;
    let num_tiles = tile_info.tile_cols * tile_info.tile_rows;
    if num_tiles == 1 {
        return Ok(true);
    }
    let tile_start_and_end_present = r.read_bool()?;
    if !tile_start_and_end_present {
        return Ok(true);
    }
    let tile_bits = (tile_info.tile_cols_log2 + tile_info.tile_rows_log2) as usize;
    let _tg_start = r.read_bits(tile_bits)?;
    let tg_end = r.read_bits(tile_bits)?;
    Ok(tg_end == (num_tiles - 1) as u64)
}

/// A grain block is at most a few hundred bits.
proof fn lemma_grain_bits_short(h: FilmGrainHeader, c: GrainContext)
    requires
        crate::grain::header_wf(h, c),
    ensures
        grain_header_bits(h, c).len() <= 0x1000,
{
    crate::grain::lemma_grain_bits_len(h, c);
}

} // verus!

//! OBU headers: the one- or two-byte envelope in front of every OBU.
use vstd::prelude::*;

use crate::error::ParseError;

verus! {

/// The kind of an OBU.
#[derive(Debug, Clone, Copy, PartialEq, Eq, Structural)]
pub enum ObuType {
    Reserved0,
    SequenceHeader,
    TemporalDelimiter,
    FrameHeader,
    TileGroup,
    Metadata,
    Frame,
    RedundantFrameHeader,
    TileList,
    Reserved9,
    Reserved10,
    Reserved11,
    Reserved12,
    Reserved13,
    Reserved14,
    Padding,
}

impl ObuType {
    /// The four-bit value that codes this kind.
    pub open spec fn code(self) -> u8 {
        match self {
            ObuType::Reserved0 => 0,
            ObuType::SequenceHeader => 1,
            ObuType::TemporalDelimiter => 2,
            ObuType::FrameHeader => 3,
            ObuType::TileGroup => 4,
            ObuType::Metadata => 5,
            ObuType::Frame => 6,
            ObuType::RedundantFrameHeader => 7,
            ObuType::TileList => 8,
            ObuType::Reserved9 => 9,
            ObuType::Reserved10 => 10,
            ObuType::Reserved11 => 11,
            ObuType::Reserved12 => 12,
            ObuType::Reserved13 => 13,
            ObuType::Reserved14 => 14,
            ObuType::Padding => 15,
        }
    }

    /// The kind coded by a four-bit value.
    pub fn from_code(v: u8) -> (r: ObuType)
        requires
            v < 16,
        ensures
            r.code() == v,
    {
        match v {
            0 => ObuType::Reserved0,
            1 => ObuType::SequenceHeader,
            2 => ObuType::TemporalDelimiter,
            3 => ObuType::FrameHeader,
            4 => ObuType::TileGroup,
            5 => ObuType::Metadata,
            6 => ObuType::Frame,
            7 => ObuType::RedundantFrameHeader,
            8 => ObuType::TileList,
            9 => ObuType::Reserved9,
            10 => ObuType::Reserved10,
            11 => ObuType::Reserved11,
            12 => ObuType::Reserved12,
            13 => ObuType::Reserved13,
            14 => ObuType::Reserved14,
            _ => ObuType::Padding,
        }
    }
}

/// The layer an OBU belongs to.
#[derive(Debug, Clone, Copy, PartialEq, Eq, Structural)]
pub struct ObuExtension {
    pub temporal_id: u8,
    pub spatial_id: u8,
}

/// A parsed OBU header.
#[derive(Debug, Clone, Copy, PartialEq, Eq, Structural)]
pub struct ObuHeader {
    pub obu_type: ObuType,
    pub has_size_field: bool,
    pub extension: Option<ObuExtension>,
}

impl ObuHeader {
    /// The number of bytes the header takes.
    pub open spec fn spec_len(self) -> nat {
        if self.extension is Some {
            2
        } else {
            1
        }
    }
}

/// What a well-formed header byte (and extension byte) say.
pub open spec fn header_of(b0: u8, b1: u8) -> ObuHeader {
    ObuHeader {
        obu_type: ObuType::from_code_spec((b0 / 8) % 16),
        has_size_field: (b0 / 2) % 2 == 1,
        extension: if (b0 / 4) % 2 == 1 {
            Some(ObuExtension { temporal_id: b1 / 32, spatial_id: (b1 / 8) % 4 })
        } else {
            None
        },
    }
}

impl ObuType {
    pub open spec fn from_code_spec(v: u8) -> ObuType {
        choose|t: ObuType| t.code() == v
    }
}

/// A header byte is well formed when its forbidden bit and reserved bit are
/// clear, and an extension byte when its three reserved bits are clear.
pub open spec fn header_bytes_ok(data: Seq<u8>, pos: int) -> bool {
    &&& pos < data.len()
    &&& data[pos] < 128
    &&& data[pos] % 2 == 0
    &&& (data[pos] / 4) % 2 == 1 ==> pos + 1 < data.len() && data[pos + 1] % 8 == 0
}

/// Reads the OBU header at byte `pos`; returns it with its length in bytes.
pub fn parse_obu_header(data: &[u8], pos: usize) -> (res: Result<(ObuHeader, usize), ParseError>)
    requires
        pos <= data@.len(),
    ensures
        res matches Ok((h, n)) ==> {
            &&& header_bytes_ok(data@, pos as int)
            &&& n == h.spec_len()
            &&& pos + n <= data@.len()
            &&& h == header_of(
                data@[pos as int],
                if n == 2 {
                    data@[pos + 1]
                } else {
                    0
                },
            )
        },
        res is Err ==> !header_bytes_ok(data@, pos as int),
{
    if pos >= data.len() {
        return Err(ParseError::UnexpectedEof);
    }
    let b0 = data[pos];
    if b0 >= 128 || b0 % 2 != 0 {
        return Err(ParseError::InvalidValue);
    }
    let obu_type = ObuType::from_code((b0 / 8) % 16);
    let extension_flag = (b0 / 4) % 2 == 1;
    let has_size_field = (b0 / 2) % 2 == 1;
    let mut n: usize = 1;
    let mut extension: Option<ObuExtension> = None;
    let mut b1: u8 = 0;
    if extension_flag {
        if pos + 1 >= data.len() {
            return Err(ParseError::UnexpectedEof);
        }
        b1 = data[pos + 1];
        if b1 % 8 != 0 {
            return Err(ParseError::InvalidValue);
        }
        extension = Some(ObuExtension { temporal_id: b1 / 32, spatial_id: (b1 / 8) % 4 });
        n = 2;
    }
    let h = ObuHeader { obu_type, has_size_field, extension };
    proof {
        assert(obu_type.code() == (b0 / 8) % 16);
        assert(ObuType::from_code_spec((b0 / 8) % 16).code() == (b0 / 8) % 16);
        lemma_code_injective(obu_type, ObuType::from_code_spec((b0 / 8) % 16));
    }
    Ok((h, n))
}

proof fn lemma_code_injective(a: ObuType, b: ObuType)
    requires
        a.code() == b.code(),
    ensures
        a == b,
{
}

} // verus!

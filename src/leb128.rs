//! Unsigned LEB128 numbers: seven bits per byte, least significant group first,
//! the top bit of each byte set while more bytes follow.
use vstd::arithmetic::power2::*;
use vstd::prelude::*;

use crate::error::ParseError;

verus! {

/// The longest LEB128 code this parser accepts, in bytes.
pub const LEB128_MAX_BYTES: usize = 8;

/// Decodes the LEB128 code that starts at byte `i` of `b`, where `i` bytes of
/// the code have already been taken: its value and its length from `i`.
pub open spec fn leb_decode_at(b: Seq<u8>, i: nat) -> Option<(nat, nat)>
    decreases 8 - i,
{
    if i >= 8 || i >= b.len() {
        None
    } else if b[i as int] < 128 {
        Some((b[i as int] as nat, 1))
    } else {
        match leb_decode_at(b, i + 1) {
            Some((v, n)) => Some(((b[i as int] - 128) as nat + 128 * v, n + 1)),
            None => None,
        }
    }
}

/// Decodes the LEB128 code at the start of `b`: its value and its length in bytes.
pub open spec fn leb_decode(b: Seq<u8>) -> Option<(nat, nat)> {
    leb_decode_at(b, 0)
}

/// The shortest LEB128 code of `v`.
pub open spec fn leb_encode(v: nat) -> Seq<u8>
    decreases v,
{
    if v < 128 {
        seq![v as u8]
    } else {
        seq![(v % 128 + 128) as u8] + leb_encode(v / 128)
    }
}

proof fn lemma_leb_decode_bound(b: Seq<u8>, i: nat)
    requires
        i < 8,
    ensures
        leb_decode_at(b, i) matches Some((v, n)) ==> v < pow2((7 * (8 - i)) as nat) && 1 <= n
            <= 8 - i,
    decreases 8 - i,
{
    let k = (7 * (7 - i)) as nat;
    lemma_pow2_adds(7, k);
    lemma2_to64();
    lemma_pow2_pos(k);
    assert((7 * (8 - i)) as nat == 7 + k);
    if i < 7 {
        lemma_leb_decode_bound(b, i + 1);
    } else {
        assert(leb_decode_at(b, 8) is None);
        assert(k == 0);
    }
    if i < b.len() && b[i as int] >= 128 {
        if let Some((v1, n1)) = leb_decode_at(b, i + 1) {
            assert(v1 < pow2(k));
            assert(128 * v1 <= 128 * (pow2(k) - 1));
        }
    }
}

/// Reads the LEB128 code from byte `pos + i` on, `i` bytes of it already taken.
fn read_leb128_at(data: &[u8], pos: usize, i: usize) -> (r: Result<(u64, usize), ParseError>)
    requires
        pos <= data@.len(),
        i <= 8,
    ensures
        match r {
            Ok((v, n)) => leb_decode_at(data@.subrange(pos as int, data@.len() as int), i as nat)
                == Some((v as nat, n as nat)),
            Err(_) => leb_decode_at(data@.subrange(pos as int, data@.len() as int), i as nat) is None,
        },
    decreases 8 - i,
{
    let ghost b = data@.subrange(pos as int, data@.len() as int);
    if i >= 8 {
        return Err(ParseError::InvalidValue);
    }
    if data.len() - pos <= i {
        return Err(ParseError::UnexpectedEof);
    }
    let byte = data[pos + i];
    assert(b[i as int] == byte);
    if byte < 128 {
        return Ok((byte as u64, 1));
    }
    let (v, n) = read_leb128_at(data, pos, i + 1)?;
    proof {
        lemma_leb_decode_bound(b, (i + 1) as nat);
        if i + 1 < 8 {
        } else {
            assert(leb_decode_at(b, 8) is None);
        }
        lemma_pow2_adds(7, (7 * (7 - i - 1)) as nat);
        lemma2_to64();
        assert(pow2(7) == 128) by {
            lemma2_to64();
        }
        if i > 0 {
            lemma_pow2_strictly_increases((7 * (8 - i - 1)) as nat, 49);
        }
        assert((v as nat) < pow2(49));
        assert(128 * (v as nat) < 128 * pow2(49));
        lemma_pow2_adds(7, 49);
        lemma2_to64_rest();
        assert(128 * pow2(49) == pow2(56));
    }
    Ok(((byte - 128) as u64 + 128 * v, n + 1))
}

/// A value read from a byte string and the number of bytes it took.
#[derive(Debug, Clone, Copy)]
pub struct ReadResult<T> {
    pub value: T,
    pub bytes_read: usize,
}

/// Reads a LEB128 number at byte `pos` of `data`: its value and the number of
/// bytes it takes. Fails when the data ends first or when no byte of the
/// first eight ends the code.
pub fn leb128(data: &[u8], pos: usize) -> (r: Result<ReadResult<u64>, ParseError>)
    requires
        pos <= data@.len(),
    ensures
        match r {
            Ok(rr) => leb_decode(data@.subrange(pos as int, data@.len() as int)) == Some(
                (rr.value as nat, rr.bytes_read as nat),
            ),
            Err(_) => leb_decode(data@.subrange(pos as int, data@.len() as int)) is None,
        },
{
    let (value, bytes_read) = read_leb128_at(data, pos, 0)?;
    Ok(ReadResult { value, bytes_read })
}

/// The shortest LEB128 code of `value`.
pub fn leb128_write(value: u32) -> (r: Vec<u8>)
    ensures
        r@ == leb_encode(value as nat),
        1 <= r@.len() <= 5,
{
    let mut out: Vec<u8> = Vec::new();
    let mut v: u32 = value;
    proof {
        lemma_leb_encode_len(value as nat);
    }
    while v >= 128
        invariant
            out@ + leb_encode(v as nat) == leb_encode(value as nat),
        decreases v,
    {
        let byte = (v % 128 + 128) as u8;
        out.push(byte);
        proof {
            assert(leb_encode(v as nat) == seq![byte] + leb_encode((v / 128) as nat));
            assert(out@ + leb_encode((v / 128) as nat) =~= (out@.drop_last() + seq![byte])
                + leb_encode((v / 128) as nat));
        }
        v = v / 128;
    }
    out.push(v as u8);
    proof {
        assert(out@ =~= out@.drop_last() + leb_encode(v as nat));
    }
    out
}

/// The code of a number below `2^32` takes one to five bytes.
pub proof fn lemma_leb_encode_len(v: nat)
    ensures
        1 <= leb_encode(v).len(),
        v < 0x1_0000_0000 ==> leb_encode(v).len() <= 5,
        v < 0x80 ==> leb_encode(v).len() == 1,
        v < 0x4000 ==> leb_encode(v).len() <= 2,
        v < 0x20_0000 ==> leb_encode(v).len() <= 3,
        v < 0x1000_0000 ==> leb_encode(v).len() <= 4,
    decreases v,
{
    if v >= 128 {
        lemma_leb_encode_len(v / 128);
    }
}

proof fn lemma_leb_round_trip_at(v: nat, b: Seq<u8>, i: nat)
    requires
        i + leb_encode(v).len() <= 8,
        i + leb_encode(v).len() <= b.len(),
        b.subrange(i as int, (i + leb_encode(v).len()) as int) == leb_encode(v),
    ensures
        leb_decode_at(b, i) == Some((v, leb_encode(v).len())),
    decreases v,
{
    let e = leb_encode(v);
    assert(b[i as int] == b.subrange(i as int, (i + e.len()) as int)[0]);
    if v >= 128 {
        let t = leb_encode(v / 128);
        lemma_leb_encode_len(v / 128);
        assert(b.subrange((i + 1) as int, (i + 1 + t.len()) as int) =~= b.subrange(i as int, (i + e.len()) as int).subrange(
            1,
            e.len() as int,
        ));
        assert(e.subrange(1, e.len() as int) =~= t);
        lemma_leb_round_trip_at(v / 128, b, i + 1);
    }
}

/// LEB128 round trip: reading the code that the writer makes for a 32-bit
/// value, whatever bytes follow it, gives back the value and the code's
/// length, which is one to five bytes.
pub proof fn lemma_leb128_round_trip(v: u32, rest: Seq<u8>)
    ensures
        leb_decode(leb_encode(v as nat) + rest) == Some((v as nat, leb_encode(v as nat).len())),
        1 <= leb_encode(v as nat).len() <= 5,
{
    lemma_leb_encode_len(v as nat);
    let e = leb_encode(v as nat);
    assert((e + rest).subrange(0, e.len() as int) =~= e);
    lemma_leb_round_trip_at(v as nat, e + rest, 0);
}

} // verus!

//! Bit-level cursor over a byte string, and the matching bit writer.
//!
//! Bits are read most significant first within each byte. All contracts are
//! stated over `bits_of(data)`, the byte string seen as a sequence of bits.
use vstd::arithmetic::div_mod::*;
use vstd::arithmetic::power2::*;
use vstd::bits::lemma_u8_shr_is_div;
use vstd::prelude::*;

use crate::error::ParseError;

verus! {

/// Bit `i` of a byte string, most significant bit of each byte first.
pub open spec fn bit_at(data: Seq<u8>, i: int) -> bool {
    (data[i / 8] as nat / pow2((7 - i % 8) as nat)) % 2 == 1
}

/// A byte string seen as a sequence of bits.
pub open spec fn bits_of(data: Seq<u8>) -> Seq<bool> {
    Seq::new((data.len() * 8) as nat, |i: int| bit_at(data, i))
}

/// The `n`-bit code of `v`, most significant bit first (the low `n` bits of `v`).
pub open spec fn uint_bits(v: nat, n: nat) -> Seq<bool>
    decreases n,
{
    if n == 0 {
        Seq::empty()
    } else {
        uint_bits(v / 2, (n - 1) as nat).push(v % 2 == 1)
    }
}

/// The unsigned number that a sequence of bits spells, most significant first.
pub open spec fn bits_value(s: Seq<bool>) -> nat
    decreases s.len(),
{
    if s.len() == 0 {
        0
    } else {
        2 * bits_value(s.drop_last()) + if s.last() {
            1nat
        } else {
            0nat
        }
    }
}

/// `n` bits equal to zero.
pub open spec fn zero_bits(n: nat) -> Seq<bool> {
    Seq::new(n, |i: int| false)
}

pub proof fn lemma_uint_bits_len(v: nat, n: nat)
    ensures
        uint_bits(v, n).len() == n,
    decreases n,
{
    if n > 0 {
        lemma_uint_bits_len(v / 2, (n - 1) as nat);
    }
}

/// Reading back the code of a value that fits gives the value.
pub proof fn lemma_uint_bits_value(v: nat, n: nat)
    requires
        v < pow2(n),
    ensures
        bits_value(uint_bits(v, n)) == v,
    decreases n,
{
    if n == 0 {
        lemma2_to64();
    } else {
        lemma_pow2_unfold(n);
        lemma_uint_bits_len(v / 2, (n - 1) as nat);
        lemma_uint_bits_value(v / 2, (n - 1) as nat);
        let s = uint_bits(v, n);
        assert(s.drop_last() =~= uint_bits(v / 2, (n - 1) as nat));
    }
}

/// A sequence of bits is the code of the value it spells.
pub proof fn lemma_value_uint_bits(s: Seq<bool>)
    ensures
        uint_bits(bits_value(s), s.len()) == s,
        bits_value(s) < pow2(s.len()),
    decreases s.len(),
{
    if s.len() == 0 {
        lemma2_to64();
        assert(uint_bits(0, 0) =~= s);
    } else {
        lemma_value_uint_bits(s.drop_last());
        lemma_pow2_unfold(s.len());
        let v = bits_value(s);
        assert(v / 2 == bits_value(s.drop_last()));
        assert(uint_bits(v, s.len()) =~= s.drop_last().push(s.last()));
        assert(s.drop_last().push(s.last()) =~= s);
    }
}

/// Bit `j` of the code of `v` is the matching binary digit of `v`.
pub proof fn lemma_uint_bits_index(v: nat, n: nat, j: int)
    requires
        0 <= j < n,
    ensures
        uint_bits(v, n)[j] == ((v / pow2((n - 1 - j) as nat)) % 2 == 1),
    decreases n,
{
    lemma_uint_bits_len(v / 2, (n - 1) as nat);
    if j == n - 1 {
        lemma2_to64();
        assert(v / pow2(0) == v);
    } else {
        lemma_uint_bits_index(v / 2, (n - 1) as nat, j);
        let k = (n - 2 - j) as nat;
        assert(uint_bits(v, n)[j] == uint_bits(v / 2, (n - 1) as nat)[j]);
        lemma_pow2_unfold(k + 1);
        lemma_pow2_pos(k);
        lemma_div_denominator(v as int, 2, pow2(k) as int);
        assert((n - 1 - j) as nat == k + 1);
        assert(v as int / 2 / pow2(k) as int == v as int / pow2(k + 1) as int);
    }
}

/// The value spelled by the bits of one byte is the byte.
pub proof fn lemma_byte_bits(data: Seq<u8>, b: int)
    requires
        0 <= b < data.len(),
    ensures
        bits_of(data).subrange(8 * b, 8 * b + 8) == uint_bits(data[b] as nat, 8),
{
    lemma_uint_bits_len(data[b] as nat, 8);
    assert forall|k: int| 0 <= k < 8 implies bits_of(data).subrange(8 * b, 8 * b + 8)[k]
        == uint_bits(data[b] as nat, 8)[k] by {
        lemma_uint_bits_index(data[b] as nat, 8, k);
        assert((8 * b + k) / 8 == b);
        assert((8 * b + k) % 8 == k);
    }
    assert(bits_of(data).subrange(8 * b, 8 * b + 8) =~= uint_bits(data[b] as nat, 8));
}

/// A cursor over the bits of a byte string.
pub struct BitReader<'a> {
    pub data: &'a [u8],
    pub pos: usize,
}

impl<'a> BitReader<'a> {
    /// The bits under the cursor.
    pub open spec fn bits(&self) -> Seq<bool> {
        bits_of(self.data@)
    }

    pub open spec fn wf(&self) -> bool {
        &&& self.data@.len() * 8 <= usize::MAX
        &&& self.pos <= self.data@.len() * 8
    }

    /// The number of bits left to read.
    pub open spec fn remaining(&self) -> int {
        self.data@.len() * 8 - self.pos
    }

    /// A cursor at bit `pos` of `data`.
    pub fn new(data: &'a [u8], pos: usize) -> (r: BitReader<'a>)
        requires
            data@.len() * 8 <= usize::MAX,
            pos <= data@.len() * 8,
        ensures
            r.wf(),
            r.data@ == data@,
            r.pos == pos,
    {
        BitReader { data, pos }
    }

    /// Whether the cursor stands on a byte boundary.
    pub fn byte_aligned(&self) -> (r: bool)
        ensures
            r == (self.pos % 8 == 0),
    {
        self.pos % 8 == 0
    }

    /// Reads one bit; fails at the end of the data.
    pub fn read_bit(&mut self) -> (r: Result<bool, ParseError>)
        requires
            old(self).wf(),
        ensures
            final(self).wf(),
            final(self).data@ == old(self).data@,
            old(self).remaining() >= 1 ==> r == Ok::<bool, ParseError>(old(self).bits()[old(self).pos as int])
                && final(self).pos == old(self).pos + 1,
            old(self).remaining() < 1 ==> r == Err::<bool, ParseError>(ParseError::UnexpectedEof)
                && final(self).pos == old(self).pos,
    {
        if self.pos >= self.data.len() * 8 {
            return Err(ParseError::UnexpectedEof);
        }
        let byte = self.data[self.pos / 8];
        let shift = (7 - self.pos % 8) as u8;
        let shifted = byte >> shift;
        proof {
            lemma_u8_shr_is_div(byte, shift);
        }
        self.pos = self.pos + 1;
        Ok(shifted % 2 == 1)
    }

    /// Reads `n` bits where `n` of them are known to be left.
    fn read_bits_available(&mut self, n: usize) -> (v: u64)
        requires
            old(self).wf(),
            n <= 64,
            old(self).remaining() >= n,
        ensures
            final(self).wf(),
            final(self).data@ == old(self).data@,
            final(self).pos == old(self).pos + n,
            old(self).bits().subrange(old(self).pos as int, old(self).pos + n) == uint_bits(
                v as nat,
                n as nat,
            ),
            v == bits_value(old(self).bits().subrange(old(self).pos as int, old(self).pos + n)),
            (v as nat) < pow2(n as nat),
        decreases n,
    {
        if n == 0 {
            proof {
                lemma2_to64();
                assert(old(self).bits().subrange(old(self).pos as int, old(self).pos as int)
                    =~= Seq::<bool>::empty());
            }
            return 0;
        }
        let start = Ghost(self.pos as int);
        let hi = self.read_bits_available(n - 1);
        let b = self.read_bit();
        let bit: u64 = match b {
            Ok(true) => 1,
            _ => 0,
        };
        proof {
            lemma_pow2_unfold(n as nat);
            if n < 64 {
                lemma_pow2_strictly_increases(n as nat, 64);
            } else {
                lemma2_to64();
            }
            lemma2_to64();
        }
        assert((hi as nat) * 2 + 1 < pow2(n as nat));
        assert(pow2(n as nat) <= pow2(64)) by {
            if n < 64 {
                lemma_pow2_strictly_increases(n as nat, 64);
            }
        };
        let v = hi * 2 + bit;
        proof {
            let s = self.bits();
            let whole = s.subrange(start@, start@ + n);
            assert(whole =~= s.subrange(start@, start@ + n - 1).push(s[start@ + n - 1]));
            assert(whole.drop_last() =~= s.subrange(start@, start@ + n - 1));
            assert((v as nat) / 2 == hi as nat);
            assert(((v as nat) % 2 == 1) == (bit == 1));
        }
        v
    }

    /// Reads an `n`-bit unsigned number, most significant bit first.
    pub fn read_bits(&mut self, n: usize) -> (r: Result<u64, ParseError>)
        requires
            old(self).wf(),
            n <= 64,
        ensures
            final(self).wf(),
            final(self).data@ == old(self).data@,
            match r {
                Ok(v) => {
                    &&& old(self).remaining() >= n
                    &&& final(self).pos == old(self).pos + n
                    &&& old(self).bits().subrange(old(self).pos as int, old(self).pos + n)
                        == uint_bits(v as nat, n as nat)
                    &&& v == bits_value(
                        old(self).bits().subrange(old(self).pos as int, old(self).pos + n),
                    )
                    &&& (v as nat) < pow2(n as nat)
                },
                Err(e) => {
                    &&& old(self).remaining() < n
                    &&& e == ParseError::UnexpectedEof
                    &&& final(self).pos == old(self).pos
                },
            },
    {
        if self.data.len() * 8 - self.pos < n {
            return Err(ParseError::UnexpectedEof);
        }
        Ok(self.read_bits_available(n))
    }

    /// Reads one bit as a flag.
    pub fn read_bool(&mut self) -> (r: Result<bool, ParseError>)
        requires
            old(self).wf(),
        ensures
            final(self).wf(),
            final(self).data@ == old(self).data@,
            old(self).remaining() >= 1 ==> r == Ok::<bool, ParseError>(old(self).bits()[old(self).pos as int])
                && final(self).pos == old(self).pos + 1,
            old(self).remaining() < 1 ==> r == Err::<bool, ParseError>(ParseError::UnexpectedEof)
                && final(self).pos == old(self).pos,
    {
        self.read_bit()
    }

    /// Reads `n` bits that must all be zero.
    pub fn read_zero(&mut self, n: usize) -> (r: Result<(), ParseError>)
        requires
            old(self).wf(),
            n <= 64,
        ensures
            final(self).wf(),
            final(self).data@ == old(self).data@,
            r.is_ok() <==> old(self).remaining() >= n && old(self).bits().subrange(
                old(self).pos as int,
                old(self).pos + n,
            ) == zero_bits(n as nat),
            r.is_ok() ==> final(self).pos == old(self).pos + n,
    {
        let v = self.read_bits(n)?;
        proof {
            let s = old(self).bits().subrange(old(self).pos as int, old(self).pos + n);
            lemma_value_uint_bits(s);
            if s == zero_bits(n as nat) {
                lemma_zero_bits_value(n as nat);
            }
        }
        if v == 0 {
            proof {
                lemma_zero_bits_value(n as nat);
                lemma_value_uint_bits(zero_bits(n as nat));
            }
            Ok(())
        } else {
            Err(ParseError::InvalidValue)
        }
    }

    /// Reads an `n`-bit two's-complement number, sign bit first.
    pub fn read_su(&mut self, n: usize) -> (r: Result<i64, ParseError>)
        requires
            old(self).wf(),
            1 <= n <= 32,
        ensures
            final(self).wf(),
            final(self).data@ == old(self).data@,
            match r {
                Ok(v) => {
                    &&& old(self).remaining() >= n
                    &&& final(self).pos == old(self).pos + n
                    &&& v == su_value(
                        bits_value(old(self).bits().subrange(old(self).pos as int, old(self).pos + n)),
                        n as nat,
                    )
                },
                Err(e) => old(self).remaining() < n && e == ParseError::UnexpectedEof,
            },
            final(self).pos >= old(self).pos,
    {
        let v = self.read_bits(n)?;
        proof {
            lemma_pow2_unfold(n as nat);
            if n < 32 {
                lemma_pow2_strictly_increases(n as nat, 32);
            }
            lemma2_to64();
            vstd::bits::lemma_u64_shl_is_mul(1, (n - 1) as u64);
        }
        let half: u64 = 1u64 << ((n - 1) as u64);
        if v >= half {
            Ok(v as i64 - 2 * (half as i64))
        } else {
            Ok(v as i64)
        }
    }

    /// Reads a non-symmetric code for a value below `n`.
    pub fn read_ns(&mut self, n: u32) -> (r: Result<u32, ParseError>)
        requires
            old(self).wf(),
            n >= 1,
        ensures
            final(self).wf(),
            final(self).data@ == old(self).data@,
            r.is_ok() ==> ns_decode(old(self).bits(), old(self).pos as int, n as nat) == Some(
                (r.unwrap() as nat, final(self).pos as int),
            ),
            r.is_ok() ==> r.unwrap() < n,
            r.is_err() ==> ns_decode(old(self).bits(), old(self).pos as int, n as nat) is None,
            final(self).pos >= old(self).pos,
            final(self).pos <= old(self).pos + ns_width(n as nat),
            old(self).remaining() >= ns_width(n as nat) ==> r.is_ok(),
            n <= 64 ==> ns_width(n as nat) <= 7,
            n <= 4096 ==> ns_width(n as nat) <= 13,
    {
        proof {
            lemma2_to64();
            lemma_log2_floor_bounds(n as nat);
            if n <= 64 {
                lemma_pow2_below(log2_floor(n as nat), n as nat, 7);
            }
            if n <= 4096 {
                lemma_pow2_below(log2_floor(n as nat), n as nat, 13);
            }
        }
        let w = floor_log2(n as u64) + 1;
        proof {
            lemma2_to64();
            lemma_log2_floor_bounds(n as nat);
            lemma_pow2_below((w - 1) as nat, n as nat, 32);
            if w < 32 {
                lemma_pow2_strictly_increases(w as nat, 32);
            }
            lemma2_to64();
            lemma_pow2_unfold(w as nat);
        }
        proof {
            vstd::bits::lemma_u64_shl_is_mul(1, w as u64);
        }
        let m: u64 = (1u64 << (w as u64)) - n as u64;
        let v = self.read_bits((w - 1) as usize)?;
        if v < m {
            return Ok(v as u32);
        }
        let e = self.read_bits(1)?;
        proof {
            let s = old(self).bits();
            let p = old(self).pos as int;
            let sub1 = s.subrange(p + w - 1, p + w);
            assert(sub1 =~= seq![s[p + w - 1]]);
            assert(sub1.drop_last() =~= Seq::<bool>::empty());
        }
        Ok((2 * v - m + e) as u32)
    }

    /// Reads an unsigned variable-length code.
    pub fn read_uvlc(&mut self) -> (r: Result<u32, ParseError>)
        requires
            old(self).wf(),
        ensures
            final(self).wf(),
            final(self).data@ == old(self).data@,
            r.is_ok() ==> uvlc_decode(old(self).bits(), old(self).pos as int) == Some(
                (r.unwrap() as nat, final(self).pos as int),
            ),
            r.is_err() ==> uvlc_decode(old(self).bits(), old(self).pos as int) is None,
            final(self).pos >= old(self).pos,
    {
        let ghost s = old(self).bits();
        let ghost p = old(self).pos as int;
        let mut leading_zeros: usize = 0;
        loop
            invariant_except_break
                self.pos == p + leading_zeros,
                leading_zeros_from(s, p) == leading_zeros + leading_zeros_from(s, self.pos as int),
            invariant
                self.wf(),
                self.data@ == old(self).data@,
                s == self.bits(),
                p == old(self).pos,
                self.pos >= p,
            ensures
                self.pos == p + leading_zeros + 1,
                leading_zeros_from(s, p) == leading_zeros,
            decreases self.remaining(),
        {
            let ghost before = self.pos as int;
            let done = match self.read_bit() {
                Ok(b) => b,
                Err(e) => {
                    return Err(e);
                },
            };
            if done {
                break;
            }
            leading_zeros = leading_zeros + 1;
        }
        if leading_zeros >= 32 {
            return Ok(u32::MAX);
        }
        let x = self.read_bits(leading_zeros)?;
        proof {
            lemma_pow2_strictly_increases(leading_zeros as nat, 32);
            lemma_pow2_unfold((leading_zeros + 1) as nat);
            if leading_zeros + 1 < 32 {
                lemma_pow2_strictly_increases((leading_zeros + 1) as nat, 32);
            }
            lemma2_to64();
        }
        let one: u64 = 1;
        proof {
            lemma_pow2_pos(leading_zeros as nat);
            vstd::bits::lemma_u64_shl_is_mul(1, leading_zeros as u64);
        }
        let base = (one << (leading_zeros as u64)) - 1;
        Ok((x + base) as u32)
    }
}

pub proof fn lemma_zero_bits_value(n: nat)
    ensures
        bits_value(zero_bits(n)) == 0,
    decreases n,
{
    if n > 0 {
        lemma_zero_bits_value((n - 1) as nat);
        assert(zero_bits(n).drop_last() =~= zero_bits((n - 1) as nat));
    }
}

/// The value of an `n`-bit two's-complement code `v`.
pub open spec fn su_value(v: nat, n: nat) -> int {
    if v >= pow2((n - 1) as nat) {
        v - pow2(n)
    } else {
        v as int
    }
}

/// The number of clear bits in `s` from `p` up to the first set bit or the end.
pub open spec fn leading_zeros_from(s: Seq<bool>, p: int) -> nat
    decreases s.len() - p,
{
    if p < 0 || p >= s.len() || s[p] {
        0
    } else {
        1 + leading_zeros_from(s, p + 1)
    }
}

/// Decodes an unsigned variable-length code at `p`: the value and the position after it.
pub open spec fn uvlc_decode(s: Seq<bool>, p: int) -> Option<(nat, int)> {
    let k = leading_zeros_from(s, p);
    if p + k >= s.len() {
        None
    } else if k >= 32 {
        Some(((u32::MAX) as nat, p + k + 1))
    } else if p + 2 * k + 1 > s.len() {
        None
    } else {
        Some(
            (
                (bits_value(s.subrange(p + k + 1, p + 2 * k + 1)) + pow2(k) - 1) as nat,
                p + 2 * k + 1,
            ),
        )
    }
}

/// The width of the longer codes of the non-symmetric code for values below `n`.
pub open spec fn ns_width(n: nat) -> nat {
    log2_floor(n) + 1
}

/// The number of values below `n` that take the shorter code.
pub open spec fn ns_short(n: nat) -> int {
    pow2(ns_width(n)) - n
}

/// Decodes a non-symmetric code at `p`: the value and the position after it.
pub open spec fn ns_decode(s: Seq<bool>, p: int, n: nat) -> Option<(nat, int)> {
    let w = ns_width(n);
    if p + w - 1 > s.len() {
        None
    } else {
        let v = bits_value(s.subrange(p, p + w - 1));
        if v < ns_short(n) {
            Some((v, p + w - 1))
        } else if p + w > s.len() {
            None
        } else {
            Some(((2 * v - ns_short(n) + if s[p + w - 1] {
                1int
            } else {
                0int
            }) as nat, p + w))
        }
    }
}

/// The largest `k` with `2^k <= x` (0 for `x <= 1`).
pub open spec fn log2_floor(x: nat) -> nat
    decreases x,
{
    if x <= 1 {
        0
    } else {
        1 + log2_floor(x / 2)
    }
}

pub proof fn lemma_log2_floor_bounds(x: nat)
    requires
        x >= 1,
    ensures
        pow2(log2_floor(x)) <= x < pow2(log2_floor(x) + 1),
    decreases x,
{
    if x <= 1 {
        lemma2_to64();
    } else {
        lemma_log2_floor_bounds(x / 2);
        lemma_pow2_unfold(log2_floor(x));
        lemma_pow2_unfold(log2_floor(x) + 1);
    }
}

/// An exponent whose power does not exceed a number below `2^e` is below `e`.
pub proof fn lemma_pow2_below(k: nat, x: nat, e: nat)
    requires
        pow2(k) <= x,
        x < pow2(e),
    ensures
        k < e,
{
    if k >= e {
        if k > e {
            lemma_pow2_strictly_increases(e, k);
        }
    }
}

/// The position of the highest set bit of `x`, for `x >= 1`.
pub fn floor_log2(x: u64) -> (r: u32)
    requires
        x >= 1,
    ensures
        r == log2_floor(x as nat),
        r < 64,
{
    let mut y = x;
    let mut s: u32 = 0;
    proof {
        lemma2_to64();
        lemma_log2_floor_bounds(x as nat);
        lemma_pow2_below(log2_floor(x as nat), x as nat, 64);
    }
    while y > 1
        invariant
            y >= 1,
            s + log2_floor(y as nat) == log2_floor(x as nat),
            s as nat + log2_floor(y as nat) < 64,
        decreases y,
    {
        y = y / 2;
        s = s + 1;
    }
    s
}

/// Appends the `n`-bit code of `v` to a bit buffer.
pub fn put_bits(out: &mut Vec<bool>, v: u64, n: usize)
    requires
        n <= 64,
    ensures
        final(out)@ == old(out)@ + uint_bits(v as nat, n as nat),
    decreases n,
{
    if n == 0 {
        assert(old(out)@ + uint_bits(v as nat, 0) =~= old(out)@);
        return;
    }
    put_bits(out, v / 2, n - 1);
    out.push(v % 2 == 1);
    proof {
        let a = old(out)@;
        let t = uint_bits((v / 2) as nat, (n - 1) as nat);
        assert((a + t).push(v % 2 == 1) =~= a + t.push(v % 2 == 1));
    }
}

/// Appends one flag to a bit buffer.
pub fn put_bool(out: &mut Vec<bool>, b: bool)
    ensures
        final(out)@ == old(out)@.push(b),
{
    out.push(b);
}

/// Packs a bit buffer into bytes, most significant bit first, padding the
/// last byte with zero bits.
pub fn pack_bits(bits: &Vec<bool>) -> (r: Vec<u8>)
    requires
        bits@.len() + 8 <= usize::MAX,
    ensures
        r@.len() == (bits@.len() + 7) / 8,
        bits_of(r@).subrange(0, bits@.len() as int) == bits@,
        forall|i: int| bits@.len() <= i < r@.len() * 8 ==> !#[trigger] bits_of(r@)[i],
{
    let mut r: Vec<u8> = Vec::new();
    let n = bits.len();
    let nbytes = (n + 7) / 8;
    let mut j: usize = 0;
    while j < nbytes
        invariant
            n == bits@.len(),
            nbytes == (n + 7) / 8,
            n + 8 <= usize::MAX,
            j <= nbytes,
            r@.len() == j,
            forall|i: int|
                0 <= i < 8 * j ==> #[trigger] bits_of(r@)[i] == (i < n && bits@[i]),
        decreases nbytes - j,
    {
        let mut byte: u8 = 0;
        let mut k: usize = 0;
        let ghost chunk = Seq::new(8, |t: int| 8 * j + t < n && bits@[8 * j + t]);
        proof {
            lemma2_to64();
            assert(chunk.subrange(0, 0) =~= Seq::<bool>::empty());
        }
        while k < 8
            invariant
                k <= 8,
                j < nbytes,
                n == bits@.len(),
                n + 8 <= usize::MAX,
                nbytes == (n + 7) / 8,
                chunk == Seq::new(8, |t: int| 8 * j + t < n && bits@[8 * j + t]),
                byte as nat == bits_value(chunk.subrange(0, k as int)),
                (byte as nat) < pow2(k as nat),
            decreases 8 - k,
        {
            let i = 8 * j + k;
            let b: u8 = if i < n && bits[i] {
                1
            } else {
                0
            };
            proof {
                lemma_pow2_unfold((k + 1) as nat);
                if k + 1 < 8 {
                    lemma_pow2_strictly_increases((k + 1) as nat, 8);
                }
                lemma2_to64();
                let sub = chunk.subrange(0, k + 1);
                assert(sub.drop_last() =~= chunk.subrange(0, k as int));
            }
            byte = byte * 2 + b;
            k = k + 1;
        }
        assert(chunk.subrange(0, 8) =~= chunk);
        let ghost old_r = r@;
        r.push(byte);
        proof {
            lemma_value_uint_bits(chunk);
            lemma_byte_bits(r@, j as int);
            assert forall|i: int| 0 <= i < 8 * (j + 1) implies #[trigger] bits_of(r@)[i] == (i < n
                && bits@[i]) by {
                if i < 8 * j {
                    assert(i / 8 < j) by {
                        lemma_div_mod_basics_8(i);
                    };
                    assert(bits_of(r@)[i] == bits_of(old_r)[i]);
                } else {
                    assert(bits_of(r@)[i] == bits_of(r@).subrange(8 * j, 8 * j + 8)[i - 8 * j]);
                }
            }
        }
        j = j + 1;
    }
    assert(bits_of(r@).subrange(0, n as int) =~= bits@);
    r
}

proof fn lemma_div_mod_basics_8(i: int)
    requires
        i >= 0,
    ensures
        i / 8 * 8 <= i,
{
}

/// Reads one flag.
pub fn take_bool_bit(r: &mut BitReader) -> (res: Result<bool, ParseError>)
    requires
        old(r).wf(),
    ensures
        final(r).wf(),
        final(r).data@ == old(r).data@,
        old(r).remaining() >= 1 ==> res == Ok::<bool, ParseError>(old(r).bits()[old(r).pos as int])
            && final(r).pos == old(r).pos + 1,
        old(r).remaining() < 1 ==> res is Err,
{
    r.read_bool()
}

/// Reads one bit that must be zero.
pub fn take_zero_bit(r: &mut BitReader) -> (res: Result<(), ParseError>)
    requires
        old(r).wf(),
    ensures
        final(r).wf(),
        final(r).data@ == old(r).data@,
        res is Ok <==> old(r).remaining() >= 1 && !old(r).bits()[old(r).pos as int],
{
    let res = r.read_zero(1);
    proof {
        if old(r).remaining() >= 1 {
            let sub = old(r).bits().subrange(old(r).pos as int, old(r).pos + 1);
            assert(sub =~= seq![old(r).bits()[old(r).pos as int]]);
            assert(zero_bits(1) =~= seq![false]);
            if old(r).bits()[old(r).pos as int] {
                assert(sub[0] != zero_bits(1)[0]);
            }
        }
    }
    res
}

/// Reads `bits` bits that must all be zero.
pub fn take_zero_bits(r: &mut BitReader, bits: usize) -> (res: Result<(), ParseError>)
    requires
        old(r).wf(),
        bits <= 64,
    ensures
        final(r).wf(),
        final(r).data@ == old(r).data@,
        res is Ok <==> old(r).remaining() >= bits && old(r).bits().subrange(
            old(r).pos as int,
            old(r).pos + bits,
        ) == zero_bits(bits as nat),
{
    r.read_zero(bits)
}

/// Reads an unsigned variable-length code.
pub fn uvlc(r: &mut BitReader) -> (res: Result<u32, ParseError>)
    requires
        old(r).wf(),
    ensures
        final(r).wf(),
        final(r).data@ == old(r).data@,
        res matches Ok(v) ==> uvlc_decode(old(r).bits(), old(r).pos as int) == Some(
            (v as nat, final(r).pos as int),
        ),
        res is Err ==> uvlc_decode(old(r).bits(), old(r).pos as int) is None,
{
    r.read_uvlc()
}

/// Reads a non-symmetric code for a value below `n`.
pub fn ns(r: &mut BitReader, n: u32) -> (res: Result<u32, ParseError>)
    requires
        old(r).wf(),
        n >= 1,
    ensures
        final(r).wf(),
        final(r).data@ == old(r).data@,
        res matches Ok(v) ==> v < n && ns_decode(old(r).bits(), old(r).pos as int, n as nat)
            == Some((v as nat, final(r).pos as int)),
        res is Err ==> ns_decode(old(r).bits(), old(r).pos as int, n as nat) is None,
{
    r.read_ns(n)
}

/// Reads an `n`-bit two's-complement number.
pub fn su(r: &mut BitReader, n: usize) -> (res: Result<i64, ParseError>)
    requires
        old(r).wf(),
        1 <= n <= 32,
    ensures
        final(r).wf(),
        final(r).data@ == old(r).data@,
        res matches Ok(v) ==> old(r).remaining() >= n && final(r).pos == old(r).pos + n && v
            == su_value(
            bits_value(old(r).bits().subrange(old(r).pos as int, old(r).pos + n)),
            n as nat,
        ),
        res is Err ==> old(r).remaining() < n,
{
    r.read_su(n)
}

/// The code `read_uvlc` reads as `v`: as many zero bits as the value of
/// `v + 1` has binary digits after the first, a one bit, then those digits.
pub open spec fn uvlc_code(v: nat) -> Seq<bool> {
    let k = log2_floor(v + 1);
    zero_bits(k) + seq![true] + uint_bits((v + 1 - pow2(k)) as nat, k)
}

proof fn lemma_leading_zeros_of_code(s: Seq<bool>, p: int, k: nat)
    requires
        0 <= p,
        p + k < s.len(),
        forall|i: int| p <= i < p + k ==> !s[i],
        s[p + k],
    ensures
        leading_zeros_from(s, p) == k,
    decreases k,
{
    if k > 0 {
        lemma_leading_zeros_of_code(s, p + 1, (k - 1) as nat);
    }
}

/// UVLC round trip: for every value below `2^32`, decoding its code, with
/// any bits after it, gives the value and stops right after the code; for
/// `u32::MAX`, whose code starts with 32 zero bits, decoding stops after the
/// one bit that follows them.
pub proof fn lemma_uvlc_round_trip(v: u32, rest: Seq<bool>)
    ensures
        uvlc_decode(uvlc_code(v as nat) + rest, 0) == Some(
            (
                v as nat,
                if v == u32::MAX {
                    33
                } else {
                    uvlc_code(v as nat).len() as int
                },
            ),
        ),
{
    let x = v as nat + 1;
    let k = log2_floor(x);
    lemma_log2_floor_bounds(x);
    lemma2_to64();
    lemma2_to64_rest();
    lemma_pow2_below(k, x, 33);
    let low = (x - pow2(k)) as nat;
    lemma_pow2_unfold(k + 1);
    lemma_uint_bits_len(low, k);
    let code = uvlc_code(v as nat);
    let s = code + rest;
    assert(code.len() == 2 * k + 1);
    assert forall|i: int| 0 <= i < k implies !s[i] by {
        assert(s[i] == code[i]);
    }
    assert(s[k as int] == code[k as int]);
    lemma_leading_zeros_of_code(s, 0, k);
    if k >= 32 {
        assert(k == 32);
        assert(x == pow2(32));
    } else {
        assert(s.subrange((k + 1) as int, (2 * k + 1) as int) =~= uint_bits(low, k));
        lemma_uint_bits_value(low, k);
    }
}

/// Leading zero bits that run to 32 or more before a one bit decode to `u32::MAX`.
pub proof fn lemma_uvlc_saturates(s: Seq<bool>, p: int, k: nat)
    requires
        0 <= p,
        k >= 32,
        p + k < s.len(),
        forall|i: int| p <= i < p + k ==> !s[i],
        s[p + k],
    ensures
        uvlc_decode(s, p) == Some((u32::MAX as nat, p + k + 1)),
{
    lemma_leading_zeros_of_code(s, p, k);
}

} // verus!

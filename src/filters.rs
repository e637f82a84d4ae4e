//! Filter chains for the source video of a diff, written as
//! `name:key=value,key=value;name:...`, for example
//! `crop:top=42,left=64;resize:width=1920,height=1080`.
use vstd::prelude::*;
use vstd::string::StringSliceAdditionalSpecFns;

verus! {

/// Resampling kernels for the resize filter.
#[derive(Debug, Clone, Copy, PartialEq, Eq, Structural)]
pub enum ResizeAlg {
    Hermite,
    CatmullRom,
    Mitchell,
    Lanczos,
    Spline36,
}

/// One filter of a chain.
#[derive(Debug, Clone, Copy, PartialEq, Eq, Structural)]
pub enum Filter {
    Crop { top: usize, bottom: usize, left: usize, right: usize },
    Resize { width: usize, height: usize, alg: ResizeAlg },
}

/// Why a filter chain was refused.
#[derive(Debug, Clone, Copy, PartialEq, Eq, Structural)]
pub enum FilterError {
    /// A filter without `:` or an argument without `=`.
    InvalidSyntax,
    /// A filter name that is not `crop` or `resize`.
    UnrecognizedFilter,
    /// An argument the filter does not take.
    UnrecognizedArg,
    /// A resize algorithm that does not exist.
    UnrecognizedAlgorithm,
    /// A value that is not a number that fits in `usize`.
    InvalidNumber,
    /// A resize filter without both width and height.
    MissingSize,
}

/// A sequence of filters applied in order.
pub struct FilterChain {
    pub filters: Vec<Filter>,
}

/// The position of the first `c` in `b` at or after `i`, or `b.len()`.
pub open spec fn find_byte(b: Seq<u8>, c: u8, i: int) -> int
    decreases b.len() - i,
{
    if i < 0 || i >= b.len() {
        b.len() as int
    } else if b[i] == c {
        i
    } else {
        find_byte(b, c, i + 1)
    }
}

proof fn lemma_find_byte_bounds(b: Seq<u8>, c: u8, i: int)
    requires
        0 <= i,
    ensures
        i <= find_byte(b, c, i) <= b.len() || (i > b.len() && find_byte(b, c, i) == b.len()),
        find_byte(b, c, i) < b.len() ==> b[find_byte(b, c, i)] == c,
        forall|k: int| i <= k < find_byte(b, c, i) ==> b[k] != c,
    decreases b.len() - i,
{
    if i < b.len() && b[i] != c {
        lemma_find_byte_bounds(b, c, i + 1);
    }
}

/// The value of a string of decimal digits.
pub open spec fn digits_value(b: Seq<u8>) -> nat
    decreases b.len(),
{
    if b.len() == 0 {
        0
    } else {
        digits_value(b.drop_last()) * 10 + (b.last() - 48) as nat
    }
}

/// One or more decimal digits with a value that fits in `usize`.
pub open spec fn parse_usize_digits(d: Seq<u8>) -> Option<nat> {
    if d.len() > 0 && (forall|i: int| 0 <= i < d.len() ==> 48 <= #[trigger] d[i] <= 57)
        && digits_value(d) <= usize::MAX {
        Some(digits_value(d))
    } else {
        None
    }
}

/// A number as Rust reads a `usize`: an optional `+`, then one or more
/// decimal digits, with a value that fits.
pub open spec fn parse_usize(b: Seq<u8>) -> Option<nat> {
    if b.len() > 0 && b[0] == 43 {
        parse_usize_digits(b.subrange(1, b.len() as int))
    } else {
        parse_usize_digits(b)
    }
}

pub open spec fn lit_crop() -> Seq<u8> {
    seq![99u8, 114, 111, 112]
}

pub open spec fn lit_resize() -> Seq<u8> {
    seq![114u8, 101, 115, 105, 122, 101]
}

/// The algorithm a name selects.
pub open spec fn alg_of(v: Seq<u8>) -> Option<ResizeAlg> {
    if v == seq![104u8, 101, 114, 109, 105, 116, 101] {
        Some(ResizeAlg::Hermite)
    } else if v == seq![99u8, 97, 116, 109, 117, 108, 108, 114, 111, 109] {
        Some(ResizeAlg::CatmullRom)
    } else if v == seq![109u8, 105, 116, 99, 104, 101, 108, 108] {
        Some(ResizeAlg::Mitchell)
    } else if v == seq![108u8, 97, 110, 99, 122, 111, 115] {
        Some(ResizeAlg::Lanczos)
    } else if v == seq![115u8, 112, 108, 105, 110, 101, 51, 54] {
        Some(ResizeAlg::Spline36)
    } else {
        None
    }
}

/// The effect of one `key=value` argument on a filter under construction.
pub open spec fn apply_arg(f: Filter, key: Seq<u8>, value: Seq<u8>) -> Result<Filter, FilterError> {
    match f {
        Filter::Crop { top, bottom, left, right } => {
            let n = parse_usize(value);
            if key == seq![116u8, 111, 112] {
                match n {
                    Some(v) => Ok(Filter::Crop { top: v as usize, bottom, left, right }),
                    None => Err(FilterError::InvalidNumber),
                }
            } else if key == seq![98u8, 111, 116, 116, 111, 109] {
                match n {
                    Some(v) => Ok(Filter::Crop { top, bottom: v as usize, left, right }),
                    None => Err(FilterError::InvalidNumber),
                }
            } else if key == seq![108u8, 101, 102, 116] {
                match n {
                    Some(v) => Ok(Filter::Crop { top, bottom, left: v as usize, right }),
                    None => Err(FilterError::InvalidNumber),
                }
            } else if key == seq![114u8, 105, 103, 104, 116] {
                match n {
                    Some(v) => Ok(Filter::Crop { top, bottom, left, right: v as usize }),
                    None => Err(FilterError::InvalidNumber),
                }
            } else {
                Err(FilterError::UnrecognizedArg)
            }
        },
        Filter::Resize { width, height, alg } => {
            let n = parse_usize(value);
            if key == seq![119u8, 105, 100, 116, 104] {
                match n {
                    Some(v) => Ok(Filter::Resize { width: v as usize, height, alg }),
                    None => Err(FilterError::InvalidNumber),
                }
            } else if key == seq![104u8, 101, 105, 103, 104, 116] {
                match n {
                    Some(v) => Ok(Filter::Resize { width, height: v as usize, alg }),
                    None => Err(FilterError::InvalidNumber),
                }
            } else if key == seq![97u8, 108, 103] {
                match alg_of(value) {
                    Some(a) => Ok(Filter::Resize { width, height, alg: a }),
                    None => Err(FilterError::UnrecognizedAlgorithm),
                }
            } else {
                Err(FilterError::UnrecognizedArg)
            }
        },
    }
}

/// Applies the comma-separated arguments of `b` from `start` to the filter `f`.
pub open spec fn args_from(b: Seq<u8>, start: int, f: Filter) -> Result<Filter, FilterError>
    decreases b.len() - start,
    via args_from_decreases
{
    if start < 0 || start > b.len() {
        Err(FilterError::InvalidSyntax)
    } else {
        let e = find_byte(b, 44, start);
        let arg = b.subrange(start, e);
        let eq = find_byte(arg, 61, 0);
        if eq >= arg.len() {
            Err(FilterError::InvalidSyntax)
        } else {
            match apply_arg(f, arg.subrange(0, eq), arg.subrange(eq + 1, arg.len() as int)) {
                Err(x) => Err(x),
                Ok(g) => if e >= b.len() {
                    Ok(g)
                } else {
                    args_from(b, e + 1, g)
                },
            }
        }
    }
}

#[via_fn]
proof fn args_from_decreases(b: Seq<u8>, start: int, f: Filter) {
    if 0 <= start <= b.len() {
        lemma_find_byte_bounds(b, 44, start);
    }
}

/// The filter one `;`-separated piece describes.
pub open spec fn filter_of(p: Seq<u8>) -> Result<Filter, FilterError> {
    let colon = find_byte(p, 58, 0);
    if colon >= p.len() {
        Err(FilterError::InvalidSyntax)
    } else {
        let name = p.subrange(0, colon);
        let args = p.subrange(colon + 1, p.len() as int);
        if name == lit_crop() {
            args_from(args, 0, Filter::Crop { top: 0, bottom: 0, left: 0, right: 0 })
        } else if name == lit_resize() {
            match args_from(args, 0, Filter::Resize { width: 0, height: 0, alg: ResizeAlg::CatmullRom }) {
                Ok(Filter::Resize { width, height, alg }) => if width == 0 || height == 0 {
                    Err(FilterError::MissingSize)
                } else {
                    Ok(Filter::Resize { width, height, alg })
                },
                other => other,
            }
        } else {
            Err(FilterError::UnrecognizedFilter)
        }
    }
}

/// The filters of the `;`-separated pieces of `b` from `start`.
pub open spec fn chain_from(b: Seq<u8>, start: int) -> Result<Seq<Filter>, FilterError>
    decreases b.len() - start,
    via chain_from_decreases
{
    if start < 0 || start > b.len() {
        Err(FilterError::InvalidSyntax)
    } else {
        let e = find_byte(b, 59, start);
        match filter_of(b.subrange(start, e)) {
            Err(x) => Err(x),
            Ok(f) => if e >= b.len() {
                Ok(seq![f])
            } else {
                match chain_from(b, e + 1) {
                    Ok(fs) => Ok(seq![f] + fs),
                    Err(x) => Err(x),
                }
            },
        }
    }
}

#[via_fn]
proof fn chain_from_decreases(b: Seq<u8>, start: int) {
    if 0 <= start <= b.len() {
        lemma_find_byte_bounds(b, 59, start);
    }
}

/// The filter chain a description spells: no filters for an empty one.
pub open spec fn chain_of(b: Seq<u8>) -> Result<Seq<Filter>, FilterError> {
    if b.len() == 0 {
        Ok(Seq::empty())
    } else {
        chain_from(b, 0)
    }
}

/// The first position of `c` in `b[from..to]`, or `to`.
fn find_in(b: &[u8], c: u8, from: usize, to: usize) -> (r: usize)
    requires
        from <= to <= b@.len(),
    ensures
        r == from + find_byte(b@.subrange(from as int, to as int), c, 0),
        from <= r <= to,
{
    let ghost s = b@.subrange(from as int, to as int);
    let mut i = from;
    while i < to && b[i] != c
        invariant
            from <= i <= to,
            to <= b@.len(),
            s == b@.subrange(from as int, to as int),
            find_byte(s, c, 0) == find_byte(s, c, (i - from) as int),
        decreases to - i,
    {
        i = i + 1;
    }
    i
}

/// Whether `b[from..to]` equals `lit`.
fn bytes_equal(b: &[u8], from: usize, to: usize, lit: &[u8]) -> (r: bool)
    requires
        from <= to <= b@.len(),
    ensures
        r == (b@.subrange(from as int, to as int) == lit@),
{
    if to - from != lit.len() {
        return false;
    }
    let mut i: usize = 0;
    while i < lit.len()
        invariant
            to - from == lit@.len(),
            from <= to <= b@.len(),
            i <= lit@.len(),
            forall|k: int| 0 <= k < i ==> b@[from + k] == lit@[k],
        decreases lit@.len() - i,
    {
        if b[from + i] != lit[i] {
            assert(b@.subrange(from as int, to as int)[i as int] != lit@[i as int]);
            return false;
        }
        i = i + 1;
    }
    assert(b@.subrange(from as int, to as int) =~= lit@);
    true
}

/// Reads `b[from..to]` as a `usize` the way Rust's `parse` does.
fn parse_number(b: &[u8], from: usize, to: usize) -> (r: Option<usize>)
    requires
        from <= to <= b@.len(),
    ensures
        r matches Some(v) ==> parse_usize(b@.subrange(from as int, to as int)) == Some(v as nat),
        r is None ==> parse_usize(b@.subrange(from as int, to as int)) is None,
{
    let ghost s = b@.subrange(from as int, to as int);
    let start = if from < to && b[from] == 43 {
        from + 1
    } else {
        from
    };
    let ghost d = b@.subrange(start as int, to as int);
    assert(d =~= (if s.len() > 0 && s[0] == 43 {
        s.subrange(1, s.len() as int)
    } else {
        s
    }));
    if start == to {
        return None;
    }
    let mut v: usize = 0;
    let mut i = start;
    proof {
        assert(d.subrange(0, 0) =~= Seq::<u8>::empty());
    }
    while i < to
        invariant
            start <= i <= to,
            start < to,
            from <= start <= from + 1,
            to <= b@.len(),
            d == b@.subrange(start as int, to as int),
            s == b@.subrange(from as int, to as int),
            d == (if s.len() > 0 && s[0] == 43 {
                s.subrange(1, s.len() as int)
            } else {
                s
            }),
            v == digits_value(d.subrange(0, i - start)),
            forall|k: int| 0 <= k < i - start ==> 48 <= #[trigger] d[k] <= 57,
        decreases to - i,
    {
        let c = b[i];
        if c < 48 || c > 57 {
            proof {
                let k = i - start;
                if s.len() > 0 && s[0] == 43 {
                    assert(s.subrange(1, s.len() as int)[k] == c);
                } else {
                    assert(s[k] == c);
                }
            }
            return None;
        }
        let digit = (c - 48) as usize;
        proof {
            let next = d.subrange(0, i - start + 1);
            assert(next.drop_last() =~= d.subrange(0, i - start));
            assert(next.last() == c);
        }
        if v > (usize::MAX - digit) / 10 {
            proof {
                let n1 = (i - start + 1) as int;
                assert(digits_value(d.subrange(0, n1)) == v * 10 + digit);
                assert(v * 10 + digit > usize::MAX) by (nonlinear_arith)
                    requires
                        v > (usize::MAX - digit) / 10,
                        digit <= 9,
                ;
                if forall|k: int| 0 <= k < d.len() ==> 48 <= #[trigger] d[k] <= 57 {
                    lemma_digits_mono(d, n1, d.len() as int);
                    assert(d.subrange(0, d.len() as int) =~= d);
                }
                if s.len() > 0 && s[0] == 43 {
                    assert(parse_usize(s) == parse_usize_digits(s.subrange(1, s.len() as int)));
                } else {
                    assert(parse_usize(s) == parse_usize_digits(s));
                }
            }
            return None;
        }
        v = v * 10 + digit;
        i = i + 1;
    }
    assert(d.subrange(0, d.len() as int) =~= d);
    Some(v)
}

proof fn lemma_digits_mono(d: Seq<u8>, n: int, m: int)
    requires
        0 <= n <= m <= d.len(),
        forall|k: int| 0 <= k < m ==> 48 <= #[trigger] d[k] <= 57,
    ensures
        digits_value(d.subrange(0, m)) >= digits_value(d.subrange(0, n)),
    decreases m - n,
{
    if m > n {
        lemma_digits_mono(d, n, m - 1);
        assert(d.subrange(0, m).drop_last() =~= d.subrange(0, m - 1));
    }
}

/// Applies one `key=value` argument, the key and value given as ranges of `b`.
fn apply_arg_exec(
    b: &[u8],
    f: Filter,
    k0: usize,
    k1: usize,
    v0: usize,
    v1: usize,
) -> (r: Result<Filter, FilterError>)
    requires
        k0 <= k1 <= b@.len(),
        v0 <= v1 <= b@.len(),
    ensures
        r == apply_arg(f, b@.subrange(k0 as int, k1 as int), b@.subrange(v0 as int, v1 as int)),
{
    let top: [u8; 3] = [116u8, 111, 112];
    let bottom: [u8; 6] = [98u8, 111, 116, 116, 111, 109];
    let left: [u8; 4] = [108u8, 101, 102, 116];
    let right: [u8; 5] = [114u8, 105, 103, 104, 116];
    let width: [u8; 5] = [119u8, 105, 100, 116, 104];
    let height: [u8; 6] = [104u8, 101, 105, 103, 104, 116];
    let alg: [u8; 3] = [97u8, 108, 103];
    assert(top@ =~= seq![116u8, 111, 112]);
    assert(bottom@ =~= seq![98u8, 111, 116, 116, 111, 109]);
    assert(left@ =~= seq![108u8, 101, 102, 116]);
    assert(right@ =~= seq![114u8, 105, 103, 104, 116]);
    assert(width@ =~= seq![119u8, 105, 100, 116, 104]);
    assert(height@ =~= seq![104u8, 101, 105, 103, 104, 116]);
    assert(alg@ =~= seq![97u8, 108, 103]);
    match f {
        Filter::Crop { top: t, bottom: bo, left: l, right: ri } => {
            let n = parse_number(b, v0, v1);
            if bytes_equal(b, k0, k1, top.as_slice()) {
                match n {
                    Some(v) => Ok(Filter::Crop { top: v, bottom: bo, left: l, right: ri }),
                    None => Err(FilterError::InvalidNumber),
                }
            } else if bytes_equal(b, k0, k1, bottom.as_slice()) {
                match n {
                    Some(v) => Ok(Filter::Crop { top: t, bottom: v, left: l, right: ri }),
                    None => Err(FilterError::InvalidNumber),
                }
            } else if bytes_equal(b, k0, k1, left.as_slice()) {
                match n {
                    Some(v) => Ok(Filter::Crop { top: t, bottom: bo, left: v, right: ri }),
                    None => Err(FilterError::InvalidNumber),
                }
            } else if bytes_equal(b, k0, k1, right.as_slice()) {
                match n {
                    Some(v) => Ok(Filter::Crop { top: t, bottom: bo, left: l, right: v }),
                    None => Err(FilterError::InvalidNumber),
                }
            } else {
                Err(FilterError::UnrecognizedArg)
            }
        },
        Filter::Resize { width: w, height: h, alg: a } => {
            let n = parse_number(b, v0, v1);
            if bytes_equal(b, k0, k1, width.as_slice()) {
                match n {
                    Some(v) => Ok(Filter::Resize { width: v, height: h, alg: a }),
                    None => Err(FilterError::InvalidNumber),
                }
            } else if bytes_equal(b, k0, k1, height.as_slice()) {
                match n {
                    Some(v) => Ok(Filter::Resize { width: w, height: v, alg: a }),
                    None => Err(FilterError::InvalidNumber),
                }
            } else if bytes_equal(b, k0, k1, alg.as_slice()) {
                match alg_exec(b, v0, v1) {
                    Some(x) => Ok(Filter::Resize { width: w, height: h, alg: x }),
                    None => Err(FilterError::UnrecognizedAlgorithm),
                }
            } else {
                Err(FilterError::UnrecognizedArg)
            }
        },
    }
}

/// The algorithm that `b[from..to]` names.
fn alg_exec(b: &[u8], from: usize, to: usize) -> (r: Option<ResizeAlg>)
    requires
        from <= to <= b@.len(),
    ensures
        r == alg_of(b@.subrange(from as int, to as int)),
{
    let hermite: [u8; 7] = [104u8, 101, 114, 109, 105, 116, 101];
    let catmullrom: [u8; 10] = [99u8, 97, 116, 109, 117, 108, 108, 114, 111, 109];
    let mitchell: [u8; 8] = [109u8, 105, 116, 99, 104, 101, 108, 108];
    let lanczos: [u8; 7] = [108u8, 97, 110, 99, 122, 111, 115];
    let spline36: [u8; 8] = [115u8, 112, 108, 105, 110, 101, 51, 54];
    assert(hermite@ =~= seq![104u8, 101, 114, 109, 105, 116, 101]);
    assert(catmullrom@ =~= seq![99u8, 97, 116, 109, 117, 108, 108, 114, 111, 109]);
    assert(mitchell@ =~= seq![109u8, 105, 116, 99, 104, 101, 108, 108]);
    assert(lanczos@ =~= seq![108u8, 97, 110, 99, 122, 111, 115]);
    assert(spline36@ =~= seq![115u8, 112, 108, 105, 110, 101, 51, 54]);
    if bytes_equal(b, from, to, hermite.as_slice()) {
        Some(ResizeAlg::Hermite)
    } else if bytes_equal(b, from, to, catmullrom.as_slice()) {
        Some(ResizeAlg::CatmullRom)
    } else if bytes_equal(b, from, to, mitchell.as_slice()) {
        Some(ResizeAlg::Mitchell)
    } else if bytes_equal(b, from, to, lanczos.as_slice()) {
        Some(ResizeAlg::Lanczos)
    } else if bytes_equal(b, from, to, spline36.as_slice()) {
        Some(ResizeAlg::Spline36)
    } else {
        None
    }
}

/// Applies the arguments in `b[start..to]` to `f`.
fn args_exec(b: &[u8], start: usize, to: usize, f: Filter) -> (r: Result<Filter, FilterError>)
    requires
        start <= to <= b@.len(),
    ensures
        r == args_from(b@.subrange(0, to as int), start as int, f),
    decreases to - start,
{
    let ghost s = b@.subrange(0, to as int);
    let e = find_in(b, 44, start, to);
    proof {
        lemma_find_shift(b@, 44, start as int, to as int);
    }
    let eq = find_in(b, 61, start, e);
    proof {
        lemma_find_shift(b@, 61, start as int, e as int);
        assert(s.subrange(start as int, e as int) =~= b@.subrange(start as int, e as int));
        let arg = s.subrange(start as int, e as int);
        assert(b@.subrange(start as int, e as int).subrange(0, eq - start) =~= b@.subrange(
            start as int,
            eq as int,
        ));
        assert(find_byte(arg, 61, 0) == find_byte(b@.subrange(start as int, e as int), 61, 0));
    }
    if eq >= e {
        return Err(FilterError::InvalidSyntax);
    }
    proof {
        let arg = s.subrange(start as int, e as int);
        let q = eq - start;
        assert(arg.subrange(0, q) =~= b@.subrange(start as int, eq as int));
        assert(arg.subrange(q + 1, arg.len() as int) =~= b@.subrange(eq + 1, e as int));
    }
    let g = apply_arg_exec(b, f, start, eq, eq + 1, e)?;
    if e >= to {
        return Ok(g);
    }
    args_exec(b, e + 1, to, g)
}

/// `find_byte` over a window of `b` agrees with `find_byte` over the prefix
/// of `b` that ends with the window.
proof fn lemma_find_shift(b: Seq<u8>, c: u8, from: int, to: int)
    requires
        0 <= from <= to <= b.len(),
    ensures
        from + find_byte(b.subrange(from, to), c, 0) == find_byte(b.subrange(0, to), c, from),
{
    lemma_find_shift_at(b, c, from, to, 0);
}

proof fn lemma_find_shift_at(b: Seq<u8>, c: u8, from: int, to: int, i: int)
    requires
        0 <= from <= to <= b.len(),
        0 <= i <= to - from,
    ensures
        from + find_byte(b.subrange(from, to), c, i) == find_byte(b.subrange(0, to), c, from + i),
    decreases to - from - i,
{
    if i < to - from {
        lemma_find_shift_at(b, c, from, to, i + 1);
    }
}

/// The filter that `b[from..to]` describes.
fn filter_exec(b: &[u8], from: usize, to: usize) -> (r: Result<Filter, FilterError>)
    requires
        from <= to <= b@.len(),
    ensures
        r == filter_of(b@.subrange(from as int, to as int)),
{
    let ghost p = b@.subrange(from as int, to as int);
    let colon = find_in(b, 58, from, to);
    if colon >= to {
        return Err(FilterError::InvalidSyntax);
    }
    let crop: [u8; 4] = [99u8, 114, 111, 112];
    let resize: [u8; 6] = [114u8, 101, 115, 105, 122, 101];
    assert(crop@ =~= lit_crop());
    assert(resize@ =~= lit_resize());
    proof {
        let q = colon - from;
        assert(p.subrange(0, q) =~= b@.subrange(from as int, colon as int));
        let args = p.subrange(q + 1, p.len() as int);
        assert(args =~= b@.subrange(colon + 1, to as int));
    }
    let args = vstd::slice::slice_subrange(b, colon + 1, to);
    proof {
        assert(args@.subrange(0, args@.len() as int) =~= args@);
    }
    if bytes_equal(b, from, colon, crop.as_slice()) {
        args_exec(args, 0, args.len(), Filter::Crop { top: 0, bottom: 0, left: 0, right: 0 })
    } else if bytes_equal(b, from, colon, resize.as_slice()) {
        let r = args_exec(
            args,
            0,
            args.len(),
            Filter::Resize { width: 0, height: 0, alg: ResizeAlg::CatmullRom },
        );
        match r {
            Ok(Filter::Resize { width, height, alg }) => {
                if width == 0 || height == 0 {
                    Err(FilterError::MissingSize)
                } else {
                    Ok(Filter::Resize { width, height, alg })
                }
            },
            other => other,
        }
    } else {
        Err(FilterError::UnrecognizedFilter)
    }
}

/// The filters of the pieces of `b[start..]`.
fn chain_exec(b: &[u8], start: usize) -> (r: Result<Vec<Filter>, FilterError>)
    requires
        start <= b@.len(),
    ensures
        r matches Ok(v) ==> chain_from(b@, start as int) == Ok::<Seq<Filter>, FilterError>(v@),
        r matches Err(x) ==> chain_from(b@, start as int) == Err::<Seq<Filter>, FilterError>(x),
    decreases b@.len() - start,
{
    let e = find_in(b, 59, start, b.len());
    proof {
        lemma_find_shift(b@, 59, start as int, b@.len() as int);
        assert(b@.subrange(0, b@.len() as int) =~= b@);
    }
    let f = filter_exec(b, start, e)?;
    if e >= b.len() {
        let mut v: Vec<Filter> = Vec::new();
        v.push(f);
        assert(v@ =~= seq![f]);
        return Ok(v);
    }
    let rest = chain_exec(b, e + 1)?;
    let mut v: Vec<Filter> = Vec::new();
    v.push(f);
    let mut i: usize = 0;
    while i < rest.len()
        invariant
            i <= rest@.len(),
            v@ == seq![f] + rest@.subrange(0, i as int),
        decreases rest@.len() - i,
    {
        v.push(rest[i]);
        i = i + 1;
        assert(v@ =~= seq![f] + rest@.subrange(0, i as int));
    }
    assert(rest@.subrange(0, rest@.len() as int) =~= rest@);
    Ok(v)
}

impl FilterChain {
    /// Parses a filter chain description; an empty description gives an
    /// empty chain.
    pub fn new(filters: &str) -> (r: Result<FilterChain, FilterError>)
        ensures
            r matches Ok(c) ==> chain_of(filters.spec_bytes()) == Ok::<Seq<Filter>, FilterError>(
                c.filters@,
            ),
            r matches Err(x) ==> chain_of(filters.spec_bytes()) == Err::<Seq<Filter>, FilterError>(
                x,
            ),
    {
        let b = filters.as_bytes();
        if b.len() == 0 {
            return Ok(FilterChain { filters: Vec::new() });
        }
        let v = chain_exec(b, 0)?;
        Ok(FilterChain { filters: v })
    }
}

} // verus!

//! Decimal numerals: the byte-level shape of the numeric tokens the script
//! language uses, their mathematical values, and verified conversions in both
//! directions.

use vstd::prelude::*;

verus! {

/// Whether a byte is an ASCII decimal digit.
pub open spec fn is_digit(b: u8) -> bool {
    48 <= b && b <= 57
}

/// The numeric value of an ASCII digit byte.
pub open spec fn digit_val(b: u8) -> nat {
    (b - 48) as nat
}

/// Whether every byte of a sequence is an ASCII digit.
pub open spec fn all_digits(s: Seq<u8>) -> bool {
    forall|i: int| 0 <= i < s.len() ==> is_digit(#[trigger] s[i])
}

/// The value of a digit string, most significant digit first.
pub open spec fn digits_val(s: Seq<u8>) -> nat
    decreases s.len(),
{
    if s.len() == 0 {
        0
    } else {
        digits_val(s.drop_last()) * 10 + digit_val(s.last())
    }
}

/// A digit string is worth at least as much as any of its prefixes.
pub proof fn lemma_digits_val_prefix(s: Seq<u8>, k: int)
    requires
        0 <= k <= s.len(),
    ensures
        digits_val(s.take(k)) <= digits_val(s),
    decreases s.len() - k,
{
    if k < s.len() {
        lemma_digits_val_prefix(s, k + 1);
        assert(s.take(k + 1).drop_last() =~= s.take(k));
        assert(digits_val(s.take(k + 1)) == digits_val(s.take(k)) * 10 + digit_val(
            s.take(k + 1).last(),
        ));
    } else {
        assert(s.take(k) =~= s);
    }
}

/// Leading zeros do not change a digit string's value.
pub proof fn lemma_digits_val_leading_zeros(z: Seq<u8>, s: Seq<u8>)
    requires
        forall|i: int| 0 <= i < z.len() ==> #[trigger] z[i] == 48u8,
    ensures
        digits_val(z + s) == digits_val(s),
    decreases s.len(),
{
    if s.len() == 0 {
        lemma_digits_val_zeros(z);
        assert(z + s =~= z);
    } else {
        lemma_digits_val_leading_zeros(z, s.drop_last());
        assert((z + s).drop_last() =~= z + s.drop_last());
        assert((z + s).last() == s.last());
    }
}

/// A string of zero digits is worth zero.
pub proof fn lemma_digits_val_zeros(z: Seq<u8>)
    requires
        forall|i: int| 0 <= i < z.len() ==> #[trigger] z[i] == 48u8,
    ensures
        digits_val(z) == 0,
    decreases z.len(),
{
    if z.len() > 0 {
        lemma_digits_val_zeros(z.drop_last());
    }
}

/// The meaning of a whole decimal token of digits, if it fits in a `u32`.
pub open spec fn spec_parse_u32(t: Seq<u8>) -> Option<u32> {
    if t.len() > 0 && all_digits(t) && digits_val(t) <= u32::MAX {
        Some(digits_val(t) as u32)
    } else {
        None
    }
}

/// Parses an unsigned decimal token into a `u32`; fails on an empty token, a
/// non-digit byte, or a value above the 32-bit unsigned range.
pub fn parse_u32_token(t: &[u8]) -> (r: Option<u32>)
    ensures
        r == spec_parse_u32(t@),
{
    if t.len() == 0 {
        return None;
    }
    let mut acc: u64 = 0;
    let mut i: usize = 0;
    while i < t.len()
        invariant
            0 <= i <= t@.len(),
            all_digits(t@.take(i as int)),
            acc == digits_val(t@.take(i as int)),
            acc <= u32::MAX,
        decreases t@.len() - i,
    {
        let b = t[i];
        if !(48 <= b && b <= 57) {
            return None;
        }
        let d: u64 = (b - 48) as u64;
        let next: u64 = acc * 10 + d;
        assert(t@.take(i + 1).drop_last() =~= t@.take(i as int));
        assert(digits_val(t@.take(i + 1)) == acc * 10 + digit_val(b));
        if next > u32::MAX as u64 {
            proof {
                lemma_digits_val_prefix(t@, i + 1);
            }
            return None;
        }
        acc = next;
        i = i + 1;
    }
    assert(t@.take(t@.len() as int) =~= t@);
    Some(acc as u32)
}

/// The meaning of a signed decimal token (optional `+` or `-`, then digits),
/// if it fits in an `i32`.
pub open spec fn spec_parse_i32(t: Seq<u8>) -> Option<i32> {
    if t.len() > 0 && (t[0] == 43 || t[0] == 45) {
        let ds = t.skip(1);
        if ds.len() > 0 && all_digits(ds) {
            if t[0] == 45 && digits_val(ds) <= 0x8000_0000 {
                Some((-(digits_val(ds) as int)) as i32)
            } else if t[0] == 43 && digits_val(ds) <= i32::MAX {
                Some(digits_val(ds) as i32)
            } else {
                None
            }
        } else {
            None
        }
    } else {
        if t.len() > 0 && all_digits(t) && digits_val(t) <= i32::MAX {
            Some(digits_val(t) as i32)
        } else {
            None
        }
    }
}

/// Parses an optionally signed decimal token into an `i32`; fails on an empty
/// or malformed token or a value outside the 32-bit signed range.
pub fn parse_i32_token(t: &[u8]) -> (r: Option<i32>)
    ensures
        r == spec_parse_i32(t@),
{
    if t.len() == 0 {
        return None;
    }
    let first = t[0];
    if first == 43 || first == 45 {
        let ds: &[u8] = &t[1..t.len()];
        assert(ds@ =~= t@.skip(1));
        match parse_u32_magnitude(ds) {
            None => None,
            Some(m) => {
                if first == 45 {
                    if m <= 0x8000_0000 {
                        Some((-(m as i64)) as i32)
                    } else {
                        None
                    }
                } else {
                    if m <= i32::MAX as u64 {
                        Some(m as i32)
                    } else {
                        None
                    }
                }
            },
        }
    } else {
        match parse_u32_magnitude(t) {
            None => None,
            Some(m) => {
                if m <= i32::MAX as u64 {
                    Some(m as i32)
                } else {
                    None
                }
            },
        }
    }
}

/// The magnitude of a digit token, if it is at most `u32::MAX + 1` (enough
/// room to hold the magnitude of any 32-bit value, signed or unsigned).
pub open spec fn spec_parse_magnitude(t: Seq<u8>) -> Option<u64> {
    if t.len() > 0 && all_digits(t) && digits_val(t) <= 0x1_0000_0000 {
        Some(digits_val(t) as u64)
    } else {
        None
    }
}

fn parse_u32_magnitude(t: &[u8]) -> (r: Option<u64>)
    ensures
        r == spec_parse_magnitude(t@),
{
    if t.len() == 0 {
        return None;
    }
    let mut acc: u64 = 0;
    let mut i: usize = 0;
    while i < t.len()
        invariant
            0 <= i <= t@.len(),
            all_digits(t@.take(i as int)),
            acc == digits_val(t@.take(i as int)),
            acc <= 0x1_0000_0000,
        decreases t@.len() - i,
    {
        let b = t[i];
        if !(48 <= b && b <= 57) {
            return None;
        }
        let d: u64 = (b - 48) as u64;
        let next: u64 = acc * 10 + d;
        assert(t@.take(i + 1).drop_last() =~= t@.take(i as int));
        assert(digits_val(t@.take(i + 1)) == acc * 10 + digit_val(b));
        if next > 0x1_0000_0000 {
            proof {
                lemma_digits_val_prefix(t@, i + 1);
            }
            return None;
        }
        acc = next;
        i = i + 1;
    }
    assert(t@.take(t@.len() as int) =~= t@);
    Some(acc)
}

/// An exact decimal literal: the typed form this library gives to the
/// fractional arguments of the script language (blur strength, contrast
/// level, kernel entries). The denoted number is
/// `(-1)^neg * mantissa / 10^scale`. A well-formed literal is normalized, so
/// two tokens denoting the same number coerce to equal values.
#[derive(Debug, Clone, Copy, PartialEq, Eq, Structural, Hash)]
pub struct FpLit {
    pub neg: bool,
    pub mantissa: u128,
    pub scale: usize,
}

impl FpLit {
    /// Normalization: zero is positive with scale zero, and a positive scale
    /// never carries a trailing zero digit.
    pub open spec fn wf(self) -> bool {
        &&& self.mantissa == 0 ==> !self.neg && self.scale == 0
        &&& self.scale > 0 ==> self.mantissa % 10 != 0
    }

    /// The normalized literal worth `m / 10^scale`, for writing expected
    /// values directly.
    pub fn from_parts(neg: bool, mantissa: u128, scale: usize) -> (r: FpLit)
        ensures
            r == spec_normalize_fp(neg, mantissa as nat, scale as nat),
            r.wf(),
    {
        normalize_fp(neg, mantissa, scale)
    }

    /// The literal worth exactly the integer `n`.
    pub fn whole(n: u128) -> (r: FpLit)
        ensures
            r == (FpLit { neg: false, mantissa: n, scale: 0 }),
            r.wf(),
    {
        FpLit { neg: false, mantissa: n, scale: 0 }
    }
}

/// The normalized form of a raw (sign, mantissa, scale) reading.
pub open spec fn spec_normalize_fp(neg: bool, m: nat, s: nat) -> FpLit
    decreases s,
{
    if s > 0 && m % 10 == 0 {
        spec_normalize_fp(neg, m / 10, (s - 1) as nat)
    } else {
        FpLit { neg: neg && m != 0, mantissa: m as u128, scale: s as usize }
    }
}

pub proof fn lemma_normalize_fp_wf(neg: bool, m: nat, s: nat)
    requires
        m <= u128::MAX,
        s <= usize::MAX,
    ensures
        spec_normalize_fp(neg, m, s).wf(),
        spec_normalize_fp(neg, m, s).mantissa <= m,
        spec_normalize_fp(neg, m, s).scale <= s,
    decreases s,
{
    if s > 0 && m % 10 == 0 {
        lemma_normalize_fp_wf(neg, m / 10, (s - 1) as nat);
    }
}

fn normalize_fp(neg: bool, mantissa: u128, scale: usize) -> (r: FpLit)
    ensures
        r == spec_normalize_fp(neg, mantissa as nat, scale as nat),
        r.wf(),
{
    proof {
        lemma_normalize_fp_wf(neg, mantissa as nat, scale as nat);
    }
    let mut m = mantissa;
    let mut s = scale;
    while s > 0 && m % 10 == 0
        invariant
            spec_normalize_fp(neg, m as nat, s as nat) == spec_normalize_fp(
                neg,
                mantissa as nat,
                scale as nat,
            ),
        decreases s,
    {
        m = m / 10;
        s = s - 1;
    }
    FpLit { neg: neg && m != 0, mantissa: m, scale: s }
}

/// Index of the first occurrence of `b` in `s`, or `s.len()` if absent.
pub open spec fn find_byte(s: Seq<u8>, b: u8) -> int
    decreases s.len(),
{
    if s.len() == 0 {
        0
    } else if s[0] == b {
        0
    } else {
        1 + find_byte(s.skip(1), b)
    }
}

pub proof fn lemma_find_byte(s: Seq<u8>, b: u8)
    ensures
        0 <= find_byte(s, b) <= s.len(),
        find_byte(s, b) < s.len() ==> s[find_byte(s, b)] == b,
        forall|i: int| 0 <= i < find_byte(s, b) ==> s[i] != b,
    decreases s.len(),
{
    if s.len() > 0 && s[0] != b {
        lemma_find_byte(s.skip(1), b);
        assert(forall|i: int| 1 <= i < s.len() ==> s[i] == s.skip(1)[i - 1]);
    }
}

/// In a sequence made of a `b`-free part followed by `b` and a tail, the
/// first `b` stands exactly at the seam.
pub proof fn lemma_find_byte_concat(a: Seq<u8>, tail: Seq<u8>, b: u8)
    requires
        forall|i: int| 0 <= i < a.len() ==> a[i] != b,
        tail.len() > 0 && tail[0] == b,
    ensures
        find_byte(a + tail, b) == a.len(),
    decreases a.len(),
{
    if a.len() == 0 {
        assert(a + tail =~= tail);
    } else {
        lemma_find_byte_concat(a.skip(1), tail, b);
        assert((a + tail).skip(1) =~= a.skip(1) + tail);
    }
}

/// No `b` at all leaves `find_byte` at the end.
pub proof fn lemma_find_byte_absent(a: Seq<u8>, b: u8)
    requires
        forall|i: int| 0 <= i < a.len() ==> a[i] != b,
    ensures
        find_byte(a, b) == a.len(),
    decreases a.len(),
{
    if a.len() > 0 {
        lemma_find_byte_absent(a.skip(1), b);
    }
}

/// The raw reading of a fractional token: sign, integer digits, fraction
/// digits. `None` when the token is not of the shape
/// `[+|-] digits [. digits]` (a bare trailing dot is malformed).
pub open spec fn spec_fp_split(t: Seq<u8>) -> Option<(bool, Seq<u8>, Seq<u8>)> {
    if t.len() == 0 {
        None
    } else {
        let neg = t[0] == 45;
        let body = if t[0] == 43 || t[0] == 45 {
            t.skip(1)
        } else {
            t
        };
        let dot = find_byte(body, 46);
        let ip = body.take(dot);
        let rest = body.skip(dot);
        if ip.len() == 0 || !all_digits(ip) {
            None
        } else if rest.len() == 0 {
            Some((neg, ip, Seq::empty()))
        } else {
            let fp = rest.skip(1);
            if fp.len() > 0 && all_digits(fp) {
                Some((neg, ip, fp))
            } else {
                None
            }
        }
    }
}

/// The meaning of a fractional token: its normalized exact-decimal value, if
/// the token is well shaped and its combined digits fit the mantissa.
pub open spec fn spec_parse_fp(t: Seq<u8>) -> Option<FpLit> {
    match spec_fp_split(t) {
        None => None,
        Some((neg, ip, fp)) => {
            if digits_val(ip + fp) <= u128::MAX && fp.len() <= usize::MAX {
                Some(spec_normalize_fp(neg, digits_val(ip + fp), fp.len()))
            } else {
                None
            }
        },
    }
}

/// A token that parses at all parses to a normalized literal.
pub proof fn lemma_spec_parse_fp_wf(t: Seq<u8>)
    ensures
        spec_parse_fp(t) is Some ==> spec_parse_fp(t).unwrap().wf(),
{
    match spec_fp_split(t) {
        None => {},
        Some((neg, ip, fp)) => {
            if digits_val(ip + fp) <= u128::MAX && fp.len() <= usize::MAX {
                lemma_normalize_fp_wf(neg, digits_val(ip + fp), fp.len());
            }
        },
    }
}

/// Parses a fractional token into its exact-decimal value; fails on a
/// malformed token (empty, a bare trailing dot, a stray byte) or when the
/// digits exceed the mantissa's capacity.
pub fn parse_fp_token(t: &[u8]) -> (r: Option<FpLit>)
    ensures
        r == spec_parse_fp(t@),
        r is Some ==> r.unwrap().wf(),
{
    if t.len() == 0 {
        return None;
    }
    let first = t[0];
    let neg = first == 45;
    let start: usize = if first == 43 || first == 45 {
        1
    } else {
        0
    };
    let body: &[u8] = &t[start..t.len()];
    assert(body@ =~= if t@[0] == 43 || t@[0] == 45 {
        t@.skip(1)
    } else {
        t@
    });
    let dot = find_byte_exec(body, 46);
    let ip: &[u8] = &body[0..dot];
    let rest: &[u8] = &body[dot..body.len()];
    assert(ip@ =~= body@.take(dot as int));
    assert(rest@ =~= body@.skip(dot as int));
    let fp: &[u8] = if rest.len() == 0 {
        &rest[0..0]
    } else {
        &rest[1..rest.len()]
    };
    if ip.len() == 0 || !all_digits_slice(ip) {
        return None;
    }
    if rest.len() != 0 {
        assert(fp@ =~= rest@.skip(1));
        if fp.len() == 0 || !all_digits_slice(fp) {
            return None;
        }
    } else {
        assert(fp@ =~= Seq::<u8>::empty());
    }
    let m = match digits_to_u128(ip, fp) {
        None => {
            return None;
        },
        Some(m) => m,
    };
    proof {
        lemma_normalize_fp_wf(neg, m as nat, fp@.len());
    }
    Some(normalize_fp(neg, m, fp.len()))
}

/// Whether a token has the fractional shape `[+|-] digits [. digits]`,
/// without regard to its magnitude.
pub fn fp_shape_ok(t: &[u8]) -> (r: bool)
    ensures
        r == (spec_fp_split(t@) is Some),
{
    if t.len() == 0 {
        return false;
    }
    let first = t[0];
    let start: usize = if first == 43 || first == 45 {
        1
    } else {
        0
    };
    let body: &[u8] = &t[start..t.len()];
    assert(body@ =~= if t@[0] == 43 || t@[0] == 45 {
        t@.skip(1)
    } else {
        t@
    });
    let dot = find_byte_exec(body, 46);
    let ip: &[u8] = &body[0..dot];
    let rest: &[u8] = &body[dot..body.len()];
    assert(ip@ =~= body@.take(dot as int));
    assert(rest@ =~= body@.skip(dot as int));
    if ip.len() == 0 || !all_digits_slice(ip) {
        return false;
    }
    if rest.len() == 0 {
        return true;
    }
    let fp: &[u8] = &rest[1..rest.len()];
    assert(fp@ =~= rest@.skip(1));
    fp.len() > 0 && all_digits_slice(fp)
}

pub(crate) fn find_byte_exec(s: &[u8], b: u8) -> (r: usize)
    ensures
        r == find_byte(s@, b),
        r <= s@.len(),
{
    proof {
        lemma_find_byte(s@, b);
    }
    let mut i: usize = 0;
    while i < s.len()
        invariant
            0 <= i <= s@.len(),
            forall|j: int| 0 <= j < i ==> s@[j] != b,
            0 <= find_byte(s@, b) <= s@.len(),
            find_byte(s@, b) < s@.len() ==> s@[find_byte(s@, b)] == b,
            forall|j: int| 0 <= j < find_byte(s@, b) ==> s@[j] != b,
        decreases s@.len() - i,
    {
        if s[i] == b {
            assert(find_byte(s@, b) == i) by {
                if find_byte(s@, b) < i {
                    assert(s@[find_byte(s@, b)] != b);
                }
            }
            return i;
        }
        i = i + 1;
    }
    assert(find_byte(s@, b) == s@.len()) by {
        if find_byte(s@, b) < s@.len() {
            assert(s@[find_byte(s@, b)] != b);
        }
    }
    i
}

/// Whether every byte of a slice is an ASCII digit.
pub fn all_digits_slice(s: &[u8]) -> (r: bool)
    ensures
        r == all_digits(s@),
{
    let mut i: usize = 0;
    while i < s.len()
        invariant
            0 <= i <= s@.len(),
            all_digits(s@.take(i as int)),
        decreases s@.len() - i,
    {
        let b = s[i];
        if !(48 <= b && b <= 57) {
            return false;
        }
        assert(s@.take(i + 1).drop_last() =~= s@.take(i as int));
        i = i + 1;
    }
    assert(s@.take(s@.len() as int) =~= s@);
    true
}

/// Accumulates the combined digits of two digit runs into a mantissa,
/// detecting overflow of the 128-bit range exactly.
fn digits_to_u128(ip: &[u8], fp: &[u8]) -> (r: Option<u128>)
    requires
        all_digits(ip@),
        all_digits(fp@),
    ensures
        digits_val(ip@ + fp@) <= u128::MAX ==> r == Some((digits_val(ip@ + fp@) as u128)),
        digits_val(ip@ + fp@) > u128::MAX ==> r is None,
{
    let ghost whole = ip@ + fp@;
    let mut acc: u128 = 0;
    let mut i: usize = 0;
    while i < ip.len()
        invariant
            all_digits(ip@),
            all_digits(fp@),
            whole == ip@ + fp@,
            0 <= i <= ip@.len(),
            acc == digits_val(whole.take(i as int)),
        decreases ip@.len() - i,
    {
        assert(whole[i as int] == ip@[i as int]);
        assert(whole.take(i + 1).drop_last() =~= whole.take(i as int));
        let b = ip[i];
        acc = match accumulate_digit(acc, b) {
            Some(a) => a,
            None => {
                proof {
                    lemma_digits_val_prefix(whole, i + 1);
                }
                return None;
            },
        };
        i = i + 1;
    }
    let mut j: usize = 0;
    while j < fp.len()
        invariant
            all_digits(ip@),
            all_digits(fp@),
            whole == ip@ + fp@,
            0 <= j <= fp@.len(),
            acc == digits_val(whole.take(ip@.len() + j)),
        decreases fp@.len() - j,
    {
        assert(whole[ip@.len() + j] == fp@[j as int]);
        assert(whole.take(ip@.len() + j + 1).drop_last() =~= whole.take(ip@.len() + j));
        let b = fp[j];
        acc = match accumulate_digit(acc, b) {
            Some(a) => a,
            None => {
                proof {
                    lemma_digits_val_prefix(whole, ip@.len() + j + 1);
                }
                return None;
            },
        };
        j = j + 1;
    }
    assert(whole.take(whole.len() as int) =~= whole);
    Some(acc)
}

/// The canonical digit string of a natural number, most significant first,
/// without leading zeros (`0` itself is the single digit `0`).
pub open spec fn dec_digits(n: nat) -> Seq<u8>
    decreases n,
{
    if n < 10 {
        seq![(48 + n) as u8]
    } else {
        dec_digits(n / 10).push((48 + n % 10) as u8)
    }
}

pub proof fn lemma_dec_digits(n: nat)
    ensures
        dec_digits(n).len() >= 1,
        all_digits(dec_digits(n)),
        digits_val(dec_digits(n)) == n,
        dec_digits(n).last() == 48 + n % 10,
    decreases n,
{
    if n < 10 {
        let ds = dec_digits(n);
        assert(ds.drop_last() =~= Seq::<u8>::empty());
        assert(digits_val(ds) == digits_val(Seq::<u8>::empty()) * 10 + digit_val(ds.last()));
        assert(digit_val((48 + n) as u8) == n);
    } else {
        lemma_dec_digits(n / 10);
        let ds = dec_digits(n / 10).push((48 + n % 10) as u8);
        assert(ds.drop_last() =~= dec_digits(n / 10));
        assert(digits_val(ds) == (n / 10) * 10 + n % 10);
        assert((n / 10) * 10 + n % 10 == n) by {
            vstd::arithmetic::div_mod::lemma_fundamental_div_mod(n as int, 10);
        }
        assert(forall|i: int|
            0 <= i < ds.len() ==> is_digit(#[trigger] ds[i]) == (if i < ds.len() - 1 {
                is_digit(dec_digits(n / 10)[i])
            } else {
                is_digit((48 + n % 10) as u8)
            }));
    }
}

/// A run of `n` zero digits.
pub open spec fn zero_digits(n: nat) -> Seq<u8> {
    Seq::new(n, |i: int| 48u8)
}

/// The canonical token of an exact-decimal literal: sign, then the mantissa's
/// digits with the decimal point inserted `scale` places from the right,
/// padding with a leading zero run when the mantissa is shorter.
pub open spec fn fp_mag_bytes(m: nat, scale: nat) -> Seq<u8> {
    let ds = dec_digits(m);
    if scale == 0 {
        ds
    } else if scale < ds.len() {
        ds.take(ds.len() - scale) + seq![46u8] + ds.skip(ds.len() - scale)
    } else {
        seq![48u8, 46u8] + zero_digits((scale - ds.len()) as nat) + ds
    }
}

pub open spec fn fp_bytes(fp: FpLit) -> Seq<u8> {
    if fp.neg {
        seq![45u8] + fp_mag_bytes(fp.mantissa as nat, fp.scale as nat)
    } else {
        fp_mag_bytes(fp.mantissa as nat, fp.scale as nat)
    }
}

/// Writes the canonical digits of `n` onto `out`.
pub fn push_dec_digits(out: &mut Vec<u8>, n: u128)
    ensures
        final(out)@ == old(out)@ + dec_digits(n as nat),
    decreases n,
{
    if n < 10 {
        out.push(48 + (n as u8));
        assert(final(out)@ =~= old(out)@ + dec_digits(n as nat));
    } else {
        push_dec_digits(out, n / 10);
        out.push(48 + ((n % 10) as u8));
        assert(final(out)@ =~= old(out)@ + dec_digits(n as nat));
    }
}

/// Writes the canonical token of a literal onto `out`.
#[verifier::rlimit(100)]
pub fn push_fp_bytes(out: &mut Vec<u8>, fp: FpLit)
    ensures
        final(out)@ == old(out)@ + fp_bytes(fp),
{
    let ghost start = out@;
    if fp.neg {
        out.push(45);
    }
    let mut ds: Vec<u8> = Vec::new();
    push_dec_digits(&mut ds, fp.mantissa);
    proof {
        lemma_dec_digits(fp.mantissa as nat);
    }
    assert(ds@ == dec_digits(fp.mantissa as nat));
    if fp.scale == 0 {
        let mut k: usize = 0;
        while k < ds.len()
            invariant
                0 <= k <= ds@.len(),
                out@ == start + (if fp.neg {
                    seq![45u8]
                } else {
                    Seq::<u8>::empty()
                }) + ds@.take(k as int),
            decreases ds@.len() - k,
        {
            out.push(ds[k]);
            assert(ds@.take(k + 1) =~= ds@.take(k as int).push(ds@[k as int]));
            k = k + 1;
        }
        assert(ds@.take(ds@.len() as int) =~= ds@);
        assert(out@ =~= start + fp_bytes(fp));
    } else if fp.scale < ds.len() {
        let cut: usize = ds.len() - fp.scale;
        let mut k: usize = 0;
        while k < ds.len()
            invariant
                0 <= k <= ds@.len(),
                cut == ds@.len() - fp.scale,
                0 < cut < ds@.len(),
                out@ == start + (if fp.neg {
                    seq![45u8]
                } else {
                    Seq::<u8>::empty()
                }) + (if k <= cut {
                    ds@.take(k as int)
                } else {
                    ds@.take(cut as int) + seq![46u8] + ds@.subrange(cut as int, k as int)
                }),
            decreases ds@.len() - k,
        {
            if k == cut {
                out.push(46);
                assert(ds@.take(cut as int) + seq![46u8] + ds@.subrange(cut as int, cut as int)
                    =~= ds@.take(cut as int) + seq![46u8]);
            }
            out.push(ds[k]);
            proof {
                if k < cut {
                    assert(ds@.take(k + 1) =~= ds@.take(k as int).push(ds@[k as int]));
                } else {
                    assert(ds@.subrange(cut as int, k + 1) =~= ds@.subrange(
                        cut as int,
                        k as int,
                    ).push(ds@[k as int]));
                }
            }
            k = k + 1;
        }
        assert(ds@.subrange(cut as int, ds@.len() as int) =~= ds@.skip(cut as int));
        assert(out@ =~= start + fp_bytes(fp));
    } else {
        out.push(48);
        out.push(46);
        let pad: usize = fp.scale - ds.len();
        let mut k: usize = 0;
        while k < pad
            invariant
                0 <= k <= pad,
                out@ == start + (if fp.neg {
                    seq![45u8]
                } else {
                    Seq::<u8>::empty()
                }) + seq![48u8, 46u8] + zero_digits(k as nat),
            decreases pad - k,
        {
            out.push(48);
            assert(zero_digits((k + 1) as nat) =~= zero_digits(k as nat).push(48u8));
            k = k + 1;
        }
        let ghost mid = out@;
        let mut j: usize = 0;
        while j < ds.len()
            invariant
                0 <= j <= ds@.len(),
                out@ == mid + ds@.take(j as int),
            decreases ds@.len() - j,
        {
            out.push(ds[j]);
            assert(ds@.take(j + 1) =~= ds@.take(j as int).push(ds@[j as int]));
            j = j + 1;
        }
        assert(ds@.take(ds@.len() as int) =~= ds@);
        assert(out@ =~= start + fp_bytes(fp));
    }
}

/// Parsing the canonical token of a well-formed literal gives the literal
/// back: the exact-decimal form round-trips through its own text.
pub proof fn lemma_fp_roundtrip(fp: FpLit)
    requires
        fp.wf(),
    ensures
        spec_parse_fp(fp_bytes(fp)) == Some(fp),
{
    let m = fp.mantissa as nat;
    let scale = fp.scale as nat;
    let ds = dec_digits(m);
    lemma_dec_digits(m);
    let mag = fp_mag_bytes(m, scale);
    let t = fp_bytes(fp);
    // The split of the canonical token recovers the integer and fraction runs.
    let body = if t[0] == 43 || t[0] == 45 {
        t.skip(1)
    } else {
        t
    };
    assert(body =~= mag) by {
        if fp.neg {
            assert(t == seq![45u8] + mag);
            assert(t[0] == 45);
            assert(t.skip(1) =~= mag);
        } else {
            assert(t[0] == mag[0]);
            if scale == 0 || scale < ds.len() {
                assert(is_digit(mag[0]));
            } else {
                assert(mag[0] == 48);
            }
        }
    }
    if scale == 0 {
        lemma_find_byte_absent(body, 46);
        assert(body.take(body.len() as int) =~= body);
        assert(spec_fp_split(t) == Some((fp.neg, ds, Seq::<u8>::empty())));
        assert(ds + Seq::<u8>::empty() =~= ds);
        assert(digits_val(ds) == m);
        assert(spec_normalize_fp(fp.neg, m, 0) == fp);
    } else if scale < ds.len() {
        let cut = ds.len() - scale;
        let ipart = ds.take(cut as int);
        let fpart = ds.skip(cut as int);
        assert(body =~= ipart + (seq![46u8] + fpart));
        assert(forall|i: int| 0 <= i < ipart.len() ==> ipart[i] == ds[i] && #[trigger] is_digit(
            ipart[i],
        ));
        lemma_find_byte_concat(ipart, seq![46u8] + fpart, 46);
        assert(body.take(cut as int) =~= ipart);
        assert(body.skip(cut as int) =~= seq![46u8] + fpart);
        assert((seq![46u8] + fpart).skip(1) =~= fpart);
        assert(forall|i: int| 0 <= i < fpart.len() ==> fpart[i] == ds[cut + i] && #[trigger] is_digit(
            fpart[i],
        ));
        assert(spec_fp_split(t) == Some((fp.neg, ipart, fpart)));
        assert(ipart + fpart =~= ds);
        assert(digits_val(ipart + fpart) == m);
        assert(fpart.last() == ds.last());
        assert(m % 10 != 0);
        assert(spec_normalize_fp(fp.neg, m, fpart.len()) == fp);
    } else {
        let pad = (scale - ds.len()) as nat;
        let ipart = seq![48u8];
        let fpart = zero_digits(pad) + ds;
        assert(body =~= ipart + (seq![46u8] + fpart));
        assert(forall|i: int| 0 <= i < ipart.len() ==> #[trigger] is_digit(ipart[i]));
        lemma_find_byte_concat(ipart, seq![46u8] + fpart, 46);
        assert(body.take(1) =~= ipart);
        assert(body.skip(1) =~= seq![46u8] + fpart);
        assert((seq![46u8] + fpart).skip(1) =~= fpart);
        assert(forall|i: int| 0 <= i < fpart.len() ==> #[trigger] is_digit(fpart[i])) by {
            assert(forall|i: int|
                0 <= i < pad ==> #[trigger] fpart[i] == 48u8 && is_digit(fpart[i]));
            assert(forall|i: int|
                pad <= i < fpart.len() ==> #[trigger] fpart[i] == ds[i - pad] && is_digit(
                    fpart[i],
                ));
        }
        assert(fpart.len() > 0);
        assert(spec_fp_split(t) == Some((fp.neg, ipart, fpart)));
        assert(ipart + fpart =~= (ipart + zero_digits(pad)) + ds);
        assert(forall|i: int|
            0 <= i < (ipart + zero_digits(pad)).len() ==> #[trigger] (ipart + zero_digits(pad))[i]
                == 48u8);
        lemma_digits_val_leading_zeros(ipart + zero_digits(pad), ds);
        assert(digits_val(ipart + fpart) == m);
        assert(fpart.last() == ds.last());
        assert(m % 10 != 0);
        assert(fpart.len() == scale);
        assert(spec_normalize_fp(fp.neg, m, scale) == fp);
    }
}

/// The meaning of a one-byte-channel token, if it fits in a `u8`.
pub open spec fn spec_parse_u8(t: Seq<u8>) -> Option<u8> {
    if t.len() > 0 && all_digits(t) && digits_val(t) <= 255 {
        Some(digits_val(t) as u8)
    } else {
        None
    }
}

/// Parses a decimal token into a `u8`; fails on an empty token, a non-digit
/// byte, or a value above 255.
pub fn parse_u8_token(t: &[u8]) -> (r: Option<u8>)
    ensures
        r == spec_parse_u8(t@),
{
    match parse_u32_token(t) {
        None => None,
        Some(v) => {
            if v <= 255 {
                Some(v as u8)
            } else {
                None
            }
        },
    }
}

/// The bytes of the token `true`.
pub open spec fn true_bytes() -> Seq<u8> {
    seq![116u8, 114u8, 117u8, 101u8]
}

/// The bytes of the token `false`.
pub open spec fn false_bytes() -> Seq<u8> {
    seq![102u8, 97u8, 108u8, 115u8, 101u8]
}

/// The meaning of a boolean token: the canonical words only.
pub open spec fn spec_parse_bool(t: Seq<u8>) -> Option<bool> {
    if t == true_bytes() {
        Some(true)
    } else if t == false_bytes() {
        Some(false)
    } else {
        None
    }
}

/// Parses a boolean token; only the words `true` and `false` are accepted.
pub fn parse_bool_token(t: &[u8]) -> (r: Option<bool>)
    ensures
        r == spec_parse_bool(t@),
{
    if t.len() == 4 && t[0] == 116 && t[1] == 114 && t[2] == 117 && t[3] == 101 {
        assert(t@ =~= true_bytes());
        Some(true)
    } else if t.len() == 5 && t[0] == 102 && t[1] == 97 && t[2] == 108 && t[3] == 115 && t[4]
        == 101 {
        assert(t@ =~= false_bytes());
        Some(false)
    } else {
        assert(t@ != true_bytes() && t@ != false_bytes()) by {
            if t@ == true_bytes() {
                assert(t@.len() == 4);
                assert(t@[0] == 116 && t@[1] == 114 && t@[2] == 117 && t@[3] == 101);
            }
            if t@ == false_bytes() {
                assert(t@.len() == 5);
                assert(t@[0] == 102 && t@[1] == 97 && t@[2] == 108 && t@[3] == 115 && t@[4]
                    == 101);
            }
        }
        None
    }
}

/// One step of decimal accumulation with an exact 128-bit overflow test.
fn accumulate_digit(acc: u128, b: u8) -> (r: Option<u128>)
    requires
        is_digit(b),
    ensures
        acc * 10 + digit_val(b) <= u128::MAX ==> r == Some((acc * 10 + digit_val(b)) as u128),
        acc * 10 + digit_val(b) > u128::MAX ==> r is None,
{
    let d: u128 = (b - 48) as u128;
    let limit: u128 = (u128::MAX - d) / 10;
    if acc > limit {
        proof {
            let m = u128::MAX as int;
            let dd = d as int;
            let q = (m - dd) / 10;
            vstd::arithmetic::div_mod::lemma_fundamental_div_mod(m - dd, 10);
            assert(acc * 10 >= (q + 1) * 10) by (nonlinear_arith)
                requires
                    acc >= q + 1,
                    q >= 0,
            ;
            assert((q + 1) * 10 == q * 10 + 10);
        }
        None
    } else {
        proof {
            let m = u128::MAX as int;
            let dd = d as int;
            let q = (m - dd) / 10;
            vstd::arithmetic::div_mod::lemma_fundamental_div_mod(m - dd, 10);
            assert(acc * 10 <= q * 10) by (nonlinear_arith)
                requires
                    acc <= q,
                    q >= 0,
            ;
        }
        Some(acc * 10 + d)
    }
}

} // verus!


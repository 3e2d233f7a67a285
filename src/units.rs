//! Human-readable size tokens such as `12.3GB`, `500MB`, `0B` or `4096`.
//!
//! The suffixes are base-1024 steps, and the two spellings of each step are
//! synonyms: `KB`/`Ki`, `MB`/`Mi`, `GB`/`Gi`. This is a deliberate relaxation
//! (no base-1000 reading of `KB`), not an oversight. A token without a
//! recognised suffix, or with a bare `B`, is a plain unsigned integer.

use crate::text::{
    all_digits, as_u64, chars_of, decimal, digit_value, digits_value, is_digit,
    lemma_decimal_round_trip,
    parse_plain_integer, plain_integer, trim, trimmed,
};
use vstd::prelude::*;

verus! {

pub const KIB: u64 = 1024;

pub const MIB: u64 = 1048576;

pub const GIB: u64 = 1073741824;

pub open spec fn pow10(n: nat) -> nat
    decreases n,
{
    if n == 0 {
        1
    } else {
        10 * pow10((n - 1) as nat)
    }
}

/// The number of digits at the start of `s`.
pub open spec fn leading_digits(s: Seq<char>) -> nat
    decreases s.len(),
{
    if s.len() > 0 && is_digit(s[0]) {
        1 + leading_digits(s.drop_first())
    } else {
        0
    }
}

/// A number with an optional decimal point (`12`, `1.5`, `.5`, `5.`), split
/// into its whole and fractional digits; it holds at least one digit.
pub open spec fn point_number(s: Seq<char>) -> Option<(Seq<char>, Seq<char>)> {
    let k = leading_digits(s);
    let rest = s.skip(k as int);
    if rest.len() == 0 {
        if k > 0 {
            Some((s, Seq::empty()))
        } else {
            None
        }
    } else if rest[0] == '.' && all_digits(rest.drop_first()) && s.len() > 1 {
        Some((s.take(k as int), rest.drop_first()))
    } else {
        None
    }
}

/// The number written by `s` times `scale`, rounded down to a whole number,
/// when that fits in 64 bits. For whole digits `w` and fraction digits `f`
/// this is `w * scale + floor(f * scale / 10^len(f))`.
pub open spec fn scaled_decimal(s: Seq<char>, scale: nat) -> Option<nat> {
    match point_number(s) {
        None => None,
        Some((whole, frac)) => {
            let v = digits_value(whole) * scale + digits_value(frac) * scale / pow10(frac.len());
            if v > u64::MAX {
                None
            } else {
                Some(v)
            }
        },
    }
}

/// `floor(f * scale / 10^len(f))`, folded from the last fraction digit to
/// the first: each step divides by ten what the later digits carried.
pub open spec fn frac_carry(f: Seq<char>, scale: nat) -> nat
    decreases f.len(),
{
    if f.len() == 0 {
        0
    } else {
        (digit_value(f[0]) * scale + frac_carry(f.drop_first(), scale)) / 10
    }
}

pub open spec fn ends_with_pair(t: Seq<char>, a: char, b: char) -> bool {
    t.len() >= 2 && t[t.len() - 2] == a && t[t.len() - 1] == b
}

/// The byte count that a size token denotes, if it is well formed.
pub open spec fn token_bytes(t: Seq<char>) -> Option<nat> {
    if ends_with_pair(t, 'G', 'B') || ends_with_pair(t, 'G', 'i') {
        scaled_decimal(t.take(t.len() - 2), GIB as nat)
    } else if ends_with_pair(t, 'M', 'B') || ends_with_pair(t, 'M', 'i') {
        scaled_decimal(t.take(t.len() - 2), MIB as nat)
    } else if ends_with_pair(t, 'K', 'B') || ends_with_pair(t, 'K', 'i') {
        scaled_decimal(t.take(t.len() - 2), KIB as nat)
    } else if t.len() >= 1 && t.last() == 'B' {
        plain_integer(t.take(t.len() - 1))
    } else {
        plain_integer(t)
    }
}

/// A size token that is not a well-formed size, or whose size does not fit
/// in 64 bits.
#[derive(Debug, Clone, Copy, PartialEq, Eq, Structural)]
pub enum SizeParseError {
    InvalidSize,
}

proof fn lemma_pow10_positive(n: nat)
    ensures
        pow10(n) > 0,
    decreases n,
{
    if n > 0 {
        lemma_pow10_positive((n - 1) as nat);
    }
}

proof fn lemma_digits_value_front(f: Seq<char>)
    requires
        f.len() > 0,
    ensures
        digits_value(f) == digit_value(f[0]) * pow10((f.len() - 1) as nat) + digits_value(
            f.drop_first(),
        ),
    decreases f.len(),
{
    if f.len() == 1 {
        assert(f.drop_last() =~= Seq::<char>::empty());
        assert(f.drop_first() =~= Seq::<char>::empty());
        assert(digits_value(Seq::<char>::empty()) == 0);
        assert(f.last() == f[0]);
        assert(digits_value(f) == digit_value(f[0]));
        assert(pow10(0) == 1);
        let d0 = digit_value(f[0]);
        assert(d0 * pow10(0) == d0) by (nonlinear_arith)
            requires
                pow10(0) == 1,
        ;
    } else {
        let init = f.drop_last();
        lemma_digits_value_front(init);
        assert(f.drop_first().drop_last() =~= init.drop_first());
        assert(f.drop_first().last() == f.last());
        assert(init[0] == f[0]);
        let d0 = digit_value(f[0]);
        let p = pow10((init.len() - 1) as nat);
        assert(pow10((f.len() - 1) as nat) == 10 * p);
        let r = digits_value(init.drop_first());
        let dl = digit_value(f.last());
        assert(digits_value(init) == d0 * p + r);
        assert(digits_value(f) == digits_value(init) * 10 + dl);
        assert(digits_value(f.drop_first()) == r * 10 + dl);
        assert((d0 * p + r) * 10 == d0 * (10 * p) + r * 10) by (nonlinear_arith);
        let q = pow10((f.len() - 1) as nat);
        assert(d0 * q == d0 * (10 * p)) by (nonlinear_arith)
            requires
                q == 10 * p,
        ;
    }
}

proof fn lemma_frac_carry(f: Seq<char>, scale: nat)
    ensures
        frac_carry(f, scale) == digits_value(f) * scale / pow10(f.len()),
    decreases f.len(),
{
    if f.len() > 0 {
        let rest = f.drop_first();
        lemma_frac_carry(rest, scale);
        lemma_digits_value_front(f);
        lemma_pow10_positive(rest.len());
        let p = pow10(rest.len()) as int;
        let a = digit_value(f[0]) as int;
        let r = digits_value(rest) as int;
        let sc = scale as int;
        assert(f.len() - 1 == rest.len());
        assert(pow10(f.len()) == 10 * p);
        assert(r * sc >= 0) by (nonlinear_arith)
            requires
                r >= 0,
                sc >= 0,
        ;
        vstd::arithmetic::div_mod::lemma_hoist_over_denominator(r * sc, a * sc, p as nat);
        assert((r * sc + (a * sc) * p) == (a * p + r) * sc) by (nonlinear_arith);
        assert((a * p + r) * sc >= 0) by (nonlinear_arith)
            requires
                a >= 0,
                p > 0,
                r >= 0,
                sc >= 0,
        ;
        vstd::arithmetic::div_mod::lemma_div_denominator((a * p + r) * sc, p, 10);
        assert(p * 10 == 10 * p);
        let c = frac_carry(rest, scale) as int;
        assert(c == (r * sc) / p);
        assert(frac_carry(f, scale) as int == (a * sc + c) / 10);
        assert(a * sc + c == ((a * p + r) * sc) / p);
        assert((a * sc + c) / 10 == ((a * p + r) * sc) / (p * 10));
        assert(digits_value(f) as int == a * p + r);
        assert(digits_value(f) * scale == (a * p + r) * sc);
        assert(pow10(f.len()) as int == p * 10);
        let num: int = (digits_value(f) * scale) as int;
        let den: int = pow10(f.len()) as int;
        assert(num == (a * p + r) * sc);
        assert(den == p * 10);
        assert(num / den == ((a * p + r) * sc) / (p * 10));
        assert((digits_value(f) * scale / pow10(f.len())) as int == num / den);
    } else {
        assert(digits_value(f) == 0);
        assert(pow10(0) == 1);
        assert(digits_value(f) * scale == 0);
    }
}

proof fn lemma_leading_digits(s: Seq<char>, k: int)
    requires
        0 <= k <= s.len(),
        all_digits(s.take(k)),
        k == s.len() || !is_digit(s[k]),
    ensures
        leading_digits(s) == k,
    decreases k,
{
    if k > 0 {
        assert(s.take(k)[0] == s[0]);
        assert(all_digits(s.drop_first().take(k - 1))) by {
            assert forall|j: int| 0 <= j < k - 1 implies is_digit(
                #[trigger] s.drop_first().take(k - 1)[j],
            ) by {
                assert(s.drop_first().take(k - 1)[j] == s.take(k)[j + 1]);
            }
        }
        lemma_leading_digits(s.drop_first(), k - 1);
    } else {
        if s.len() > 0 {
            assert(!is_digit(s[0]));
        }
    }
}

/// Reads a number with an optional decimal point and scales it, rounding down.
fn scaled_token(s: &Vec<char>, scale: u64) -> (r: Option<u64>)
    requires
        0 < scale <= GIB,
    ensures
        r == as_u64(scaled_decimal(s@, scale as nat)),
{
    let n = s.len();
    let mut k: usize = 0;
    while k < n && '0' <= s[k] && s[k] <= '9'
        invariant
            n == s.len(),
            k <= n,
            all_digits(s@.take(k as int)),
        decreases n - k,
    {
        k = k + 1;
        assert(all_digits(s@.take(k as int))) by {
            assert forall|j: int| 0 <= j < k implies is_digit(#[trigger] s@.take(k as int)[j]) by {
                if j < k - 1 {
                    assert(s@.take(k as int)[j] == s@.take(k - 1)[j]);
                }
            }
        }
    }
    proof {
        lemma_leading_digits(s@, k as int);
    }
    let ghost whole = s@.take(k as int);
    let frac_start: usize;
    if k == n {
        if k == 0 {
            return None;
        }
        frac_start = n;
        assert(s@.skip(k as int).len() == 0);
        assert(whole =~= s@);
    } else {
        if s[k] != '.' || n == 1 {
            return None;
        }
        frac_start = k + 1;
        assert(s@.skip(k as int).drop_first() =~= s@.subrange(k + 1, n as int));
    }
    let ghost frac = s@.subrange(frac_start as int, n as int);
    assert(point_number(s@) is Some ==> (point_number(s@)->0 == (whole, frac) && all_digits(
        frac,
    )));
    // The fraction must be all digits.
    let mut j: usize = frac_start;
    while j < n
        invariant
            n == s.len(),
            frac_start <= j <= n,
            frac == s@.subrange(frac_start as int, n as int),
            point_number(s@) is Some ==> (point_number(s@)->0 == (whole, frac) && all_digits(frac)),
            forall|t: int| frac_start <= t < j ==> is_digit(#[trigger] s@[t]),
        decreases n - j,
    {
        if !('0' <= s[j] && s[j] <= '9') {
            assert(!is_digit(frac[j - frac_start]));
            return None;
        }
        j = j + 1;
    }
    assert(all_digits(frac)) by {
        assert forall|t: int| 0 <= t < frac.len() implies is_digit(#[trigger] frac[t]) by {
            assert(frac[t] == s@[frac_start + t]);
        }
    }
    assert(point_number(s@) == Some((whole, frac)));
    // The whole part.
    let w: u64 = if k == 0 {
        assert(whole =~= Seq::<char>::empty());
        0
    } else {
        let mut digits: Vec<char> = Vec::new();
        let mut i: usize = 0;
        while i < k
            invariant
                k <= n,
                n == s.len(),
                i <= k,
                digits@ == s@.take(i as int),
            decreases k - i,
        {
            digits.push(s[i]);
            assert(digits@ =~= s@.take(i + 1));
            i = i + 1;
        }
        match parse_plain_integer(&digits) {
            Some(v) => v,
            None => {
                proof {
                    lemma_pow10_positive(frac.len());
                    let ws = digits_value(whole) * (scale as nat);
                    let fs = digits_value(frac) * (scale as nat) / pow10(frac.len());
                    assert(digits_value(whole) > u64::MAX);
                    assert(ws >= digits_value(whole)) by (nonlinear_arith)
                        requires
                            scale >= 1,
                            ws == digits_value(whole) * (scale as nat),
                    ;
                }
                return None;
            },
        }
    };
    // The fraction, folded from its last digit.
    let mut c: u64 = 0;
    let mut j: usize = n;
    assert(s@.subrange(n as int, n as int) =~= Seq::<char>::empty());
    while j > frac_start
        invariant
            n == s.len(),
            frac_start <= j <= n,
            0 < scale <= GIB,
            forall|t: int| frac_start <= t < n ==> is_digit(#[trigger] s@[t]),
            c == frac_carry(s@.subrange(j as int, n as int), scale as nat),
            c <= 2 * GIB,
        decreases j,
    {
        j = j - 1;
        let d: u64 = (s[j] as u32 - '0' as u32) as u64;
        assert(is_digit(s@[j as int]));
        assert(d <= 9);
        assert(s@.subrange(j as int, n as int).drop_first() =~= s@.subrange(j + 1, n as int));
        assert(s@.subrange(j as int, n as int)[0] == s@[j as int]);
        assert(d * scale <= 9 * GIB) by (nonlinear_arith)
            requires
                d <= 9,
                scale <= GIB,
        ;
        c = (d * scale + c) / 10;
    }
    proof {
        lemma_frac_carry(frac, scale as nat);
    }
    assert((w as int) * (scale as int) <= 18446744073709551615 * 1073741824) by (nonlinear_arith)
        requires
            w <= 18446744073709551615,
            scale <= 1073741824,
    ;
    let total: u128 = (w as u128) * (scale as u128) + (c as u128);
    if total > u64::MAX as u128 {
        return None;
    }
    Some(total as u64)
}

/// Reads one size token (no surrounding whitespace) as a byte count.
pub fn token_size(t: &Vec<char>) -> (r: Option<u64>)
    ensures
        r == as_u64(token_bytes(t@)),
{
    let n = t.len();
    if n >= 2 {
        let a = t[n - 2];
        let b = t[n - 1];
        if a == 'G' && (b == 'B' || b == 'i') || a == 'M' && (b == 'B' || b == 'i') || a == 'K' && (
        b == 'B' || b == 'i') {
            let mut head: Vec<char> = Vec::new();
            let mut i: usize = 0;
            while i < n - 2
                invariant
                    n == t.len(),
                    n >= 2,
                    i <= n - 2,
                    head@ == t@.take(i as int),
                decreases n - 2 - i,
            {
                head.push(t[i]);
                assert(head@ =~= t@.take(i + 1));
                i = i + 1;
            }
            let scale = if a == 'G' {
                GIB
            } else if a == 'M' {
                MIB
            } else {
                KIB
            };
            return scaled_token(&head, scale);
        }
    }
    if n >= 1 && t[n - 1] == 'B' {
        let mut head: Vec<char> = Vec::new();
        let mut i: usize = 0;
        while i < n - 1
            invariant
                n == t.len(),
                n >= 1,
                i <= n - 1,
                head@ == t@.take(i as int),
            decreases n - 1 - i,
        {
            head.push(t[i]);
            assert(head@ =~= t@.take(i + 1));
            i = i + 1;
        }
        return parse_plain_integer(&head);
    }
    parse_plain_integer(t)
}

/// Reads a size token, ignoring surrounding whitespace: `1.5MB` is 1572864
/// bytes, `4096` and `4096B` are 4096 bytes.
pub fn parse_size_string(size_str: &str) -> (r: Result<u64, SizeParseError>)
    ensures
        match token_bytes(trim(size_str@)) {
            Some(v) => r == Ok::<u64, SizeParseError>(v as u64),
            None => r == Err::<u64, SizeParseError>(SizeParseError::InvalidSize),
        },
{
    let t = trimmed(&chars_of(size_str));
    match token_size(&t) {
        Some(v) => Ok(v),
        None => Err(SizeParseError::InvalidSize),
    }
}


/// A byte count written out in decimal, bare or followed by `B`, reads back
/// as the same byte count.
pub proof fn lemma_byte_count_round_trip(n: u64)
    ensures
        token_bytes(decimal(n as nat)) == Some(n as nat),
        token_bytes(decimal(n as nat) + "B"@) == Some(n as nat),
{
    reveal_strlit("B");
    let d = decimal(n as nat);
    lemma_decimal_round_trip(n as nat);
    assert(is_digit(d[d.len() - 1]));
    let t = d + "B"@;
    assert(t[t.len() - 1] == 'B');
    assert(t[t.len() - 2] == d[d.len() - 1]);
    assert(t.take(t.len() - 1) =~= d);
}

/// A scaled token reads as its exact value rounded down to a whole byte:
/// with `w` whole and `f` fraction digits, the token denotes
/// `(w * 10^len(f) + f) * scale / 10^len(f)`, and the byte count read is
/// within one byte below that.
pub proof fn lemma_scaled_token_within_rounding(s: Seq<char>, scale: nat)
    requires
        scaled_decimal(s, scale) is Some,
    ensures
        ({
            let (whole, frac) = point_number(s)->0;
            let p = pow10(frac.len());
            let exact_numerator = (digits_value(whole) * p + digits_value(frac)) * scale;
            let v = scaled_decimal(s, scale)->0;
            &&& v * p <= exact_numerator
            &&& exact_numerator < (v + 1) * p
        }),
{
    let (whole, frac) = point_number(s)->0;
    let p = pow10(frac.len());
    lemma_pow10_positive(frac.len());
    let w = digits_value(whole);
    let f = digits_value(frac);
    let q = f * scale / p;
    assert((w * scale + q) * p <= (w * p + f) * scale && (w * p + f) * scale < (w * scale + q
        + 1) * p) by (nonlinear_arith)
        requires
            p > 0,
            q == f * scale / p,
    ;
}

} // verus!

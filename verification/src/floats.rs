//! Numbers held as IEEE 754 double bits: whole part, fraction, comparisons with whole numbers.
use vstd::prelude::*;
use vstd::arithmetic::power2::*;
use crate::{digits, text};
use crate::json::{Num, NumV};

verus! {

/// Whether the sign bit is set.
pub open spec fn negative(bits: u64) -> bool {
    bits >= 0x8000_0000_0000_0000
}

/// The exponent field.
pub open spec fn exponent(bits: u64) -> int {
    ((bits / 0x10_0000_0000_0000) % 0x800) as int
}

/// The significand as a whole number.
pub open spec fn mantissa(bits: u64) -> int {
    if exponent(bits) == 0 {
        (bits % 0x10_0000_0000_0000) as int
    } else {
        0x10_0000_0000_0000 + bits % 0x10_0000_0000_0000
    }
}

/// The power of two that the significand is multiplied by.
pub open spec fn scale(bits: u64) -> int {
    if exponent(bits) == 0 {
        -1074
    } else {
        exponent(bits) - 1075
    }
}

/// The whole part of the magnitude.
pub open spec fn whole_part(bits: u64) -> int {
    if scale(bits) >= 0 {
        mantissa(bits) * pow2(scale(bits) as nat)
    } else {
        mantissa(bits) / (pow2((-scale(bits)) as nat) as int)
    }
}

/// Whether the magnitude is no whole number.
pub open spec fn has_fraction(bits: u64) -> bool {
    scale(bits) < 0 && mantissa(bits) % (pow2((-scale(bits)) as nat) as int) != 0
}

/// Whether a number is below zero, or minus zero.
pub open spec fn is_negative(n: NumV) -> bool {
    match n {
        NumV::Pos(_) => false,
        NumV::Neg(i) => i < 0,
        NumV::Flt(b) => negative(b),
    }
}

/// The whole part of a number's magnitude.
pub open spec fn magnitude(n: NumV) -> int {
    match n {
        NumV::Pos(u) => u as int,
        NumV::Neg(i) => if i < 0 {
            -i
        } else {
            i as int
        },
        NumV::Flt(b) => whole_part(b),
    }
}

/// Whether a number is no whole number.
pub open spec fn is_broken(n: NumV) -> bool {
    match n {
        NumV::Flt(b) => has_fraction(b),
        _ => false,
    }
}

/// Whether a number is zero.
pub open spec fn is_zero(n: NumV) -> bool {
    magnitude(n) == 0 && !is_broken(n)
}

/// Whether a number is greater than `t`, which is not below zero.
pub open spec fn is_above(n: NumV, t: int) -> bool {
    !is_negative(n) && (magnitude(n) > t || (magnitude(n) == t && is_broken(n)))
}

/// Whether a number is less than `t`, which is greater than zero.
pub open spec fn is_below(n: NumV, t: int) -> bool {
    is_negative(n) || magnitude(n) < t
}

/// A number taken apart. The magnitude is missing where it is `2^64` or more.
pub struct Parts {
    pub negative: bool,
    pub whole: Option<u64>,
    pub broken: bool,
}

/// Whether the parts are those of `n`.
pub open spec fn parts_of(p: Parts, n: NumV) -> bool {
    &&& p.negative == is_negative(n)
    &&& p.broken == is_broken(n)
    &&& match p.whole {
        Some(w) => magnitude(n) == w,
        None => magnitude(n) > u64::MAX,
    }
}

fn power(k: u64) -> (r: u64)
    requires
        k < 64,
    ensures
        r == pow2(k as nat),
{
    let mut i: u64 = 0;
    let mut r: u64 = 1;
    proof {
        lemma2_to64();
    }
    while i < k
        invariant
            i <= k < 64,
            r == pow2(i as nat),
        decreases k - i,
    {
        proof {
            lemma2_to64_rest();
            lemma_pow2_unfold((i + 1) as nat);
            if i + 1 < 63 {
                lemma_pow2_strictly_increases((i + 1) as nat, 63);
            }
        }
        r = r * 2;
        i += 1;
    }
    r
}

proof fn lemma_large(m: int, s: nat)
    requires
        m >= 0x10_0000_0000_0000,
        s >= 12,
    ensures
        m * pow2(s) > u64::MAX,
{
    lemma2_to64();
    lemma_pow2_pos(s);
    if s > 12 {
        lemma_pow2_strictly_increases(12, s);
    }
    let p = pow2(s);
    assert(m * p >= 0x10_0000_0000_0000 * 4096) by (nonlinear_arith)
        requires
            m >= 0x10_0000_0000_0000,
            p >= 4096,
    ;
}

/// Takes a double apart.
pub fn float_parts(bits: u64) -> (r: Parts)
    ensures
        parts_of(r, NumV::Flt(bits)),
{
    let e: u64 = (bits / 0x10_0000_0000_0000) % 0x800;
    let f: u64 = bits % 0x10_0000_0000_0000;
    let m: u64 = if e == 0 {
        f
    } else {
        0x10_0000_0000_0000 + f
    };
    let neg = bits >= 0x8000_0000_0000_0000;
    if e >= 1075 {
        let s: u64 = e - 1075;
        if s >= 12 {
            proof {
                lemma_large(m as int, s as nat);
            }
            return Parts { negative: neg, whole: None, broken: false };
        }
        proof {
            lemma2_to64();
            if s < 11 {
                lemma_pow2_strictly_increases(s as nat, 11);
            }
            let p = pow2(s as nat);
            assert(m * p <= 0x1f_ffff_ffff_ffff * 2048) by (nonlinear_arith)
                requires
                    m <= 0x1f_ffff_ffff_ffff,
                    p <= 2048,
            ;
        }
        Parts { negative: neg, whole: Some(m * power(s)), broken: false }
    } else {
        let s: u64 = if e == 0 {
            1074
        } else {
            1075 - e
        };
        if s >= 54 {
            proof {
                lemma2_to64_rest();
                if s > 54 {
                    lemma_pow2_strictly_increases(54, s as nat);
                }
                let p = pow2(s as nat) as int;
                assert(m as int / p == 0 && m as int % p == m as int) by (nonlinear_arith)
                    requires
                        0 <= m < p,
                ;
            }
            Parts { negative: neg, whole: Some(0), broken: m != 0 }
        } else {
            proof {
                lemma_pow2_pos(s as nat);
            }
            let d: u64 = power(s);
            Parts { negative: neg, whole: Some(m / d), broken: m % d != 0 }
        }
    }
}

/// Takes a number apart.
pub fn parts(n: &Num) -> (r: Parts)
    ensures
        parts_of(r, n@),
{
    match n {
        Num::PosInt(u) => Parts { negative: false, whole: Some(*u), broken: false },
        Num::NegInt(i) => {
            let m: i128 = *i as i128;
            let w: u64 = if m < 0 {
                (-m) as u64
            } else {
                m as u64
            };
            Parts { negative: m < 0, whole: Some(w), broken: false }
        },
        Num::Float(b) => float_parts(*b),
    }
}

/// Whether a number is zero.
pub fn num_is_zero(n: &Num) -> (r: bool)
    ensures
        r == is_zero(n@),
{
    let p = parts(n);
    match p.whole {
        Some(w) => w == 0 && !p.broken,
        None => false,
    }
}

/// Whether a number is less than `t`.
pub fn num_below(n: &Num, t: u64) -> (r: bool)
    ensures
        r == is_below(n@, t as int),
{
    let p = parts(n);
    if p.negative {
        return true;
    }
    match p.whole {
        Some(w) => w < t,
        None => false,
    }
}

/// A quotient to the nearest whole number; between two, the even one.
pub open spec fn half_even(n: int, d: int) -> int {
    let q = n / d;
    let rest = n % d;
    if 2 * rest > d || (2 * rest == d && q % 2 == 1) {
        q + 1
    } else {
        q
    }
}

// ---- whole numbers as doubles ----

/// The bits of the double `q * 2^e`, for a `q` above zero and of at most `2^53`.
pub open spec fn double_bits(q: int, e: int) -> int
    decreases 0x20_0000_0000_0000 - q,
{
    if 0 < q < 0x10_0000_0000_0000 {
        double_bits(2 * q, e - 1)
    } else {
        (e + 1075) * 0x10_0000_0000_0000 + (q - 0x10_0000_0000_0000)
    }
}

/// The bits of the double nearest to a number above zero and below `2^64`, of which all down to `e`
/// binary digits are too many to hold.
pub open spec fn nearest_bits(m: int, e: nat) -> int
    decreases 11 - e,
{
    if e >= 11 || m < 0x20_0000_0000_0000 * pow2(e) {
        double_bits(half_even(m, pow2(e) as int), e as int)
    } else {
        nearest_bits(m, e + 1)
    }
}

/// The bits of the double nearest to a whole number; between two, the even one.
pub open spec fn int_double(n: int) -> u64 {
    if n == 0 {
        0
    } else if n > 0 {
        nearest_bits(n, 0) as u64
    } else {
        (0x8000_0000_0000_0000 + nearest_bits(-n, 0)) as u64
    }
}

proof fn lemma_double_bits(q: int, k: nat)
    requires
        0 < q < 0x20_0000_0000_0000,
        k <= 52,
        q * pow2(k) < 0x20_0000_0000_0000,
    ensures
        ({
            let b = double_bits(q * pow2(k), -(k as int));
            &&& 0 < b < 0x8000_0000_0000_0000
            &&& whole_part(b as u64) == q
            &&& !has_fraction(b as u64)
        }),
    decreases 52 - k,
{
    lemma_pow2_pos(k);
    let m = q * pow2(k);
    assert(m > 0) by (nonlinear_arith)
        requires
            m == q * pow2(k),
            q > 0,
            pow2(k) > 0,
    ;
    let b = double_bits(m, -(k as int));
    if m < 0x10_0000_0000_0000 {
        lemma_pow2_unfold(k + 1);
        assert(2 * m == q * pow2(k + 1)) by (nonlinear_arith)
            requires
                m == q * pow2(k),
                pow2(k + 1) == 2 * pow2(k),
        ;
        if k == 52 {
            lemma2_to64_rest();
            assert(m >= pow2(52)) by (nonlinear_arith)
                requires
                    m == q * pow2(k),
                    q >= 1,
                    k == 52,
            ;
        }
        lemma_double_bits(q, k + 1);
    } else {
        let f = m - 0x10_0000_0000_0000;
        let e = 1075 - k;
        assert(b == e * 0x10_0000_0000_0000 + f);
        let w = b as u64;
        assert(w / 0x10_0000_0000_0000 == e && w % 0x10_0000_0000_0000 == f) by (nonlinear_arith)
            requires
                w == e * 0x10_0000_0000_0000 + f,
                0 <= f < 0x10_0000_0000_0000,
                0 <= e,
        ;
        assert(exponent(w) == e);
        assert(mantissa(w) == m);
        assert(scale(w) == -(k as int));
        if k == 0 {
            lemma2_to64();
            assert(m == q) by (nonlinear_arith)
                requires
                    m == q * pow2(k),
                    pow2(k) == 1,
            ;
            assert(m * pow2(0) == m) by (nonlinear_arith)
                requires
                    pow2(0) == 1,
            ;
        } else {
            let p = pow2(k) as int;
            assert(m / p == q && m % p == 0) by (nonlinear_arith)
                requires
                    m == q * p,
                    p > 0,
            ;
        }
    }
}

/// A whole number of at most 53 binary digits is held exactly: its double is that number, with its
/// sign, and no fraction.
pub proof fn whole_numbers_are_held(n: int)
    requires
        -0x20_0000_0000_0000 < n < 0x20_0000_0000_0000,
    ensures
        negative(int_double(n)) == (n < 0),
        whole_part(int_double(n)) == (if n < 0 {
            -n
        } else {
            n
        }),
        !has_fraction(int_double(n)),
{
    lemma2_to64();
    let m = if n < 0 {
        -n
    } else {
        n
    };
    if n == 0 {
        lemma_pow2_pos(1074);
        let p = pow2(1074) as int;
        assert(0int / p == 0 && 0int % p == 0) by (nonlinear_arith)
            requires
                p > 0,
        ;
    } else {
        assert(half_even(m, 1) == m);
        assert(m * pow2(0) == m) by (nonlinear_arith)
            requires
                pow2(0) == 1,
        ;
        lemma_double_bits(m, 0);
        if n < 0 {
            let b = nearest_bits(m, 0) as u64;
            let w = int_double(n);
            assert(w == b + 0x8000_0000_0000_0000);
            assert(w % 0x10_0000_0000_0000 == b % 0x10_0000_0000_0000 && (w / 0x10_0000_0000_0000) % 0x800 == (b
                / 0x10_0000_0000_0000) % 0x800) by (bit_vector)
                requires
                    b < 0x8000_0000_0000_0000,
                    w == b + 0x8000_0000_0000_0000,
            ;
        }
    }
}

// ---- printing ----

/// Whether a double is a number.
pub open spec fn is_finite(bits: u64) -> bool {
    exponent(bits) != 0x7ff
}

/// The magnitude to the nearest whole number; between two, the even one.
pub open spec fn nearest_whole(bits: u64) -> int {
    if scale(bits) >= 0 {
        whole_part(bits)
    } else {
        half_even(mantissa(bits), pow2((-scale(bits)) as nat) as int)
    }
}

/// The name for how a double is printed without decimals that is no number, or is `2^64` or more.
pub uninterp spec fn rounded_text(bits: u64) -> Seq<char>;

/// How a double is printed without decimals: the nearest whole number behind its sign.
pub open spec fn rounded_words(bits: u64) -> Seq<char> {
    if !is_finite(bits) || nearest_whole(bits) > u64::MAX {
        rounded_text(bits)
    } else if negative(bits) {
        "-"@ + digits::decimal(nearest_whole(bits))
    } else {
        digits::decimal(nearest_whole(bits))
    }
}

/// Prints the double with these bits through `format!` without decimals; `bytes::Buf::get_f64`
/// makes the double out of its bits. The text is a function of the bits alone.
#[verifier::external_body]
fn print_rounded(bits: u64) -> (r: String)
    ensures
        r@ == rounded_text(bits),
{
    format!("{:.0}", bytes::Buf::get_f64(&mut &bits.to_be_bytes()[..]))
}

/// The magnitude to the nearest whole number; nothing where it is `2^64` or more.
fn nearest(bits: u64) -> (r: Option<u64>)
    ensures
        match r {
            Some(w) => nearest_whole(bits) == w,
            None => nearest_whole(bits) > u64::MAX,
        },
{
    let e: u64 = (bits / 0x10_0000_0000_0000) % 0x800;
    if e >= 1075 {
        return float_parts(bits).whole;
    }
    let f: u64 = bits % 0x10_0000_0000_0000;
    let m: u64 = if e == 0 {
        f
    } else {
        0x10_0000_0000_0000 + f
    };
    let s: u64 = if e == 0 {
        1074
    } else {
        1075 - e
    };
    if s >= 55 {
        proof {
            lemma2_to64_rest();
            if s > 55 {
                lemma_pow2_strictly_increases(55, s as nat);
            }
            let p = pow2(s as nat) as int;
            assert(m as int / p == 0 && m as int % p == m as int) by (nonlinear_arith)
                requires
                    0 <= m < p,
            ;
        }
        return Some(0);
    }
    let d: u64 = power(s);
    proof {
        lemma_pow2_pos(s as nat);
        lemma2_to64_rest();
        if s < 55 {
            lemma_pow2_strictly_increases(s as nat, 55);
        }
        assert(m / d <= m && m % d < d) by (nonlinear_arith)
            requires
                d > 0,
        ;
    }
    let q: u64 = m / d;
    let rest: u64 = m % d;
    if 2 * rest > d || (2 * rest == d && q % 2 == 1) {
        Some(q + 1)
    } else {
        Some(q)
    }
}

/// The double with these bits printed without decimals.
pub fn round_words(bits: u64) -> (r: String)
    ensures
        r@ == rounded_words(bits),
{
    if (bits / 0x10_0000_0000_0000) % 0x800 == 0x7ff {
        return print_rounded(bits);
    }
    match nearest(bits) {
        Some(w) => {
            let t = digits::number(w);
            if bits >= 0x8000_0000_0000_0000 {
                text::cat("-", t.as_str())
            } else {
                t
            }
        },
        None => print_rounded(bits),
    }
}

/// A quotient is rounded to a whole number that is no more than half away, and between two to the even
/// one.
pub proof fn quotients_are_rounded_to_the_nearest(n: int, d: int)
    requires
        n >= 0,
        d > 0,
    ensures
        -d <= 2 * (half_even(n, d) * d - n) <= d,
        2 * (half_even(n, d) * d - n) == d || 2 * (half_even(n, d) * d - n) == -d ==> half_even(n, d) % 2 == 0,
{
    let q = n / d;
    let rest = n % d;
    assert(n == q * d + rest && 0 <= rest < d) by (nonlinear_arith)
        requires
            q == n / d,
            rest == n % d,
            d > 0,
    ;
    assert((q + 1) * d == q * d + d) by (nonlinear_arith);
}

/// A whole number is above another or below it as numbers are.
pub proof fn whole_numbers_are_compared(n: u64, i: i64, t: int)
    requires
        t > 0,
    ensures
        is_above(NumV::Pos(n), t) == (n > t),
        is_below(NumV::Pos(n), t) == (n < t),
        i < 0 ==> !is_above(NumV::Neg(i), t) && is_below(NumV::Neg(i), t),
        is_zero(NumV::Pos(n)) == (n == 0),
{
}

/// Numbers are rounded to the nearest whole one, and a half to the even one; what is shown is that number.
pub proof fn numbers_are_shown_rounded(bits: u64)
    requires
        (bits / 0x10_0000_0000_0000) % 0x800 != 0x7ff,
        nearest_whole(bits) <= u64::MAX,
    ensures
        !negative(bits) ==> rounded_words(bits) == digits::decimal(nearest_whole(bits)),
        negative(bits) ==> rounded_words(bits) == "-"@ + digits::decimal(nearest_whole(bits)),
        !has_fraction(bits) ==> nearest_whole(bits) == whole_part(bits),
        nearest_whole(bits) == whole_part(bits) || nearest_whole(bits) == whole_part(bits) + 1,
{
    if scale(bits) < 0 {
        let d = pow2((-scale(bits)) as nat) as int;
        vstd::arithmetic::power2::lemma_pow2_pos((-scale(bits)) as nat);
        assert(d > 0);
    }
}

/// A number is taken apart into its sign, its whole part where that fits, and whether it is broken.
pub proof fn numbers_are_taken_apart(p: Parts, n: NumV)
    requires
        parts_of(p, n),
    ensures
        p.negative == is_negative(n),
        p.broken == is_broken(n),
        p.whole matches Some(w) ==> w == magnitude(n),
        p.whole is None ==> magnitude(n) > u64::MAX,
        n matches NumV::Pos(u) ==> !p.negative && !p.broken && p.whole == Some(u),
        n matches NumV::Neg(i) ==> p.negative == (i < 0) && !p.broken,
        n matches NumV::Flt(b) ==> p.negative == (b >= 0x8000_0000_0000_0000),
{
}

} // verus!

//! Whole numbers written in digits, and read back.
use vstd::prelude::*;
use crate::text::chars_of;

verus! {

/// The character of one digit, up to fifteen.
pub open spec fn digit_char(d: int) -> char {
    if d < 10 {
        (48 + d) as char
    } else {
        (87 + d) as char
    }
}

/// The value of one digit, of either case; sixteen for any other character.
pub open spec fn digit_value(c: char) -> int {
    if '0' <= c && c <= '9' {
        c as int - 48
    } else if 'a' <= c && c <= 'f' {
        c as int - 87
    } else if 'A' <= c && c <= 'F' {
        c as int - 55
    } else {
        16
    }
}

/// `n` written in digits of the base, without leading zeros.
pub open spec fn in_digits(n: nat, base: nat) -> Seq<char>
    decreases n,
{
    if base < 2 || n < base {
        seq![digit_char(n as int)]
    } else {
        proof {
            assert(n / base < n) by (nonlinear_arith)
                requires
                    n >= base,
                    base >= 2,
            ;
        }
        in_digits(n / base, base).push(digit_char((n % base) as int))
    }
}

/// `n` in decimal.
pub open spec fn decimal(n: int) -> Seq<char> {
    if n < 0 {
        seq!['-'] + in_digits((-n) as nat, 10)
    } else {
        in_digits(n as nat, 10)
    }
}

/// Whether every character is a digit of the base.
pub open spec fn all_digits(s: Seq<char>, base: int) -> bool {
    forall|i: int| 0 <= i < s.len() ==> digit_value(#[trigger] s[i]) < base
}

/// The number that digits of the base stand for.
pub open spec fn value_of(s: Seq<char>, base: int) -> int
    decreases s.len(),
{
    if s.len() == 0 {
        0
    } else {
        value_of(s.drop_last(), base) * base + digit_value(s.last())
    }
}

/// `s` read as a number without a minus sign: an optional `+`, then at least one digit.
pub open spec fn read_unsigned(s: Seq<char>, base: int) -> Option<int> {
    let d = if s.len() > 0 && s[0] == '+' {
        s.skip(1)
    } else {
        s
    };
    if d.len() > 0 && all_digits(d, base) {
        Some(value_of(d, base))
    } else {
        None
    }
}

/// `s` read as a decimal number with an optional sign.
pub open spec fn read_signed(s: Seq<char>) -> Option<int> {
    if s.len() > 0 && s[0] == '-' {
        let d = s.skip(1);
        if d.len() > 0 && all_digits(d, 10) {
            Some(-value_of(d, 10))
        } else {
            None
        }
    } else {
        read_unsigned(s, 10)
    }
}

/// The number where it is at most `max`.
pub open spec fn at_most(n: Option<int>, max: int) -> Option<int> {
    match n {
        Some(k) => if k <= max {
            Some(k)
        } else {
            None
        },
        None => None,
    }
}

/// The character of one digit, up to fifteen.
pub fn digit_of(d: u64) -> (r: char)
    requires
        d < 16,
    ensures
        r == digit_char(d as int),
{
    let n: u8 = d as u8;
    if n < 10 {
        (48 + n) as char
    } else {
        (87 + n) as char
    }
}

fn value_of_digit(c: char) -> (r: u64)
    ensures
        r == digit_value(c),
        r <= 16,
{
    if '0' <= c && c <= '9' {
        (c as u8 - 48) as u64
    } else if 'a' <= c && c <= 'f' {
        (c as u8 - 87) as u64
    } else if 'A' <= c && c <= 'F' {
        (c as u8 - 55) as u64
    } else {
        16
    }
}

/// `n` written in digits of the base.
pub fn digits(n: u64, base: u64) -> (r: String)
    requires
        2 <= base <= 16,
    ensures
        r@ == in_digits(n as nat, base as nat),
    decreases n,
{
    if n < base {
        let c = digit_of(n);
        let mut r = String::new();
        r.push(c);
        assert(r@ =~= seq![c]);
        r
    } else {
        proof {
            assert(n / base < n) by (nonlinear_arith)
                requires
                    n >= base,
                    base >= 2,
            ;
        }
        let mut r = digits(n / base, base);
        r.push(digit_of(n % base));
        r
    }
}

/// `n` in decimal.
pub fn number(n: u64) -> (r: String)
    ensures
        r@ == decimal(n as int),
{
    digits(n, 10)
}

/// `n` in decimal.
pub fn signed_number(n: i64) -> (r: String)
    ensures
        r@ == decimal(n as int),
{
    if n >= 0 {
        digits(n as u64, 10)
    } else {
        let m: u64 = (-(n as i128)) as u64;
        let d = digits(m, 10);
        let mut r = String::new();
        r.push('-');
        r.append(d.as_str());
        assert(r@ =~= seq!['-'] + d@);
        r
    }
}

pub proof fn lemma_value_nonneg(s: Seq<char>, base: int)
    requires
        base >= 0,
    ensures
        value_of(s, base) >= 0,
    decreases s.len(),
{
    if s.len() > 0 {
        lemma_value_nonneg(s.drop_last(), base);
        let a = value_of(s.drop_last(), base);
        assert(a * base >= 0) by (nonlinear_arith)
            requires
                a >= 0,
                base >= 0,
        ;
    }
}

/// The number that the digits stand for, where it is at most `max`.
fn read_digits(d: &[char], base: u64, max: u64) -> (r: Option<u64>)
    requires
        2 <= base <= 16,
    ensures
        match r {
            Some(v) => d@.len() > 0 && all_digits(d@, base as int) && v == value_of(d@, base as int)
                && v <= max,
            None => d@.len() == 0 || !all_digits(d@, base as int) || value_of(d@, base as int) > max,
        },
{
    if d.len() == 0 {
        return None;
    }
    let mut i: usize = 0;
    let mut v: u128 = 0;
    let mut over: bool = false;
    assert(d@.take(0) =~= Seq::<char>::empty());
    while i < d.len()
        invariant
            i <= d@.len(),
            2 <= base <= 16,
            all_digits(d@.take(i as int), base as int),
            !over ==> v == value_of(d@.take(i as int), base as int) && v <= max,
            over ==> value_of(d@.take(i as int), base as int) > max,
        decreases d@.len() - i,
    {
        let x: u64 = value_of_digit(d[i]);
        let ghost t = d@.take(i + 1);
        proof {
            assert(t.drop_last() =~= d@.take(i as int));
            assert(t.last() == d@[i as int]);
        }
        if x >= base {
            assert(digit_value(d@[i as int]) >= base);
            return None;
        }
        proof {
            assert forall|j: int| 0 <= j < t.len() implies digit_value(#[trigger] t[j]) < base by {
                if j < i {
                    assert(d@.take(i as int)[j] == t[j]);
                }
            }
            lemma_value_nonneg(d@.take(i as int), base as int);
        }
        let ghost a = value_of(d@.take(i as int), base as int);
        if over {
            proof {
                assert(a * base >= a) by (nonlinear_arith)
                    requires
                        a >= 0,
                        base >= 2,
                ;
            }
        } else {
            proof {
                assert(v * base <= u64::MAX * 16) by (nonlinear_arith)
                    requires
                        v <= u64::MAX,
                        base <= 16,
                ;
            }
            v = v * (base as u128) + (x as u128);
            if v > max as u128 {
                over = true;
            }
        }
        i += 1;
    }
    assert(d@.take(d@.len() as int) =~= d@);
    if over {
        None
    } else {
        Some(v as u64)
    }
}

/// `s` read as an unsigned number of the base, where it is at most `max`.
pub fn read_number(s: &str, base: u64, max: u64) -> (r: Option<u64>)
    requires
        2 <= base <= 16,
    ensures
        match r {
            Some(v) => at_most(read_unsigned(s@, base as int), max as int) == Some(v as int),
            None => at_most(read_unsigned(s@, base as int), max as int) is None,
        },
{
    let v = chars_of(s);
    if v.len() > 0 && v[0] == '+' {
        let r = read_digits(&v[1..v.len()], base, max);
        assert(v@.subrange(1, v@.len() as int) =~= v@.skip(1));
        r
    } else {
        read_digits(&v, base, max)
    }
}

/// `s` read as a decimal number with an optional sign, where it fits in 64 bits.
pub fn read_i64(s: &str) -> (r: Option<i64>)
    ensures
        match r {
            Some(v) => read_signed(s@) == Some(v as int),
            None => match read_signed(s@) {
                Some(n) => n < i64::MIN || n > i64::MAX,
                None => true,
            },
        },
{
    let v = chars_of(s);
    if v.len() > 0 && v[0] == '-' {
        assert(v@.subrange(1, v@.len() as int) =~= v@.skip(1));
        match read_digits(&v[1..v.len()], 10, 0x8000_0000_0000_0000) {
            Some(m) => {
                if m == 0x8000_0000_0000_0000 {
                    Some(i64::MIN)
                } else {
                    Some(-(m as i64))
                }
            },
            None => None,
        }
    } else {
        match read_number(s, 10, 0x7fff_ffff_ffff_ffff) {
            Some(m) => Some(m as i64),
            None => None,
        }
    }
}

/// What is written in digits reads back as the same number.
pub proof fn digits_read_back(n: nat, base: nat)
    requires
        2 <= base <= 16,
    ensures
        read_unsigned(in_digits(n, base), base as int) == Some(n as int),
        value_of(in_digits(n, base), base as int) == n,
        all_digits(in_digits(n, base), base as int),
        in_digits(n, base).len() > 0,
        forall|i: int| 0 <= i < in_digits(n, base).len() ==> is_digit_char(#[trigger] in_digits(n, base)[i]),
    decreases n,
{
    let s = in_digits(n, base);
    if n < base {
        assert(s.drop_last() =~= Seq::<char>::empty());
        assert(value_of(s.drop_last(), base as int) == 0);
        assert(s.last() == digit_char(n as int));
    } else {
        assert(n / base < n) by (nonlinear_arith)
            requires
                n >= base,
                base >= 2,
        ;
        digits_read_back(n / base, base);
        let t = in_digits(n / base, base);
        assert(s.drop_last() =~= t);
        assert((n / base) * base + n % base == n) by (nonlinear_arith)
            requires
                base >= 2,
        ;
        assert forall|i: int| 0 <= i < s.len() implies digit_value(#[trigger] s[i]) < base && is_digit_char(s[i]) by {
            if i < t.len() {
                assert(t[i] == s[i]);
            }
        }
    }
    assert(is_digit_char(s[0]));
}

/// A digit, or one of the small letters up to `f`.
pub open spec fn is_digit_char(c: char) -> bool {
    ('0' <= c && c <= '9') || ('a' <= c && c <= 'f')
}

/// A whole number that is written in decimal is read as that number, with its sign.
pub proof fn decimals_read_back(n: int)
    ensures
        read_signed(decimal(n)) == Some(n),
        n >= 0 ==> read_unsigned(decimal(n), 10) == Some(n),
        decimal(n).len() > 0,
        forall|i: int|
            0 <= i < decimal(n).len() ==> ('0' <= #[trigger] decimal(n)[i] <= '9' || (n < 0 && i == 0 && decimal(n)[i]
                == '-')),
{
    let m = if n < 0 {
        (-n) as nat
    } else {
        n as nat
    };
    digits_read_back(m, 10);
    let d = in_digits(m, 10);
    assert forall|i: int| 0 <= i < d.len() implies '0' <= #[trigger] d[i] <= '9' by {
        assert(digit_value(d[i]) < 10);
        assert(is_digit_char(d[i]));
    }
    if n < 0 {
        assert(decimal(n).skip(1) =~= d);
    } else {
        assert(d[0] != '-' && d[0] != '+');
    }
}

} // verus!

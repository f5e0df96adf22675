//! Display text of a double-precision number given by its IEEE-754 bits.
//!
//! The pt-BR thousands separator `.` groups the digits of every number
//! written without decimals: integral values below 10^15, and values from
//! 100 up, which are rounded (ties to even) to no decimals. Values from 10 up
//! get 1 decimal and smaller ones 2, after a `.` decimal point (these never
//! reach 1000, so the two uses of `.` do not meet). `NaN`, `inf` and `-inf`
//! are written as such.

use vstd::prelude::*;

use crate::text::{
    decimal, digit_char, digit_to_char, format_with_thousands_separator, group_thousands,
    grouped_int_text, padded, push_decimal, push_grouped, push_padded,
};

verus! {

pub open spec fn pow2(n: nat) -> nat
    decreases n,
{
    if n == 0 {
        1
    } else {
        2 * pow2((n - 1) as nat)
    }
}

pub open spec fn pow10(n: nat) -> nat
    decreases n,
{
    if n == 0 {
        1
    } else {
        10 * pow10((n - 1) as nat)
    }
}

/// The sign bit.
pub open spec fn sign_bit(b: u64) -> bool {
    b >= 0x8000_0000_0000_0000
}

/// The biased exponent field (11 bits).
pub open spec fn biased_exponent(b: u64) -> nat {
    ((b % 0x8000_0000_0000_0000) / 0x10_0000_0000_0000) as nat
}

/// The fraction field (52 bits).
pub open spec fn fraction(b: u64) -> nat {
    (b % 0x10_0000_0000_0000) as nat
}

pub open spec fn is_nan(b: u64) -> bool {
    biased_exponent(b) == 2047 && fraction(b) != 0
}

pub open spec fn is_infinite(b: u64) -> bool {
    biased_exponent(b) == 2047 && fraction(b) == 0
}

/// The integer significand: the absolute value of a finite number is
/// `significand(b) * 2^exponent(b)`.
pub open spec fn significand(b: u64) -> nat {
    if biased_exponent(b) == 0 {
        fraction(b)
    } else {
        fraction(b) + 0x10_0000_0000_0000
    }
}

pub open spec fn exponent(b: u64) -> int {
    if biased_exponent(b) == 0 {
        -1074
    } else {
        biased_exponent(b) - 1075
    }
}

/// The absolute value of the finite number `b` is at least `t`.
pub open spec fn magnitude_at_least(b: u64, t: nat) -> bool {
    if exponent(b) >= 0 {
        significand(b) * pow2(exponent(b) as nat) >= t
    } else {
        significand(b) >= t * pow2((-exponent(b)) as nat)
    }
}

/// The finite number `b` has no fractional part.
pub open spec fn is_integral(b: u64) -> bool {
    exponent(b) >= 0 || significand(b) % pow2((-exponent(b)) as nat) == 0
}

/// The absolute value of the integral number `b`.
pub open spec fn integral_magnitude(b: u64) -> nat {
    if exponent(b) >= 0 {
        significand(b) * pow2(exponent(b) as nat)
    } else {
        significand(b) / pow2((-exponent(b)) as nat)
    }
}

/// `x / d` rounded to the nearest integer, ties to even.
pub open spec fn div_round_half_even(x: nat, d: nat) -> nat {
    let q = x / d;
    let r = x % d;
    if 2 * r > d || (2 * r == d && q % 2 == 1) {
        q + 1
    } else {
        q
    }
}

/// The absolute value of the finite number `b` times `10^p`, rounded to
/// the nearest integer, ties to even.
pub open spec fn scaled_magnitude(b: u64, p: nat) -> nat {
    if exponent(b) >= 0 {
        significand(b) * pow10(p) * pow2(exponent(b) as nat)
    } else {
        div_round_half_even(significand(b) * pow10(p), pow2((-exponent(b)) as nat))
    }
}

/// Decimals shown for the finite, non-integral-or-large number `b`.
pub open spec fn precision(b: u64) -> nat {
    if magnitude_at_least(b, 100) {
        0
    } else if magnitude_at_least(b, 10) {
        1
    } else {
        2
    }
}

/// `n / 10^p` written with `p` decimals; without decimals, its thousands
/// are grouped by `.`.
pub open spec fn fixed_text(n: nat, p: nat) -> Seq<char> {
    if p == 0 {
        group_thousands(decimal(n))
    } else {
        decimal(n / pow10(p)) + seq!['.'] + padded(n % pow10(p), p)
    }
}

/// The display text of the number with bits `b`.
pub open spec fn number_text(b: u64) -> Seq<char> {
    if is_nan(b) {
        "NaN"@
    } else if is_infinite(b) {
        if sign_bit(b) {
            "-inf"@
        } else {
            "inf"@
        }
    } else if is_integral(b) && !magnitude_at_least(b, pow10(15)) {
        grouped_int_text(
            if sign_bit(b) {
                -integral_magnitude(b)
            } else {
                integral_magnitude(b) as int
            },
        )
    } else {
        (if sign_bit(b) {
            seq!['-']
        } else {
            seq![]
        }) + fixed_text(scaled_magnitude(b, precision(b)), precision(b))
    }
}

// ---------------------------------------------------------------------
// Decimal digits of large numbers, least significant first.
/// The value of little-endian decimal digits.
pub open spec fn digits_value(ds: Seq<u8>) -> nat
    decreases ds.len(),
{
    if ds.len() == 0 {
        0
    } else {
        ds[0] as nat + 10 * digits_value(ds.skip(1))
    }
}

/// Digits below ten, at least one, the most significant one nonzero.
pub open spec fn canonical(ds: Seq<u8>) -> bool {
    &&& ds.len() >= 1
    &&& forall|i: int| 0 <= i < ds.len() ==> #[trigger] ds[i] < 10
    &&& ds[ds.len() - 1] != 0
}

/// The text of little-endian digits, most significant first.
pub open spec fn digits_text(ds: Seq<u8>) -> Seq<char>
    decreases ds.len(),
{
    if ds.len() <= 1 {
        seq![digit_char(ds[0] as int)]
    } else {
        digits_text(ds.skip(1)).push(digit_char(ds[0] as int))
    }
}

proof fn lemma_value_concat(a: Seq<u8>, b: Seq<u8>)
    ensures
        digits_value(a + b) == digits_value(a) + pow10(a.len()) * digits_value(b),
    decreases a.len(),
{
    if a.len() == 0 {
        assert(a + b =~= b);
    } else {
        assert((a + b).skip(1) =~= a.skip(1) + b);
        lemma_value_concat(a.skip(1), b);
        let x = digits_value(a.skip(1));
        let p = pow10((a.len() - 1) as nat);
        let v = digits_value(b);
        assert((a + b)[0] == a[0]);
        assert(digits_value(a + b) == a[0] as nat + 10 * digits_value((a + b).skip(1)));
        assert(digits_value(a) == a[0] as nat + 10 * x);
        assert(pow10(a.len()) == 10 * p);
        assert(10 * (x + p * v) == 10 * x + (10 * p) * v) by (nonlinear_arith);
    }
}

proof fn lemma_value_single(d: u8)
    ensures
        digits_value(seq![d]) == d as nat,
{
    assert(seq![d].skip(1) =~= Seq::<u8>::empty());
    assert(digits_value(Seq::<u8>::empty()) == 0);
}

proof fn lemma_canonical_positive(ds: Seq<u8>)
    requires
        canonical(ds),
    ensures
        digits_value(ds) >= 1,
    decreases ds.len(),
{
    if ds.len() > 1 {
        let rest = ds.skip(1);
        assert(rest[rest.len() - 1] == ds[ds.len() - 1]);
        assert forall|i: int| 0 <= i < rest.len() implies #[trigger] rest[i] < 10 by {
            assert(rest[i] == ds[i + 1]);
        }
        lemma_canonical_positive(rest);
    }
}

proof fn lemma_digits_text_decimal(ds: Seq<u8>)
    requires
        canonical(ds),
    ensures
        digits_text(ds) == decimal(digits_value(ds)),
    decreases ds.len(),
{
    assert(ds[0] < 10);
    if ds.len() == 1 {
        assert(ds.skip(1) =~= Seq::<u8>::empty());
        assert(digits_value(ds.skip(1)) == 0);
        assert(digits_value(ds) == ds[0] as nat);
    } else {
        let rest = ds.skip(1);
        assert(rest[rest.len() - 1] == ds[ds.len() - 1]);
        assert forall|i: int| 0 <= i < rest.len() implies #[trigger] rest[i] < 10 by {
            assert(rest[i] == ds[i + 1]);
        }
        lemma_digits_text_decimal(rest);
        lemma_canonical_positive(rest);
        let v = digits_value(ds);
        let r = digits_value(rest);
        assert(v == ds[0] as nat + 10 * r);
        assert(v / 10 == r && v % 10 == ds[0] as nat);
        assert(v >= 10);
    }
}

/// The little-endian digits of a positive `n`.
fn digits_of(n: u64) -> (ds: Vec<u8>)
    requires
        n > 0,
    ensures
        canonical(ds@),
        digits_value(ds@) == n as nat,
{
    let mut ds: Vec<u8> = Vec::new();
    let mut rest = n;
    proof {
        assert(digits_value(ds@) == 0);
        assert(pow10(0) == 1);
    }
    while rest > 0
        invariant
            forall|i: int| 0 <= i < ds@.len() ==> #[trigger] ds@[i] < 10,
            digits_value(ds@) + pow10(ds@.len()) * rest == n as nat,
            rest == 0 ==> ds@.len() >= 1 && ds@[ds@.len() - 1] != 0,
            rest > 0 || ds@.len() >= 1,
        decreases rest,
    {
        let d = (rest % 10) as u8;
        let ghost before = ds@;
        ds.push(d);
        proof {
            lemma_value_concat(before, seq![d]);
            lemma_value_single(d);
            assert(ds@ =~= before + seq![d]);
            let p = pow10(before.len());
            assert(pow10(ds@.len()) == 10 * p);
            let r = rest as nat;
            assert(p * r == p * (d as nat) + (10 * p) * (r / 10)) by (nonlinear_arith)
                requires
                    d as nat == r % 10,
            ;
        }
        rest = rest / 10;
    }
    ds
}

proof fn lemma_double_step(vn: int, vo: int, c: int, p: int, o: int, nd: int, c2: int)
    by (nonlinear_arith)
    requires
        vn + c * p == 2 * vo,
        nd + 10 * c2 == 2 * o + c,
    ensures
        vn + p * nd + c2 * (10 * p) == 2 * (vo + p * o),
{
}

/// Doubles a positive number in place.
fn double_digits(ds: &mut Vec<u8>)
    requires
        canonical(old(ds)@),
    ensures
        canonical(final(ds)@),
        digits_value(final(ds)@) == 2 * digits_value(old(ds)@),
{
    let n = ds.len();
    let ghost orig = ds@;
    let mut carry: u8 = 0;
    let mut i: usize = 0;
    while i < n
        invariant
            n == ds@.len(),
            orig == old(ds)@,
            canonical(orig),
            orig.len() == n,
            0 <= i <= n,
            carry <= 1,
            forall|j: int| 0 <= j < n ==> #[trigger] ds@[j] < 10,
            forall|j: int| i <= j < n ==> #[trigger] ds@[j] == orig[j],
            digits_value(ds@.take(i as int)) + carry * pow10(i as nat) == 2 * digits_value(
                orig.take(i as int),
            ),
            i == n && carry == 0 ==> ds@[n - 1] != 0,
        decreases n - i,
    {
        let o = ds[i];
        let t = 2 * o + carry;
        let nd = t % 10;
        let c2 = t / 10;
        let ghost before = ds@;
        ds.set(i, nd);
        proof {
            assert(ds@.take(i + 1) =~= before.take(i as int) + seq![nd]);
            assert(orig.take(i + 1) =~= orig.take(i as int) + seq![o]);
            assert(before.take(i as int) =~= ds@.take(i as int));
            lemma_value_concat(before.take(i as int), seq![nd]);
            lemma_value_concat(orig.take(i as int), seq![o]);
            lemma_value_single(nd);
            lemma_value_single(o);
            lemma_double_step(
                digits_value(before.take(i as int)) as int,
                digits_value(orig.take(i as int)) as int,
                carry as int,
                pow10(i as nat) as int,
                o as int,
                nd as int,
                c2 as int,
            );
            assert(pow10((i + 1) as nat) == 10 * pow10(i as nat));
        }
        carry = c2;
        i = i + 1;
    }
    proof {
        assert(ds@.take(n as int) =~= ds@);
        assert(orig.take(n as int) =~= orig);
    }
    if carry > 0 {
        let ghost before = ds@;
        ds.push(carry);
        proof {
            assert(ds@ =~= before + seq![carry]);
            lemma_value_concat(before, seq![carry]);
            lemma_value_single(carry);
        }
    }
}

/// The text of canonical digits, most significant first.
fn digit_chars(ds: &Vec<u8>) -> (cs: Vec<char>)
    requires
        canonical(ds@),
    ensures
        cs@ == digits_text(ds@),
{
    let n = ds.len();
    let mut i = n - 1;
    let mut cs: Vec<char> = Vec::new();
    cs.push(digit_to_char(ds[i] as u64));
    proof {
        assert(ds@.skip(i as int) =~= seq![ds@[i as int]]);
        assert(cs@ =~= digits_text(ds@.skip(i as int))) by {
            assert(ds@[i as int] < 10);
        }
    }
    while i > 0
        invariant
            n == ds@.len(),
            canonical(ds@),
            0 <= i < n,
            cs@ == digits_text(ds@.skip(i as int)),
        decreases i,
    {
        assert(ds@[i - 1] < 10);
        cs.push(digit_to_char(ds[i - 1] as u64));
        proof {
            let t = ds@.skip(i - 1);
            assert(t.skip(1) =~= ds@.skip(i as int));
            assert(t[0] == ds@[i - 1]);
        }
        i = i - 1;
    }
    proof {
        assert(ds@.skip(0) =~= ds@);
    }
    cs
}

/// Appends the first `end` characters of `cs` grouped by three from the
/// right.
fn push_grouped_chars(s: &mut String, cs: &Vec<char>, end: usize)
    requires
        end <= cs@.len(),
    ensures
        final(s)@ == old(s)@ + group_thousands(cs@.take(end as int)),
    decreases end,
{
    let d = Ghost(cs@.take(end as int));
    if end > 3 {
        push_grouped_chars(s, cs, end - 3);
        s.push('.');
        let ghost mid = s@;
        let mut i = end - 3;
        while i < end
            invariant
                3 < end <= cs@.len(),
                end - 3 <= i <= end,
                s@ == mid + cs@.subrange(end - 3, i as int),
            decreases end - i,
        {
            s.push(cs[i]);
            proof {
                let lo = end - 3;
                assert(0 <= lo <= i < cs@.len());
                assert(cs@.subrange(lo, i + 1) =~= cs@.subrange(lo, i as int).push(cs@[i as int]));
            }
            i = i + 1;
        }
        proof {
            assert(d@.take(d@.len() - 3) =~= cs@.take(end - 3));
            assert(d@.skip(d@.len() - 3) =~= cs@.subrange(end - 3, end as int));
            assert(final(s)@ =~= old(s)@ + group_thousands(d@));
        }
    } else {
        let ghost start = s@;
        let mut i: usize = 0;
        while i < end
            invariant
                i <= end <= cs@.len(),
                s@ == start + cs@.take(i as int),
            decreases end - i,
        {
            s.push(cs[i]);
            proof {
                assert(cs@.take(i + 1) =~= cs@.take(i as int).push(cs@[i as int]));
            }
            i = i + 1;
        }
    }
}

/// Appends the decimal text of `m * 2^e` for a positive `m`.
fn push_scaled_by_pow2(s: &mut String, m: u64, e: u64)
    requires
        m > 0,
    ensures
        final(s)@ == old(s)@ + group_thousands(decimal(m as nat * pow2(e as nat))),
{
    let mut ds = digits_of(m);
    let mut i: u64 = 0;
    proof {
        assert(pow2(0) == 1);
        assert(m as nat * 1 == m as nat);
    }
    while i < e
        invariant
            canonical(ds@),
            digits_value(ds@) == m as nat * pow2(i as nat),
            i <= e,
        decreases e - i,
    {
        double_digits(&mut ds);
        proof {
            assert(pow2((i + 1) as nat) == 2 * pow2(i as nat));
            assert(2 * (m as nat * pow2(i as nat)) == m as nat * (2 * pow2(i as nat)))
                by (nonlinear_arith);
        }
        i = i + 1;
    }
    let cs = digit_chars(&ds);
    push_grouped_chars(s, &cs, cs.len());
    proof {
        lemma_digits_text_decimal(ds@);
        assert(cs@.take(cs@.len() as int) =~= cs@);
    }
}

// ---------------------------------------------------------------------
proof fn lemma_pow2_positive(n: nat)
    ensures
        pow2(n) >= 1,
    decreases n,
{
    if n > 0 {
        lemma_pow2_positive((n - 1) as nat);
    }
}

proof fn lemma_pow2_monotone(a: nat, b: nat)
    requires
        a <= b,
    ensures
        pow2(a) <= pow2(b),
    decreases b,
{
    if a < b {
        lemma_pow2_monotone(a, (b - 1) as nat);
        lemma_pow2_positive((b - 1) as nat);
    }
}

proof fn lemma_pow2_62()
    ensures
        pow2(62) == 0x4000_0000_0000_0000,
{
    reveal_with_fuel(pow2, 63);
}

proof fn lemma_pow10_small()
    ensures
        pow10(0) == 1,
        pow10(1) == 10,
        pow10(2) == 100,
        pow10(15) == 1_000_000_000_000_000,
{
    reveal_with_fuel(pow10, 16);
}

proof fn lemma_pow2_61()
    ensures
        pow2(61) == 0x2000_0000_0000_0000,
{
    reveal_with_fuel(pow2, 62);
}

/// `2^k` for `k <= 61`.
fn pow2_u64(k: u64) -> (d: u64)
    requires
        k <= 61,
    ensures
        d as nat == pow2(k as nat),
        1 <= d as nat <= 0x2000_0000_0000_0000,
{
    let mut d: u64 = 1;
    let mut i: u64 = 0;
    proof {
        lemma_pow2_61();
    }
    while i < k
        invariant
            i <= k <= 61,
            d as nat == pow2(i as nat),
            pow2(61) == 0x2000_0000_0000_0000,
        decreases k - i,
    {
        proof {
            lemma_pow2_monotone((i + 1) as nat, 61);
            assert(pow2((i + 1) as nat) == 2 * pow2(i as nat));
        }
        d = d * 2;
        i = i + 1;
    }
    proof {
        lemma_pow2_positive(k as nat);
        lemma_pow2_monotone(k as nat, 61);
    }
    d
}

/// Appends `n / 10^p` written with `p` decimals, for `p <= 2`.
fn push_fixed(s: &mut String, n: u64, p: u64)
    requires
        p <= 2,
    ensures
        final(s)@ == old(s)@ + fixed_text(n as nat, p as nat),
{
    proof {
        lemma_pow10_small();
    }
    if p == 0 {
        push_grouped(s, n);
    } else {
        let unit: u64 = if p == 1 {
            10
        } else {
            100
        };
        push_decimal(s, n / unit);
        s.push('.');
        push_padded(s, n % unit, p);
        proof {
            assert(final(s)@ =~= old(s)@ + fixed_text(n as nat, p as nat));
        }
    }
}

/// Display text of a number (given by its IEEE-754 bits) with up to two
/// decimals and `.` between thousands.
pub fn format_number(bits: u64) -> (r: String)
    ensures
        r@ == number_text(bits),
{
    let negative = bits >= 0x8000_0000_0000_0000;
    let be: u64 = (bits % 0x8000_0000_0000_0000) / 0x10_0000_0000_0000;
    let frac: u64 = bits % 0x10_0000_0000_0000;
    if be == 2047 {
        if frac != 0 {
            return String::from_str("NaN");
        } else if negative {
            return String::from_str("-inf");
        } else {
            return String::from_str("inf");
        }
    }
    let m: u64 = if be == 0 {
        frac
    } else {
        frac + 0x10_0000_0000_0000
    };
    proof {
        lemma_pow10_small();
    }
    let mut s = String::new();
    if be >= 1075 {
        // |value| = m * 2^e with e >= 0: an integer of at least 2^52.
        let e: u64 = be - 1075;
        proof {
            lemma_pow2_positive(e as nat);
            assert(m as nat * pow2(e as nat) >= m as nat) by (nonlinear_arith)
                requires
                    pow2(e as nat) >= 1,
            ;
            assert(magnitude_at_least(bits, 100));
            assert(magnitude_at_least(bits, pow10(15)));
            assert(precision(bits) == 0);
            assert(m as nat * 1 * pow2(e as nat) == m as nat * pow2(e as nat))
                by (nonlinear_arith);
            assert(scaled_magnitude(bits, 0) == m as nat * pow2(e as nat));
        }
        if negative {
            s.push('-');
        }
        push_scaled_by_pow2(&mut s, m, e);
        proof {
            assert(s@ =~= number_text(bits));
        }
        return s;
    }
    let k: u64 = if be == 0 {
        1074
    } else {
        1075 - be
    };
    assert(exponent(bits) == -(k as int));
    if k >= 62 {
        proof {
            lemma_pow2_62();
            lemma_pow2_monotone(62, k as nat);
            vstd::arithmetic::div_mod::lemma_small_mod(m as nat, pow2(k as nat));
        }
        if m == 0 {
            proof {
                vstd::arithmetic::div_mod::lemma_basic_div(0, pow2(k as nat) as int);
                assert(integral_magnitude(bits) == 0);
            }
            return format_with_thousands_separator(0);
        }
        let x: u64 = m * 100;
        proof {
            let d = pow2(k as nat);
            assert(!magnitude_at_least(bits, 100)) by (nonlinear_arith)
                requires
                    significand(bits) < 0x20_0000_0000_0000,
                    d >= 0x4000_0000_0000_0000,
                    magnitude_at_least(bits, 100) == (significand(bits) >= 100 * d),
            ;
            assert(!magnitude_at_least(bits, 10)) by (nonlinear_arith)
                requires
                    significand(bits) < 0x20_0000_0000_0000,
                    d >= 0x4000_0000_0000_0000,
                    magnitude_at_least(bits, 10) == (significand(bits) >= 10 * d),
            ;
            vstd::arithmetic::div_mod::lemma_basic_div(x as int, d as int);
            vstd::arithmetic::div_mod::lemma_small_mod(x as nat, d);
            assert(scaled_magnitude(bits, 2) == 0);
        }
        if negative {
            s.push('-');
        }
        push_fixed(&mut s, 0, 2);
        proof {
            assert(s@ =~= number_text(bits));
        }
        return s;
    }
    let d: u64 = pow2_u64(k);
    let big_m = m as u128;
    let big_d = d as u128;
    if m % d == 0 && big_m < 1_000_000_000_000_000u128 * big_d {
        let q: u64 = m / d;
        assert(q <= m);
        let i: i64 = if negative {
            -(q as i64)
        } else {
            q as i64
        };
        return format_with_thousands_separator(i);
    }
    let p: u64 = if big_m >= 100 * big_d {
        0
    } else if big_m >= 10 * big_d {
        1
    } else {
        2
    };
    let unit: u64 = if p == 0 {
        1
    } else if p == 1 {
        10
    } else {
        100
    };
    assert(unit as nat == pow10(p as nat));
    assert(m < 0x20_0000_0000_0000);
    assert(m * unit <= 0x20_0000_0000_0000 * 100) by (nonlinear_arith)
        requires
            m < 0x20_0000_0000_0000,
            unit <= 100,
    ;
    let x: u64 = m * unit;
    let q = x / d;
    let r = x % d;
    proof {
        vstd::arithmetic::div_mod::lemma_div_nonincreasing(x as int, d as int);
    }
    let n: u64 = if 2 * r > d || (2 * r == d && q % 2 == 1) {
        q + 1
    } else {
        q
    };
    assert(n as nat == scaled_magnitude(bits, precision(bits)));
    if negative {
        s.push('-');
    }
    push_fixed(&mut s, n, p);
    proof {
        assert(s@ =~= number_text(bits));
    }
    s
}

/// Negating a number only puts a `-` before its text: the same digits,
/// rounding and grouping either way. Zero is the exception (`-0` is shown
/// as `0`), and `NaN` has no sign.
pub proof fn law_sign_symmetric(b: u64)
    requires
        0 < b < 0x8000_0000_0000_0000,
        !is_nan(b),
    ensures
        number_text((b + 0x8000_0000_0000_0000) as u64) == seq!['-'] + number_text(b),
{
    let nb = (b + 0x8000_0000_0000_0000) as u64;
    assert(nb % 0x8000_0000_0000_0000 == b);
    assert(nb % 0x10_0000_0000_0000 == b % 0x10_0000_0000_0000);
    assert(biased_exponent(nb) == biased_exponent(b));
    assert(fraction(nb) == fraction(b));
    assert(sign_bit(nb) && !sign_bit(b));
    assert(significand(nb) == significand(b));
    assert(exponent(nb) == exponent(b));
    assert(is_nan(nb) == is_nan(b) && is_infinite(nb) == is_infinite(b));
    assert(is_integral(nb) == is_integral(b));
    assert(integral_magnitude(nb) == integral_magnitude(b));
    assert(forall|t: nat| magnitude_at_least(nb, t) == magnitude_at_least(b, t));
    assert(precision(nb) == precision(b));
    assert(forall|p: nat| scaled_magnitude(nb, p) == scaled_magnitude(b, p));
    if !is_infinite(b) && is_integral(b) && !magnitude_at_least(b, pow10(15)) {
        let m = integral_magnitude(b);
        if exponent(b) >= 0 {
            lemma_pow2_positive(exponent(b) as nat);
            assert(significand(b) >= 1);
            assert(m >= 1) by (nonlinear_arith)
                requires
                    m == significand(b) * pow2(exponent(b) as nat),
                    significand(b) >= 1,
                    pow2(exponent(b) as nat) >= 1,
            ;
        } else {
            let d = pow2((-exponent(b)) as nat);
            lemma_pow2_positive((-exponent(b)) as nat);
            assert(significand(b) >= 1);
            vstd::arithmetic::div_mod::lemma_fundamental_div_mod(significand(b) as int, d as int);
            assert(m >= 1) by (nonlinear_arith)
                requires
                    m == significand(b) / d,
                    significand(b) % d == 0,
                    significand(b) == d * (significand(b) / d) + significand(b) % d,
                    significand(b) >= 1,
                    d >= 1,
            ;
        }
        assert(grouped_int_text(-m) =~= seq!['-'] + grouped_int_text(m as int));
        assert(number_text(nb) =~= seq!['-'] + number_text(b));
    } else if is_infinite(b) {
        reveal_strlit("-inf");
        reveal_strlit("inf");
        assert(number_text(nb) =~= seq!['-'] + number_text(b));
    } else {
        assert(number_text(nb) =~= seq!['-'] + number_text(b));
    }
}

} // verus!

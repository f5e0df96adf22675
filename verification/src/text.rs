//! Decimal text of integers: plain, signed, and with `.` grouping
//! thousands (the pt-BR convention).

use vstd::prelude::*;

verus! {

/// The character of a decimal digit.
pub open spec fn digit_char(d: int) -> char {
    if d == 0 {
        '0'
    } else if d == 1 {
        '1'
    } else if d == 2 {
        '2'
    } else if d == 3 {
        '3'
    } else if d == 4 {
        '4'
    } else if d == 5 {
        '5'
    } else if d == 6 {
        '6'
    } else if d == 7 {
        '7'
    } else if d == 8 {
        '8'
    } else {
        '9'
    }
}

/// The decimal digits of `n`, most significant first, with no leading
/// zero (`0` is written `"0"`).
pub open spec fn decimal(n: nat) -> Seq<char>
    decreases n,
{
    if n < 10 {
        seq![digit_char(n as int)]
    } else {
        decimal(n / 10).push(digit_char((n % 10) as int))
    }
}

/// The text of a signed integer: a `-` before negative numbers.
pub open spec fn int_text(i: int) -> Seq<char> {
    if i < 0 {
        seq!['-'] + decimal((-i) as nat)
    } else {
        decimal(i as nat)
    }
}

/// Digits grouped by three from the right, the groups joined by `.`.
pub open spec fn group_thousands(d: Seq<char>) -> Seq<char>
    decreases d.len(),
{
    if d.len() <= 3 {
        d
    } else {
        group_thousands(d.take(d.len() - 3)) + seq!['.'] + d.skip(d.len() - 3)
    }
}

/// The text of a signed integer with its thousands grouped by `.`.
pub open spec fn grouped_int_text(i: int) -> Seq<char> {
    if i < 0 {
        seq!['-'] + group_thousands(decimal((-i) as nat))
    } else {
        group_thousands(decimal(i as nat))
    }
}

/// Exactly `width` digits of `n`, with leading zeros (for `n < 10^width`).
pub open spec fn padded(n: nat, width: nat) -> Seq<char>
    decreases width,
{
    if width == 0 {
        seq![]
    } else {
        padded(n / 10, (width - 1) as nat).push(digit_char((n % 10) as int))
    }
}

/// `String::push` appends one character: the contract claims that the
/// string's characters after the call are those before it followed by `ch`.
pub assume_specification[ String::push ](s: &mut String, ch: char)
    ensures
        final(s)@ == old(s)@.push(ch),
;

pub fn digit_to_char(d: u64) -> (c: char)
    requires
        d < 10,
    ensures
        c == digit_char(d as int),
{
    if d == 0 {
        '0'
    } else if d == 1 {
        '1'
    } else if d == 2 {
        '2'
    } else if d == 3 {
        '3'
    } else if d == 4 {
        '4'
    } else if d == 5 {
        '5'
    } else if d == 6 {
        '6'
    } else if d == 7 {
        '7'
    } else if d == 8 {
        '8'
    } else {
        '9'
    }
}

/// Appends the decimal digits of `n` to `s`.
pub fn push_decimal(s: &mut String, n: u64)
    ensures
        final(s)@ == old(s)@ + decimal(n as nat),
    decreases n,
{
    if n >= 10 {
        push_decimal(s, n / 10);
    }
    s.push(digit_to_char(n % 10));
    proof {
        if n >= 10 {
            assert(old(s)@ + decimal(n as nat) =~= old(s)@ + decimal((n / 10) as nat) + seq![
                digit_char((n % 10) as int),
            ]);
        } else {
            assert(old(s)@ + decimal(n as nat) =~= old(s)@.push(digit_char((n % 10) as int)));
        }
    }
}

/// Appends exactly `width` digits of `n` (leading zeros included).
pub fn push_padded(s: &mut String, n: u64, width: u64)
    ensures
        final(s)@ == old(s)@ + padded(n as nat, width as nat),
    decreases width,
{
    if width > 0 {
        push_padded(s, n / 10, width - 1);
        s.push(digit_to_char(n % 10));
        proof {
            assert(old(s)@ + padded(n as nat, width as nat) =~= old(s)@ + padded(
                (n / 10) as nat,
                (width - 1) as nat,
            ) + seq![digit_char((n % 10) as int)]);
        }
    } else {
        proof {
            assert(old(s)@ + padded(n as nat, width as nat) =~= old(s)@);
        }
    }
}

/// The magnitude of a signed integer as an unsigned one.
pub fn magnitude(i: i64) -> (m: u64)
    ensures
        m as int == if i < 0 {
            -(i as int)
        } else {
            i as int
        },
{
    if i >= 0 {
        i as u64
    } else if i == i64::MIN {
        9223372036854775808u64
    } else {
        (-i) as u64
    }
}

/// The decimal text of a signed integer (what `i64::to_string` gives).
pub fn i64_text(i: i64) -> (r: String)
    ensures
        r@ == int_text(i as int),
{
    let mut s = String::new();
    if i < 0 {
        s.push('-');
    }
    push_decimal(&mut s, magnitude(i));
    proof {
        if i < 0 {
            assert(s@ =~= int_text(i as int));
        } else {
            assert(s@ =~= int_text(i as int));
        }
    }
    s
}

/// `padded` writes exactly `width` digits.
proof fn lemma_padded_len(n: nat, width: nat)
    ensures
        padded(n, width).len() == width,
    decreases width,
{
    if width > 0 {
        lemma_padded_len(n / 10, (width - 1) as nat);
    }
}

/// The digits of `n` are those of `n / 1000` followed by the last three
/// digits, padded.
proof fn lemma_decimal_split_thousands(n: nat)
    requires
        n >= 1000,
    ensures
        decimal(n) == decimal(n / 1000) + padded(n % 1000, 3),
        decimal(n / 1000).len() >= 1,
{
    let a = n / 10;
    let b = a / 10;
    let c = b / 10;
    assert(c == n / 1000);
    assert(decimal(n) == decimal(a).push(digit_char((n % 10) as int)));
    assert(decimal(a) == decimal(b).push(digit_char((a % 10) as int)));
    assert(decimal(b) == decimal(c).push(digit_char((b % 10) as int)));
    let r = n % 1000;
    assert(r / 10 / 10 / 10 == 0);
    assert(padded(r, 3) == padded(r / 10, 2).push(digit_char((r % 10) as int)));
    assert(padded(r / 10, 2) == padded(r / 10 / 10, 1).push(digit_char(((r / 10) % 10) as int)));
    assert(padded(r / 10 / 10, 1) == padded(r / 10 / 10 / 10, 0).push(
        digit_char(((r / 10 / 10) % 10) as int),
    ));
    assert((r / 10 / 10) % 10 == b % 10);
    assert((r / 10) % 10 == a % 10);
    assert(r % 10 == n % 10);
    assert(decimal(n) =~= decimal(c) + padded(r, 3));
    lemma_decimal_nonempty(c);
}

/// Every decimal text has at least one digit.
proof fn lemma_decimal_nonempty(n: nat)
    ensures
        decimal(n).len() >= 1,
    decreases n,
{
    if n >= 10 {
        lemma_decimal_nonempty(n / 10);
    }
}

/// A number below 1000 has at most three digits.
proof fn lemma_decimal_short(n: nat)
    requires
        n < 1000,
    ensures
        decimal(n).len() <= 3,
{
    if n >= 10 {
        assert(decimal(n) == decimal(n / 10).push(digit_char((n % 10) as int)));
        if n / 10 >= 10 {
            assert(decimal(n / 10) == decimal(n / 10 / 10).push(
                digit_char(((n / 10) % 10) as int),
            ));
            assert(n / 10 / 10 < 10);
            assert(decimal(n / 10 / 10).len() == 1);
        } else {
            assert(decimal(n / 10).len() == 1);
        }
    }
}

/// Appends the digits of `n` grouped by thousands.
pub fn push_grouped(s: &mut String, n: u64)
    ensures
        final(s)@ == old(s)@ + group_thousands(decimal(n as nat)),
    decreases n,
{
    if n >= 1000 {
        push_grouped(s, n / 1000);
        s.push('.');
        push_padded(s, n % 1000, 3);
        proof {
            lemma_decimal_split_thousands(n as nat);
            let d = decimal(n as nat);
            let hi = decimal((n / 1000) as nat);
            let lo = padded((n % 1000) as nat, 3);
            lemma_padded_len((n % 1000) as nat, 3);
            assert(d.take(d.len() - 3) =~= hi);
            assert(d.skip(d.len() - 3) =~= lo);
            assert(final(s)@ =~= old(s)@ + group_thousands(d));
        }
    } else {
        push_decimal(s, n);
        proof {
            lemma_decimal_short(n as nat);
        }
    }
}

/// Formats an integer with `.` separating the thousands: `1234567`
/// becomes `"1.234.567"`, `-1234` becomes `"-1.234"`.
pub fn format_with_thousands_separator(i: i64) -> (r: String)
    requires
        i != i64::MIN,
    ensures
        r@ == grouped_int_text(i as int),
{
    let mut s = String::new();
    if i < 0 {
        s.push('-');
    }
    push_grouped(&mut s, magnitude(i));
    proof {
        assert(s@ =~= grouped_int_text(i as int));
    }
    s
}

/// The characters of `s` other than `.`.
pub open spec fn strip_dots(s: Seq<char>) -> Seq<char>
    decreases s.len(),
{
    if s.len() == 0 {
        s
    } else if s.last() == '.' {
        strip_dots(s.drop_last())
    } else {
        strip_dots(s.drop_last()).push(s.last())
    }
}

proof fn lemma_strip_concat(a: Seq<char>, b: Seq<char>)
    ensures
        strip_dots(a + b) == strip_dots(a) + strip_dots(b),
    decreases b.len(),
{
    if b.len() == 0 {
        assert(a + b =~= a);
        assert(strip_dots(a) + strip_dots(b) =~= strip_dots(a));
    } else {
        lemma_strip_concat(a, b.drop_last());
        assert((a + b).drop_last() =~= a + b.drop_last());
        assert((a + b).last() == b.last());
        if b.last() != '.' {
            assert(strip_dots(a) + strip_dots(b) =~= (strip_dots(a) + strip_dots(b.drop_last())).push(
                b.last(),
            ));
        }
    }
}

proof fn lemma_strip_no_dots(s: Seq<char>)
    requires
        !s.contains('.'),
    ensures
        strip_dots(s) == s,
    decreases s.len(),
{
    if s.len() > 0 {
        assert(!s.drop_last().contains('.')) by {
            if s.drop_last().contains('.') {
                let k = choose|k: int| 0 <= k < s.drop_last().len() && s.drop_last()[k] == '.';
                assert(s[k] == '.');
            }
        }
        lemma_strip_no_dots(s.drop_last());
        assert(s.last() != '.') by {
            assert(s[s.len() - 1] == s.last());
        }
        assert(s.drop_last().push(s.last()) =~= s);
    }
}

proof fn lemma_decimal_no_dots(n: nat)
    ensures
        !decimal(n).contains('.'),
    decreases n,
{
    if n >= 10 {
        lemma_decimal_no_dots(n / 10);
        let d = decimal(n);
        assert forall|k: int| 0 <= k < d.len() implies d[k] != '.' by {
            if k < d.len() - 1 {
                assert(d[k] == decimal(n / 10)[k]);
            }
        }
    }
}

proof fn lemma_group_strips(d: Seq<char>)
    requires
        !d.contains('.'),
    ensures
        strip_dots(group_thousands(d)) == d,
    decreases d.len(),
{
    if d.len() <= 3 {
        lemma_strip_no_dots(d);
    } else {
        let hi = d.take(d.len() - 3);
        let lo = d.skip(d.len() - 3);
        assert(!hi.contains('.')) by {
            if hi.contains('.') {
                let k = choose|k: int| 0 <= k < hi.len() && hi[k] == '.';
                assert(d[k] == '.');
            }
        }
        assert(!lo.contains('.')) by {
            if lo.contains('.') {
                let k = choose|k: int| 0 <= k < lo.len() && lo[k] == '.';
                assert(d[k + d.len() - 3] == '.');
            }
        }
        lemma_group_strips(hi);
        lemma_strip_no_dots(lo);
        lemma_strip_concat(group_thousands(hi), seq!['.']);
        lemma_strip_concat(group_thousands(hi) + seq!['.'], lo);
        assert(strip_dots(seq!['.']) =~= Seq::<char>::empty()) by {
            reveal_with_fuel(strip_dots, 2);
            assert(seq!['.'].drop_last() =~= Seq::<char>::empty());
            assert(seq!['.'].last() == '.');
        }
        assert(hi + lo =~= d);
    }
}

/// Grouping thousands only inserts separators: removing the `.` gives back
/// the plain decimal text.
pub proof fn law_grouping_keeps_digits(i: int)
    ensures
        strip_dots(grouped_int_text(i)) == int_text(i),
{
    let n: nat = if i < 0 {
        (-i) as nat
    } else {
        i as nat
    };
    lemma_decimal_no_dots(n);
    lemma_group_strips(decimal(n));
    if i < 0 {
        lemma_strip_concat(seq!['-'], group_thousands(decimal(n)));
        assert(strip_dots(seq!['-']) =~= seq!['-']) by {
            reveal_with_fuel(strip_dots, 2);
            assert(seq!['-'].drop_last() =~= Seq::<char>::empty());
            assert(seq!['-'].last() == '-');
            assert(Seq::<char>::empty().push('-') =~= seq!['-']);
        }
    }
}

/// A character is a decimal digit.
pub open spec fn is_digit(c: char) -> bool {
    '0' <= c <= '9'
}

/// The number a digit character stands for.
pub open spec fn digit_value(c: char) -> int {
    c as int - '0' as int
}

/// The number a string of digits stands for, most significant first.
pub open spec fn digits_number(s: Seq<char>) -> int
    decreases s.len(),
{
    if s.len() == 0 {
        0
    } else {
        digits_number(s.drop_last()) * 10 + digit_value(s.last())
    }
}

/// The decimal text of `n` is at least one digit long, holds only digits,
/// and reads back as `n`; so distinct numbers have distinct texts.
pub proof fn lemma_decimal_reads_back(n: nat)
    ensures
        decimal(n).len() >= 1,
        forall|k: int| 0 <= k < decimal(n).len() ==> is_digit(#[trigger] decimal(n)[k]),
        digits_number(decimal(n)) == n,
    decreases n,
{
    let r = (n % 10) as int;
    assert(digit_value(digit_char(r)) == r && is_digit(digit_char(r)));
    if n < 10 {
        assert(digits_number(seq![digit_char(n as int)].drop_last()) == 0);
    } else {
        lemma_decimal_reads_back(n / 10);
        let d = decimal(n);
        assert(d.drop_last() =~= decimal(n / 10));
        assert(n == (n / 10) * 10 + r);
        assert forall|k: int| 0 <= k < d.len() implies is_digit(#[trigger] d[k]) by {
            if k < d.len() - 1 {
                assert(d[k] == decimal(n / 10)[k]);
            }
        }
    }
}

/// Two numbers with the same decimal text are equal.
pub proof fn lemma_decimal_injective(a: nat, b: nat)
    requires
        decimal(a) == decimal(b),
    ensures
        a == b,
{
    lemma_decimal_reads_back(a);
    lemma_decimal_reads_back(b);
}

} // verus!

//! Laws of numbers: how they are written, read and rounded.

use vstd::prelude::*;

use crate::ids::long_text;
use crate::ids::short_text;
use crate::number::after_sign;
use crate::number::all_digits;
use crate::number::byte_size;
use crate::number::decimal;
use crate::number::decimal_value;
use crate::number::digit;
use crate::number::digits;
use crate::number::float_quotient;
use crate::number::half_even;
use crate::number::hexadecimal;
use crate::number::integer_of;
use crate::number::parameter_size;
use crate::number::round53;
use crate::number::rounded;
use crate::number::signed_decimal;

verus! {

// ---------------------------------------------------------------------------
// Digits

/// The number that a digit stands for, from `0` to `f`.
pub open spec fn place(c: char) -> int {
    if '0' <= c <= '9' {
        c as int - '0' as int
    } else if 'a' <= c <= 'f' {
        c as int - 'a' as int + 10
    } else {
        -1
    }
}

/// Digits of the given base, at least one.
pub open spec fn are_digits(s: Seq<char>, base: int) -> bool {
    s.len() > 0 && forall|i: int| 0 <= i < s.len() ==> 0 <= place(#[trigger] s[i]) < base
}

/// The number that digits of the given base stand for.
pub open spec fn reading(s: Seq<char>, base: int) -> int
    decreases s.len(),
{
    if s.len() == 0 {
        0
    } else {
        reading(s.drop_last(), base) * base + place(s.last())
    }
}

proof fn lemma_digit(d: int)
    requires
        0 <= d < 16,
    ensures
        place(digit(d)) == d,
{
}

/// A number is written with the digits that stand for it, without a zero in front.
pub proof fn law_digits_stand_for_number(n: nat, base: nat)
    requires
        2 <= base <= 16,
    ensures
        are_digits(digits(n, base), base as int),
        reading(digits(n, base), base as int) == n,
        n > 0 ==> digits(n, base)[0] != '0',
        n == 0 ==> digits(n, base) == seq!['0'],
    decreases n,
{
    let s = digits(n, base);
    if n < base {
        lemma_digit(n as int);
        assert(s.drop_last() =~= Seq::empty());
        assert(reading(s.drop_last(), base as int) == 0);
        assert(0 * base as int == 0);
    } else {
        let q = n / base;
        let r = n % base;
        assert(0 < q < n && 0 <= r < base && q * base + r == n) by (nonlinear_arith)
            requires
                n >= base,
                base >= 2,
                q == n / base,
                r == n % base,
        ;
        law_digits_stand_for_number(q, base);
        lemma_digit(r as int);
        let t = digits(q, base);
        assert(s.drop_last() =~= t);
        assert(s[0] == t[0]);
        assert forall|i: int| 0 <= i < s.len() implies 0 <= place(#[trigger] s[i]) < base by {
            if i < t.len() {
                assert(s[i] == t[i]);
            }
        }
        assert(reading(t, base as int) * base as int == q * base);
    }
}

/// In decimal the digits are those of base ten, in hexadecimal those of base sixteen.
pub proof fn law_bases(n: nat)
    ensures
        are_digits(decimal(n), 10) && reading(decimal(n), 10) == n,
        are_digits(hexadecimal(n), 16) && reading(hexadecimal(n), 16) == n,
        n > 0 ==> decimal(n)[0] != '0' && hexadecimal(n)[0] != '0',
{
    law_digits_stand_for_number(n, 10);
    law_digits_stand_for_number(n, 16);
}

/// A short identifier has eight hexadecimal digits, which stand for the nanoseconds
/// within the second.
pub proof fn law_short_identifier(nanos: nat)
    ensures
        short_text(nanos).len() == 8,
        are_digits(short_text(nanos), 16),
        reading(short_text(nanos), 16) == nanos % 1_000_000_000,
{
    let n = nanos % 1_000_000_000;
    let s = hexadecimal(n);
    law_bases(n);
    lemma_size(s, n as int);
    lemma_zeros((8 - s.len()) as nat, s);
    let zeros = Seq::new((8 - s.len()) as nat, |i: int| '0');
    assert(short_text(nanos) =~= zeros + s);
}

/// A number with a first digit other than zero is as large as its digits are many.
proof fn lemma_size(s: Seq<char>, n: int)
    requires
        are_digits(s, 16),
        reading(s, 16) == n,
        0 <= n < 1_000_000_000,
        s[0] != '0' || s.len() == 1,
    ensures
        s.len() <= 8,
{
    if s.len() > 8 {
        assert(place(s[0]) >= 1);
        lemma_grows(s);
        assert(power(s.len() as int - 1) >= 4294967296) by {
            lemma_power(s.len() as int - 1);
        }
    }
}

spec fn power(n: int) -> int
    decreases n,
{
    if n <= 0 {
        1
    } else {
        16 * power(n - 1)
    }
}

proof fn lemma_power(n: int)
    requires
        n >= 8,
    ensures
        power(n) >= 4294967296,
    decreases n,
{
    reveal_with_fuel(power, 10);
    if n > 8 {
        lemma_power(n - 1);
    }
}

proof fn lemma_grows(s: Seq<char>)
    requires
        are_digits(s, 16),
        place(s[0]) >= 1,
    ensures
        reading(s, 16) >= power(s.len() as int - 1),
    decreases s.len(),
{
    let t = s.drop_last();
    assert(0 <= place(s[s.len() - 1]));
    if s.len() == 1 {
        assert(reading(t, 16) == 0);
    } else {
        assert forall|i: int| 0 <= i < t.len() implies 0 <= place(#[trigger] t[i]) < 16 by {
            assert(t[i] == s[i]);
        }
        lemma_grows(t);
    }
}

proof fn lemma_zeros(k: nat, s: Seq<char>)
    requires
        are_digits(s, 16),
    ensures
        are_digits(Seq::new(k, |i: int| '0') + s, 16),
        reading(Seq::new(k, |i: int| '0') + s, 16) == reading(s, 16),
{
    let zeros = Seq::new(k, |i: int| '0');
    let all = zeros + s;
    assert forall|i: int| 0 <= i < all.len() implies 0 <= place(#[trigger] all[i]) < 16 by {
        if i >= k {
            assert(all[i] == s[i - k]);
        }
    }
    lemma_zeros_read(k, s);
}

proof fn lemma_zeros_read(k: nat, s: Seq<char>)
    ensures
        reading(Seq::new(k, |i: int| '0') + s, 16) == reading(s, 16),
    decreases k + s.len(),
{
    let zeros = Seq::new(k, |i: int| '0');
    let all = zeros + s;
    if s.len() > 0 {
        assert(all.drop_last() =~= zeros + s.drop_last());
        lemma_zeros_read(k, s.drop_last());
    } else if k > 0 {
        let fewer = Seq::new((k - 1) as nat, |i: int| '0');
        assert(all.drop_last() =~= fewer + s);
        lemma_zeros_read((k - 1) as nat, s);
    } else {
        assert(all =~= s);
    }
}

/// A long identifier is the number of nanoseconds in hexadecimal digits.
pub proof fn law_long_identifier(nanos: nat)
    ensures
        are_digits(long_text(nanos), 16),
        reading(long_text(nanos), 16) == nanos,
{
    law_bases(nanos);
}

// ---------------------------------------------------------------------------
// Reading integers

proof fn lemma_same_reading(s: Seq<char>)
    ensures
        all_digits(s) <==> s.len() == 0 || are_digits(s, 10),
        all_digits(s) ==> decimal_value(s) == reading(s, 10) && reading(s, 10) >= 0,
    decreases s.len(),
{
    if s.len() > 0 {
        let t = s.drop_last();
        lemma_same_reading(t);
        if all_digits(s) {
            assert forall|i: int| 0 <= i < s.len() implies 0 <= place(#[trigger] s[i]) < 10 by {
                assert('0' <= s[i] <= '9');
            }
            assert forall|i: int| 0 <= i < t.len() implies '0' <= #[trigger] t[i] <= '9' by {
                assert(t[i] == s[i]);
            }
            assert('0' <= s[s.len() - 1] <= '9');
        }
        if are_digits(s, 10) {
            assert forall|i: int| 0 <= i < s.len() implies '0' <= #[trigger] s[i] <= '9' by {
                assert(0 <= place(s[i]) < 10);
            }
        }
    }
}

/// Decimal digits are read as the number that they stand for, negative behind a minus
/// sign, if it fits in 64 bits.
pub proof fn law_integers_are_read(s: Seq<char>)
    requires
        are_digits(s, 10),
    ensures
        ({
            let n = reading(s, 10);
            let least = -9223372036854775808int;
            let most = 9223372036854775807int;
            &&& integer_of(s) == if n <= most { Some(n) } else { None::<int> }
            &&& integer_of(seq!['+'] + s) == if n <= most { Some(n) } else { None::<int> }
            &&& integer_of(seq!['-'] + s) == if least <= -n { Some(-n) } else { None::<int> }
        }),
{
    lemma_same_reading(s);
    assert(0 <= place(s[0]) < 10);
    let plus = seq!['+'] + s;
    let minus = seq!['-'] + s;
    assert(plus.skip(1) =~= s);
    assert(minus.skip(1) =~= s);
    assert(plus[0] == '+' && minus[0] == '-');
    assert(after_sign(s) == s);
}

/// Nothing but decimal digits, with or without a sign in front, is read as a number.
pub proof fn law_only_integers_are_read(s: Seq<char>)
    requires
        integer_of(s) is Some,
    ensures
        are_digits(s, 10) || ((s[0] == '+' || s[0] == '-') && are_digits(s.skip(1), 10)),
{
    lemma_same_reading(after_sign(s));
}

/// A number of 64 bits is read back from what is written of it.
pub proof fn law_written_integer_is_read_back(n: i64)
    ensures
        integer_of(signed_decimal(n as int)) == Some(n as int),
{
    if n < 0 {
        law_bases((-n) as nat);
        law_integers_are_read(decimal((-n) as nat));
    } else {
        law_bases(n as nat);
        law_integers_are_read(decimal(n as nat));
    }
}

// ---------------------------------------------------------------------------
// Rounded sizes

/// How far two numbers are apart.
pub open spec fn distance(a: int, b: int) -> int {
    if a < b {
        b - a
    } else {
        a - b
    }
}

/// `t` is `factor * n / d` but for half a unit and for what a 64-bit float loses.
pub open spec fn is_near(t: nat, n: nat, d: nat, factor: nat) -> bool {
    9007199254740992 * distance((t * d) as int, (factor * n) as int) <= 4503599627370496 * d + 3 * (
    factor * n)
}

/// Rounding gives the nearest integer.
proof fn lemma_half_even(n: nat, d: nat)
    requires
        d > 0,
    ensures
        2 * distance((half_even(n, d) * d) as int, n as int) <= d,
{
    let q = n / d;
    let r = n % d;
    assert(q * d + r == n && 0 <= r < d) by (nonlinear_arith)
        requires
            d > 0,
            q == n / d,
            r == n % d,
    ;
    assert((q + 1) * d == q * d + d) by (nonlinear_arith);
}

proof fn lemma_round53(n: nat, unit: nat)
    requires
        unit >= 1,
        unit == 1 || n >= 4503599627370496 * unit,
    ensures
        9007199254740992 * distance(round53(n, unit) as int, n as int) <= n,
    decreases n - 4503599627370496 * unit,
{
    if n < 9007199254740992 * unit {
        lemma_half_even(n, unit);
        if unit == 1 {
            assert(half_even(n, 1) == n);
        }
    } else {
        lemma_round53(n, 2 * unit);
    }
}

proof fn lemma_float_quotient(n: nat, d: nat, scale: nat, start: nat)
    requires
        n > 0,
        d > 0,
        scale > 0,
        n == start * scale,
    ensures
        ({
            let (m, s) = float_quotient(n, d, scale);
            s > 0 && 9007199254740992 * distance((m * d) as int, (start * s) as int) <= start * s
        }),
    decreases d * 9007199254740992 - n,
{
    if n >= d * 4503599627370496 {
        lemma_half_even(n, d);
    } else {
        assert(start * (2 * scale) == 2 * (start * scale)) by (nonlinear_arith);
        lemma_float_quotient(2 * n, d, 2 * scale, start);
    }
}

proof fn lemma_times(a: int, b: int, c: int)
    requires
        c >= 0,
    ensures
        distance(a * c, b * c) == distance(a, b) * c,
        a * c == c * a,
{
    if a < b {
        assert(a * c <= b * c && (b - a) * c == b * c - a * c) by (nonlinear_arith)
            requires
                a < b,
                c >= 0,
        ;
    } else {
        assert(b * c <= a * c && (a - b) * c == a * c - b * c) by (nonlinear_arith)
            requires
                a >= b,
                c >= 0,
        ;
    }
    assert(a * c == c * a) by (nonlinear_arith);
}

proof fn lemma_rounded(n: nat, d: nat, factor: nat)
    requires
        n > 0,
        d > 0,
    ensures
        is_near(rounded(n, d, factor), n, d, factor),
{
    let x = round53(n, 1);
    lemma_round53(n, 1);
    assert(x > 0);
    let (m, s) = float_quotient(x, d, 1);
    lemma_float_quotient(x, d, 1, x);
    let t = half_even(m * factor, s);
    lemma_half_even(m * factor, s);
    let f = factor as int;
    let big = 9007199254740992int;
    // Each distance, brought to the common unit.
    lemma_times((t * s) as int, (m * factor) as int, d as int);
    lemma_times((m * d) as int, (x * s) as int, f);
    lemma_times(x as int, n as int, f * s);
    let e1 = distance((t * s) as int, (m * factor) as int);
    let e2 = distance((m * d) as int, (x * s) as int);
    let e3 = distance(x as int, n as int);
    assert(f * s >= 0) by (nonlinear_arith)
        requires
            f >= 0,
            s >= 0,
    ;
    assert(2 * (e1 * d) <= s * d) by (nonlinear_arith)
        requires
            2 * e1 <= s,
            d > 0,
    ;
    assert(big * (e2 * f) <= x * s * f) by (nonlinear_arith)
        requires
            big * e2 <= x * s,
            f >= 0,
    ;
    assert(big * (e3 * (f * s)) <= n * (f * s)) by (nonlinear_arith)
        requires
            big * e3 <= n,
            f * s >= 0,
    ;
    assert(x * s * f <= 2 * (n * (f * s))) by (nonlinear_arith)
        requires
            x <= 2 * n,
            f >= 0,
            s > 0,
    ;
    let goal = distance((t * d) as int, (factor * n) as int);
    lemma_times((t * d) as int, (factor * n) as int, s as int);
    assert((t * s) * d == (t * d) * s) by (nonlinear_arith);
    assert((m * factor) * d == (m * d) * f) by (nonlinear_arith)
        requires
            f == factor,
    ;
    assert((x * s) * f == x * (f * s)) by (nonlinear_arith);
    assert(n * (f * s) == (factor * n) * s) by (nonlinear_arith)
        requires
            f == factor,
    ;
    assert(goal * s <= e1 * d + e2 * f + e3 * (f * s));
    let bound = 4503599627370496 * d + 3 * (factor * n);
    assert(bound * s == 4503599627370496 * (s * d) + 3 * ((factor * n) * s)) by (nonlinear_arith)
        requires
            bound == 4503599627370496 * d + 3 * (factor * n),
    ;
    assert(big * (goal * s) <= bound * s);
    assert(big * goal <= bound) by (nonlinear_arith)
        requires
            big * (goal * s) <= bound * s,
            s > 0,
    ;
}

/// A count of parameters is written in billions with one decimal, in millions without
/// one, or as it is, whichever is the first that it is large enough for.
pub proof fn law_parameter_size(n: nat)
    ensures
        n >= 1_000_000_000 ==> exists|t: nat| #[trigger]
            is_near(t, n, 1_000_000_000, 10) && parameter_size(n) == decimal(t / 10) + seq!['.']
                + decimal(t % 10) + seq!['B'],
        1_000_000 <= n < 1_000_000_000 ==> exists|t: nat| #[trigger]
            is_near(t, n, 1_000_000, 1) && parameter_size(n) == decimal(t) + seq!['M'],
        n < 1_000_000 ==> parameter_size(n) == decimal(n),
{
    if n >= 1_000_000_000 {
        lemma_rounded(n, 1_000_000_000, 10);
        let t = rounded(n, 1_000_000_000, 10);
        assert(is_near(t, n, 1_000_000_000, 10));
    } else if n >= 1_000_000 {
        lemma_rounded(n, 1_000_000, 1);
        let t = rounded(n, 1_000_000, 1);
        assert(is_near(t, n, 1_000_000, 1));
    }
}

/// A number of bytes is written in gigabytes of 1024 megabytes with one decimal, in
/// megabytes of 1024 * 1024 bytes without one, or as it is, whichever is the first that
/// it is large enough for.
pub proof fn law_byte_size(n: nat)
    ensures
        n >= 1_073_741_824 ==> exists|t: nat| #[trigger]
            is_near(t, n, 1_073_741_824, 10) && byte_size(n) == decimal(t / 10) + seq!['.']
                + decimal(t % 10) + seq![' ', 'G', 'B'],
        1_048_576 <= n < 1_073_741_824 ==> exists|t: nat| #[trigger]
            is_near(t, n, 1_048_576, 1) && byte_size(n) == decimal(t) + seq![' ', 'M', 'B'],
        n < 1_048_576 ==> byte_size(n) == decimal(n) + seq![' ', 'B'],
{
    reveal_strlit(" GB");
    reveal_strlit(" MB");
    reveal_strlit(" B");
    assert(" GB"@ =~= seq![' ', 'G', 'B']);
    assert(" MB"@ =~= seq![' ', 'M', 'B']);
    assert(" B"@ =~= seq![' ', 'B']);
    if n >= 1_073_741_824 {
        lemma_rounded(n, 1_073_741_824, 10);
        let t = rounded(n, 1_073_741_824, 10);
        assert(is_near(t, n, 1_073_741_824, 10));
    } else if n >= 1_048_576 {
        lemma_rounded(n, 1_048_576, 1);
        let t = rounded(n, 1_048_576, 1);
        assert(is_near(t, n, 1_048_576, 1));
    }
}

} // verus!

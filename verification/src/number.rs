//! Numbers as text: decimal and hexadecimal digits, parsing, and sizes rounded
//! for display.

use vstd::prelude::*;

use crate::text::chars_of;
use crate::text::push_all;
use crate::text::string_of;

verus! {

// ---------------------------------------------------------------------------
// Digits

/// The character of a digit below 16.
pub open spec fn digit(d: int) -> char {
    if d < 10 {
        (48 + d) as char
    } else {
        (87 + d) as char
    }
}

/// The digits of `n` in the given base.
pub open spec fn digits(n: nat, base: nat) -> Seq<char>
    decreases n,
{
    if base < 2 || n < base {
        seq![digit(n as int)]
    } else {
        proof {
            assert(n / base < n) by (nonlinear_arith)
                requires
                    n >= base,
                    base >= 2,
            ;
        }
        digits(n / base, base).push(digit((n % base) as int))
    }
}

/// `n` in decimal.
pub open spec fn decimal(n: nat) -> Seq<char> {
    digits(n, 10)
}

/// `n` in hexadecimal.
pub open spec fn hexadecimal(n: nat) -> Seq<char> {
    digits(n, 16)
}

/// `n` in decimal, with a minus sign in front of a negative number.
pub open spec fn signed_decimal(n: int) -> Seq<char> {
    if n < 0 {
        seq!['-'] + decimal((-n) as nat)
    } else {
        decimal(n as nat)
    }
}

/// `s` with `fill` put in front until it is `width` characters long.
pub open spec fn pad_left(s: Seq<char>, fill: char, width: nat) -> Seq<char> {
    if s.len() >= width {
        s
    } else {
        Seq::new((width - s.len()) as nat, |i: int| fill) + s
    }
}

/// The character of a digit below 16.
fn digit_char(d: u8) -> (r: char)
    requires
        d < 16,
    ensures
        r == digit(d as int),
{
    if d < 10 {
        (48 + d) as char
    } else {
        (87 + d) as char
    }
}

/// Appends the digits of `n`.
pub fn push_digits(out: &mut Vec<char>, n: u128, base: u8)
    requires
        2 <= base <= 16,
    ensures
        final(out)@ == old(out)@ + digits(n as nat, base as nat),
    decreases n,
{
    if n >= base as u128 {
        proof {
            assert(n / (base as u128) < n) by (nonlinear_arith)
                requires
                    n >= base,
                    base >= 2,
            ;
        }
        push_digits(out, n / (base as u128), base);
    }
    let last: u8 = (n % (base as u128)) as u8;
    out.push(digit_char(last));
    proof {
        if n < base {
            assert(n % (base as u128) == n) by (nonlinear_arith)
                requires
                    n < base,
            ;
        }
        assert(out@ =~= old(out)@ + digits(n as nat, base as nat));
    }
}

/// `n` in decimal.
pub fn decimal_of(n: u128) -> (r: Vec<char>)
    ensures
        r@ == decimal(n as nat),
{
    let mut out: Vec<char> = Vec::new();
    push_digits(&mut out, n, 10);
    proof {
        assert(out@ =~= decimal(n as nat));
    }
    out
}

/// `n` in hexadecimal.
pub fn hexadecimal_of(n: u128) -> (r: Vec<char>)
    ensures
        r@ == hexadecimal(n as nat),
{
    let mut out: Vec<char> = Vec::new();
    push_digits(&mut out, n, 16);
    proof {
        assert(out@ =~= hexadecimal(n as nat));
    }
    out
}

/// The text with `fill` put in front until it is `width` characters long.
pub fn padded_left(s: &[char], fill: char, width: usize) -> (r: Vec<char>)
    ensures
        r@ == pad_left(s@, fill, width as nat),
{
    let mut out: Vec<char> = Vec::new();
    let n: usize = s.len();
    let mut i: usize = n;
    while i < width
        invariant
            n == s@.len(),
            n <= i,
            i <= width || width < n,
            i <= width ==> out@ == Seq::new((i - n) as nat, |k: int| fill),
            width < n ==> out@.len() == 0,
        decreases width - i,
    {
        out.push(fill);
        proof {
            assert(out@ =~= Seq::new((i + 1 - n) as nat, |k: int| fill));
        }
        i = i + 1;
    }
    push_all(&mut out, s);
    proof {
        assert(out@ =~= pad_left(s@, fill, width as nat));
    }
    out
}

// ---------------------------------------------------------------------------
// Reading integers

/// Every character is a decimal digit.
pub open spec fn all_digits(s: Seq<char>) -> bool {
    forall|i: int| 0 <= i < s.len() ==> '0' <= #[trigger] s[i] <= '9'
}

/// The number that decimal digits stand for.
pub open spec fn decimal_value(s: Seq<char>) -> int
    decreases s.len(),
{
    if s.len() == 0 {
        0
    } else {
        decimal_value(s.drop_last()) * 10 + (s.last() as int - 48)
    }
}

/// The digits after an optional sign.
pub open spec fn after_sign(s: Seq<char>) -> Seq<char> {
    if s.len() > 0 && (s[0] == '+' || s[0] == '-') {
        s.skip(1)
    } else {
        s
    }
}

/// The number that a text stands for: an optional sign and digits, if it fits
/// in 64 bits.
pub open spec fn integer_of(s: Seq<char>) -> Option<int> {
    let body = after_sign(s);
    let size = decimal_value(body);
    let value = if s.len() > 0 && s[0] == '-' { -size } else { size };
    if body.len() > 0 && all_digits(body) && i64::MIN <= value <= i64::MAX {
        Some(value)
    } else {
        None
    }
}

pub(crate) proof fn lemma_decimal_value_nonnegative(s: Seq<char>)
    requires
        all_digits(s),
    ensures
        0 <= decimal_value(s),
    decreases s.len(),
{
    if s.len() > 0 {
        assert(all_digits(s.drop_last()));
        lemma_decimal_value_nonnegative(s.drop_last());
    }
}

/// Reads a 64-bit integer.
pub fn parse_integer(s: &[char]) -> (r: Option<i64>)
    ensures
        match r {
            Some(v) => integer_of(s@) == Some(v as int),
            None => integer_of(s@) is None,
        },
{
    let n: usize = s.len();
    let signed: bool = n > 0 && (s[0] == '+' || s[0] == '-');
    let negative: bool = n > 0 && s[0] == '-';
    let start: usize = if signed { 1 } else { 0 };
    let ghost body = after_sign(s@);
    proof {
        assert(body =~= s@.skip(start as int));
    }
    if start == n {
        return None;
    }
    let mut i: usize = start;
    let mut size: u128 = 0;
    let mut large: bool = false;
    proof {
        assert(body.take(0) =~= Seq::<char>::empty());
    }
    while i < n
        invariant
            n == s@.len(),
            start <= i <= n,
            body == s@.skip(start as int),
            body == after_sign(s@),
            all_digits(body.take(i - start)),
            !large ==> size == decimal_value(body.take(i - start)),
            large ==> decimal_value(body.take(i - start)) > 9223372036854775808,
            size <= 9223372036854775808 || large,
        decreases n - i,
    {
        let c = s[i];
        let ghost now = body.take(i - start);
        let ghost next = body.take(i + 1 - start);
        proof {
            assert(next.drop_last() =~= now);
            assert(next.last() == c);
        }
        if c < '0' || '9' < c {
            proof {
                assert(body[i - start] == c);
                assert(!all_digits(body));
            }
            return None;
        }
        let d: u128 = (c as u32 - 48) as u128;
        if !large {
            size = size * 10 + d;
            if size > 9223372036854775808 {
                large = true;
            }
        }
        proof {
            lemma_decimal_value_nonnegative(now);
            assert forall|k: int| 0 <= k < next.len() implies '0' <= #[trigger] next[k] <= '9' by {
                if k < now.len() {
                    assert(next[k] == now[k]);
                }
            }
        }
        i = i + 1;
    }
    proof {
        assert(body.take(n - start) =~= body);
    }
    if large {
        return None;
    }
    if negative {
        if size == 9223372036854775808 {
            Some(i64::MIN)
        } else {
            Some(-(size as i64))
        }
    } else if size <= 9223372036854775807 {
        Some(size as i64)
    } else {
        None
    }
}

// ---------------------------------------------------------------------------
// Rounded sizes

/// `n / d` rounded to the nearest integer, halves to the even one.
pub open spec fn half_even(n: nat, d: nat) -> nat {
    let q = n / d;
    let r = n % d;
    if 2 * r < d || (2 * r == d && q % 2 == 0) {
        q
    } else {
        q + 1
    }
}

/// `n` rounded to 53 significant bits, the precision of a 64-bit float; `unit`
/// is the power of two from which the search for the last bit starts.
pub open spec fn round53(n: nat, unit: nat) -> nat
    decreases n - 4503599627370496 * unit,
{
    if unit == 0 || n < 9007199254740992 * unit {
        half_even(n, unit) * unit
    } else {
        round53(n, 2 * unit)
    }
}

/// The 64-bit float nearest to `n / (d * scale)`, for `n` not below `d`: the
/// pair of an integer of 53 bits and of the power of two that divides it.
pub open spec fn float_quotient(n: nat, d: nat, scale: nat) -> (nat, nat)
    decreases d * 9007199254740992 - n,
{
    if n == 0 || n >= d * 4503599627370496 {
        (half_even(n, d), scale)
    } else {
        float_quotient(2 * n, d, 2 * scale)
    }
}

/// `n / d` as a 64-bit float, times `factor`, rounded to the nearest integer
/// with halves to the even one: what formatting with a fixed number of decimals
/// shows of it.
pub open spec fn rounded(n: nat, d: nat, factor: nat) -> nat {
    let q = float_quotient(round53(n, 1), d, 1);
    half_even(q.0 * factor, q.1)
}

/// `n / d` with one decimal.
pub open spec fn one_decimal(n: nat, d: nat) -> Seq<char> {
    let tenths = rounded(n, d, 10);
    decimal(tenths / 10) + seq!['.'] + decimal(tenths % 10)
}

/// `n / d` without decimals.
pub open spec fn no_decimal(n: nat, d: nat) -> Seq<char> {
    decimal(rounded(n, d, 1))
}

/// A count of parameters, in billions or millions where it is that large.
pub open spec fn parameter_size(n: nat) -> Seq<char> {
    if n >= 1_000_000_000 {
        one_decimal(n, 1_000_000_000) + seq!['B']
    } else if n >= 1_000_000 {
        no_decimal(n, 1_000_000) + seq!['M']
    } else {
        decimal(n)
    }
}

/// A number of bytes, in gigabytes or megabytes where it is that large.
pub open spec fn byte_size(n: nat) -> Seq<char> {
    if n >= 1_073_741_824 {
        one_decimal(n, 1_073_741_824) + " GB"@
    } else if n >= 1_048_576 {
        no_decimal(n, 1_048_576) + " MB"@
    } else {
        decimal(n) + " B"@
    }
}

/// `n / d` rounded to the nearest integer, halves to the even one.
fn divide_half_even(n: u128, d: u128) -> (r: u128)
    requires
        0 < d < 0x1_0000_0000_0000_0000_0000_0000,
        n < 0x1_0000_0000_0000_0000_0000_0000,
    ensures
        r == half_even(n as nat, d as nat),
        r <= n + 1,
{
    let q: u128 = n / d;
    let m: u128 = n % d;
    proof {
        assert(q <= n) by (nonlinear_arith)
            requires
                q == n / d,
                d > 0,
        ;
    }
    if 2 * m < d || (2 * m == d && q % 2 == 0) {
        q
    } else {
        q + 1
    }
}

/// `n` rounded to 53 significant bits.
fn to_53_bits(n: u64) -> (r: u128)
    ensures
        r == round53(n as nat, 1),
        r <= 0x4_0000_0000_0000_0000,
        n > 0 ==> r > 0,
{
    let mut unit: u128 = 1;
    while n as u128 >= 9007199254740992 * unit
        invariant
            1 <= unit <= 4096,
            round53(n as nat, 1) == round53(n as nat, unit as nat),
            unit > 1 ==> n >= 4503599627370496 * unit,
        decreases n - 4503599627370496 * unit,
    {
        unit = 2 * unit;
    }
    let q: u128 = divide_half_even(n as u128, unit);
    proof {
        let whole = n as u128 / unit;
        assert(q <= whole + 1);
        assert(whole <= 9007199254740992) by (nonlinear_arith)
            requires
                whole == n as u128 / unit,
                n < 9007199254740992 * unit,
                unit > 0,
        ;
        assert(q * unit <= 9007199254740993 * 4096) by (nonlinear_arith)
            requires
                q <= 9007199254740993,
                unit <= 4096,
        ;
        if n > 0 {
            if unit == 1 {
                assert(q == n);
            } else {
                assert(whole >= 1) by (nonlinear_arith)
                    requires
                        whole == n as u128 / unit,
                        n >= 4503599627370496 * unit,
                        unit > 0,
                ;
            }
            assert(q * unit > 0) by (nonlinear_arith)
                requires
                    q >= 1,
                    unit >= 1,
            ;
        }
    }
    q * unit
}

/// `n / d` as a 64-bit float, times `factor`, rounded to the nearest integer.
fn rounded_of(n: u64, d: u64, factor: u64) -> (r: u128)
    requires
        0 < d <= 1_073_741_824,
        d <= n,
        1 <= factor <= 10,
    ensures
        r == rounded(n as nat, d as nat, factor as nat),
{
    let start: u128 = to_53_bits(n);
    let unit: u128 = d as u128;
    let goal: u128 = unit * 4503599627370496;
    let mut top: u128 = start;
    let mut scale: u128 = 1;
    while top < goal
        invariant
            0 < unit <= 1_073_741_824,
            goal == unit * 4503599627370496,
            0 < scale <= top,
            top < 2 * goal || top <= 0x4_0000_0000_0000_0000,
            float_quotient(start as nat, unit as nat, 1) == float_quotient(
                top as nat,
                unit as nat,
                scale as nat,
            ),
        decreases 2 * goal - top,
    {
        top = 2 * top;
        scale = 2 * scale;
    }
    let q: u128 = divide_half_even(top, unit);
    proof {
        assert(q * factor <= 0x4000_0000_0000_0000_0000_0000 && q * factor >= 0) by (nonlinear_arith)
            requires
                0 <= q <= 0x200_0000_0000_0000_0000_0000,
                1 <= factor <= 10,
        ;
    }
    divide_half_even(q * (factor as u128), scale)
}

/// `n / d` with one decimal.
fn push_one_decimal(out: &mut Vec<char>, n: u64, d: u64)
    requires
        0 < d <= 1_073_741_824,
        d <= n,
    ensures
        final(out)@ == old(out)@ + one_decimal(n as nat, d as nat),
{
    let tenths: u128 = rounded_of(n, d, 10);
    push_digits(out, tenths / 10, 10);
    out.push('.');
    push_digits(out, tenths % 10, 10);
    proof {
        assert(out@ =~= old(out)@ + one_decimal(n as nat, d as nat));
    }
}

/// A count of parameters for display: `24.0B`, `500M` or the number itself.
pub fn format_parameter_size(params: u64) -> (r: String)
    ensures
        r@ == parameter_size(params as nat),
{
    let mut out: Vec<char> = Vec::new();
    if params >= 1_000_000_000 {
        push_one_decimal(&mut out, params, 1_000_000_000);
        out.push('B');
    } else if params >= 1_000_000 {
        push_digits(&mut out, rounded_of(params, 1_000_000, 1), 10);
        out.push('M');
    } else {
        push_digits(&mut out, params as u128, 10);
    }
    proof {
        assert(out@ =~= parameter_size(params as nat));
    }
    string_of(out.as_slice())
}

/// A number of bytes for display: `1.5 GB`, `20 MB` or `17 B`.
pub fn format_bytes(bytes: u64) -> (r: String)
    ensures
        r@ == byte_size(bytes as nat),
{
    let mut out: Vec<char> = Vec::new();
    let unit: Vec<char> = if bytes >= 1_073_741_824 {
        push_one_decimal(&mut out, bytes, 1_073_741_824);
        chars_of(" GB")
    } else if bytes >= 1_048_576 {
        push_digits(&mut out, rounded_of(bytes, 1_048_576, 1), 10);
        chars_of(" MB")
    } else {
        push_digits(&mut out, bytes as u128, 10);
        chars_of(" B")
    };
    push_all(&mut out, unit.as_slice());
    proof {
        assert(out@ =~= byte_size(bytes as nat));
    }
    string_of(out.as_slice())
}

} // verus!

//! Numbers as text: reading unsigned integers, writing sizes.

use vstd::prelude::*;

use crate::text;

verus! {

/// Bytes in a kilobyte.
pub const KB: u64 = 1024;

/// Bytes in a megabyte.
pub const MB: u64 = 1048576;

/// Bytes in a gigabyte.
pub const GB: u64 = 1073741824;

/// Whether `c` is a decimal digit.
pub open spec fn is_digit(c: char) -> bool {
    '0' <= c <= '9'
}

/// The number that a row of decimal digits stands for.
pub open spec fn digits_value(s: Seq<char>) -> nat
    decreases s.len(),
{
    if s.len() == 0 {
        0
    } else {
        digits_value(s.drop_last()) * 10 + (s.last() as nat - '0' as nat) as nat
    }
}

/// `s` without one plus sign at its start.
pub open spec fn without_plus(s: Seq<char>) -> Seq<char> {
    if s.len() > 0 && s[0] == '+' {
        s.skip(1)
    } else {
        s
    }
}

/// The number that `s` writes, if it is one or more digits, perhaps behind a plus sign, and is at
/// most `max`.
pub open spec fn parsed(s: Seq<char>, max: nat) -> Option<nat> {
    let digits = without_plus(s);
    if digits.len() > 0 && (forall|i: int| 0 <= i < digits.len() ==> is_digit(#[trigger] digits[i]))
        && digits_value(digits) <= max {
        Some(digits_value(digits))
    } else {
        None
    }
}

/// Further digits never make a number smaller.
proof fn lemma_digits_value_grows(s: Seq<char>, k: int)
    requires
        0 <= k <= s.len(),
    ensures
        digits_value(s.take(k)) <= digits_value(s),
    decreases s.len() - k,
{
    if k < s.len() {
        lemma_digits_value_grows(s, k + 1);
        assert(s.take(k + 1).drop_last() =~= s.take(k));
    } else {
        assert(s.take(k) =~= s);
    }
}

/// Reads an unsigned number that is at most `max`.
pub fn parse_unsigned(s: &[char], max: u64) -> (r: Option<u64>)
    ensures
        match r {
            Some(v) => parsed(s@, max as nat) == Some(v as nat),
            None => parsed(s@, max as nat) is None,
        },
{
    let mut i: usize = 0;
    if s.len() > 0 && s[0] == '+' {
        i = 1;
    }
    if i >= s.len() {
        return None;
    }
    let ghost digits = without_plus(s@);
    let first: usize = i;
    assert(s@.skip(0) =~= s@);
    assert(digits =~= s@.skip(first as int));
    let mut value: u64 = 0;
    while i < s.len()
        invariant
            first <= i <= s.len(),
            first < s.len(),
            digits == without_plus(s@),
            digits == s@.skip(first as int),
            value == digits_value(digits.take(i - first)),
            value <= max,
            forall|k: int| 0 <= k < i - first ==> is_digit(#[trigger] digits[k]),
        decreases s.len() - i,
    {
        let c = s[i];
        assert(digits[i - first] == c);
        if c < '0' || '9' < c {
            return None;
        }
        let d: u64 = (c as u32 - '0' as u32) as u64;
        assert(digits.take(i - first + 1).drop_last() =~= digits.take(i - first));
        let next: u128 = value as u128 * 10 + d as u128;
        assert(next == digits_value(digits.take(i - first + 1)));
        if next > max as u128 {
            proof {
                lemma_digits_value_grows(digits, i - first + 1);
            }
            return None;
        }
        value = next as u64;
        i += 1;
    }
    assert(digits.take(i - first) =~= digits);
    Some(value)
}

/// `s` without its commas.
pub open spec fn without_commas(s: Seq<char>) -> Seq<char> {
    s.filter(|c: char| c != ',')
}

/// Reads a byte count, with or without commas between its digits.
pub fn parse_byte_count(s: &[char]) -> (r: Option<u64>)
    ensures
        match r {
            Some(v) => parsed(without_commas(s@), u64::MAX as nat) == Some(v as nat),
            None => parsed(without_commas(s@), u64::MAX as nat) is None,
        },
{
    let mut kept: Vec<char> = Vec::new();
    let mut i: usize = 0;
    proof {
        reveal(Seq::filter);
        assert(kept@ =~= without_commas(s@.take(0)));
    }
    while i < s.len()
        invariant
            i <= s.len(),
            kept@ == without_commas(s@.take(i as int)),
        decreases s.len() - i,
    {
        proof {
            reveal(Seq::filter);
            assert(s@.take(i + 1).drop_last() =~= s@.take(i as int));
        }
        if s[i] != ',' {
            kept.push(s[i]);
        }
        i += 1;
    }
    assert(s@.take(i as int) =~= s@);
    parse_unsigned(kept.as_slice(), u64::MAX)
}

/// Reads a byte count as rsync prints it: digits, with or without commas between them.
pub fn parse_bytes(s: &str) -> (r: Option<u64>)
    ensures
        match r {
            Some(v) => parsed(without_commas(s@), u64::MAX as nat) == Some(v as nat),
            None => parsed(without_commas(s@), u64::MAX as nat) is None,
        },
{
    parse_byte_count(text::chars_of(s).as_slice())
}

/// The decimal digit for `d`, which is below ten.
pub open spec fn digit(d: nat) -> char {
    ('0' as nat + d) as char
}

/// `n` in decimal digits.
pub open spec fn decimal(n: nat) -> Seq<char>
    decreases n,
{
    if n < 10 {
        seq![digit(n)]
    } else {
        decimal(n / 10).push(digit(n % 10))
    }
}

fn push_digit(out: &mut String, d: u8)
    requires
        d < 10,
    ensures
        final(out)@ == old(out)@.push(digit(d as nat)),
{
    let c: char = (48u8 + d) as char;
    out.push(c);
}

/// Appends `n` in decimal digits.
pub fn push_decimal(out: &mut String, n: u128)
    ensures
        final(out)@ == old(out)@ + decimal(n as nat),
    decreases n,
{
    if n >= 10 {
        push_decimal(out, n / 10);
    }
    push_digit(out, (n % 10) as u8);
}

/// `n / d` to the nearest integer; half way between two, the even one.
pub open spec fn half_even(n: nat, d: nat) -> nat {
    let q = n / d;
    let r = n % d;
    if 2 * r > d || (2 * r == d && q % 2 == 1) {
        q + 1
    } else {
        q
    }
}

/// The step between neighbouring double-precision numbers near `n`: such a number has 53
/// significant bits.
pub open spec fn double_step(n: nat) -> nat
    decreases n,
{
    if n < 0x20_0000_0000_0000 {
        1
    } else {
        2 * double_step(n / 2)
    }
}

/// The double-precision number nearest to `n`.
pub open spec fn nearest_double(n: nat) -> nat {
    half_even(n, double_step(n)) * double_step(n)
}

/// How many hundredths of `unit` are nearest to `bytes`, taken as a double-precision number.
pub open spec fn hundredths(bytes: nat, unit: nat) -> nat {
    half_even(nearest_double(bytes) * 100, unit)
}

/// `bytes` in units of `unit` with two decimals.
pub open spec fn in_units(bytes: nat, unit: nat) -> Seq<char> {
    let n = hundredths(bytes, unit);
    decimal(n / 100) + seq!['.', digit(n / 10 % 10), digit(n % 10)]
}

/// A byte count for people to read: in the largest unit that it fills, with two decimals, or in
/// bytes.
pub open spec fn size_text(bytes: nat) -> Seq<char> {
    if bytes >= GB {
        in_units(bytes, GB as nat) + " GB"@
    } else if bytes >= MB {
        in_units(bytes, MB as nat) + " MB"@
    } else if bytes >= KB {
        in_units(bytes, KB as nat) + " KB"@
    } else {
        decimal(bytes) + " B"@
    }
}

/// `n / d` to the nearest integer; half way between two, the even one.
fn round_half_even(n: u128, d: u64) -> (r: u128)
    requires
        0 < d,
        n < 0x1_0000_0000_0000_0000_0000_0000,
    ensures
        r == half_even(n as nat, d as nat),
{
    let q: u128 = n / d as u128;
    let rest: u128 = n % d as u128;
    if 2 * rest > d as u128 || (2 * rest == d as u128 && q % 2 == 1) {
        q + 1
    } else {
        q
    }
}

/// Rounding to a step of `d` adds less than one step.
proof fn lemma_half_even_bound(n: nat, d: nat)
    requires
        0 < d,
    ensures
        half_even(n, d) * d <= n + d,
        half_even(n, d) <= n / d + 1,
{
    vstd::arithmetic::div_mod::lemma_fundamental_div_mod(n as int, d as int);
    let q = n / d;
    assert(q * d == d * q) by (nonlinear_arith);
    assert((q + 1) * d == q * d + d) by (nonlinear_arith);
}

/// The double-precision number nearest to `n`.
fn to_double(n: u64) -> (r: u128)
    ensures
        r == nearest_double(n as nat),
        r < 0x2_0000_0000_0000_0000,
{
    let mut step: u64 = 1;
    let mut m: u64 = n;
    while m >= 0x20_0000_0000_0000
        invariant
            0 < step <= 0x1000,
            double_step(n as nat) == step * double_step(m as nat),
            step * m <= n,
        decreases m,
    {
        assert(step * 2 * (m / 2) <= step * m) by (nonlinear_arith)
            requires
                m / 2 * 2 <= m,
        ;
        assert(step * (2 * double_step((m / 2) as nat)) == step * 2 * double_step((m / 2) as nat))
            by (nonlinear_arith);
        assert(step <= 0x800) by (nonlinear_arith)
            requires
                step * m <= n,
                m >= 0x20_0000_0000_0000,
                n <= 0xffff_ffff_ffff_ffff,
        ;
        step = step * 2;
        m = m / 2;
    }
    proof {
        let last = double_step(m as nat);
        assert(step * last == step) by (nonlinear_arith)
            requires
                last == 1,
        ;
        lemma_half_even_bound(n as nat, step as nat);
    }
    let k: u128 = round_half_even(n as u128, step);
    assert(k * step <= 0x2_0000_0000_0000_0000 - 1);
    k * step as u128
}

/// Appends `bytes` in units of `unit` with two decimals.
fn push_in_units(out: &mut String, bytes: u64, unit: u64)
    requires
        0 < unit,
    ensures
        final(out)@ == old(out)@ + in_units(bytes as nat, unit as nat),
{
    let double: u128 = to_double(bytes);
    let hundredths: u128 = round_half_even(double * 100, unit);
    push_decimal(out, hundredths / 100);
    out.push('.');
    push_digit(out, (hundredths / 10 % 10) as u8);
    push_digit(out, (hundredths % 10) as u8);
    assert(out@ =~= old(out)@ + in_units(bytes as nat, unit as nat));
}

/// Writes a byte count for people to read.
pub fn format_size(bytes: u64) -> (r: String)
    ensures
        r@ == size_text(bytes as nat),
{
    let mut r = String::new();
    if bytes >= GB {
        push_in_units(&mut r, bytes, GB);
        r.append(" GB");
    } else if bytes >= MB {
        push_in_units(&mut r, bytes, MB);
        r.append(" MB");
    } else if bytes >= KB {
        push_in_units(&mut r, bytes, KB);
        r.append(" KB");
    } else {
        push_decimal(&mut r, bytes as u128);
        r.append(" B");
    }
    assert(r@ =~= size_text(bytes as nat));
    r
}

} // verus!

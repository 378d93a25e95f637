//! How numbers read and written fit together.

use vstd::prelude::*;

use crate::number;

verus! {

proof fn lemma_decimal(n: nat)
    ensures
        number::decimal(n).len() > 0,
        forall|i: int|
            0 <= i < number::decimal(n).len() ==> number::is_digit(
                #[trigger] number::decimal(n)[i],
            ),
        number::digits_value(number::decimal(n)) == n,
    decreases n,
{
    let s = number::decimal(n);
    assert(number::digit(n % 10) as nat == 48 + n % 10);
    if n < 10 {
        assert(s.drop_last() =~= Seq::empty());
        assert(number::digits_value(s.drop_last()) == 0);
    } else {
        lemma_decimal(n / 10);
        assert(s.drop_last() =~= number::decimal(n / 10));
    }
}

/// A written number is made of digits.
pub proof fn law_digits_of_decimal(n: nat)
    ensures
        number::decimal(n).len() > 0,
        forall|i: int|
            0 <= i < number::decimal(n).len() ==> number::is_digit(
                #[trigger] number::decimal(n)[i],
            ),
{
    lemma_decimal(n);
}

/// A written number is read back, if it is not above what may be read.
pub proof fn law_reading_undoes_writing(n: nat, max: nat)
    ensures
        number::parsed(number::decimal(n), max) == if n <= max {
            Some(n)
        } else {
            None
        },
{
    lemma_decimal(n);
    let s = number::decimal(n);
    assert(number::is_digit(s[0]));
    assert(number::without_plus(s) == s);
}

/// One comma more or less, wherever it stands, changes no byte count.
pub proof fn law_commas_do_not_count(a: Seq<char>, b: Seq<char>)
    ensures
        number::without_commas(a + seq![','] + b) == number::without_commas(a + b),
{
    let keep = |c: char| c != ',';
    Seq::filter_distributes_over_add(a + seq![','], b, keep);
    Seq::filter_distributes_over_add(a, seq![','], keep);
    Seq::filter_distributes_over_add(a, b, keep);
    reveal(Seq::filter);
    assert(seq![','].drop_last().filter(keep) =~= Seq::empty());
    assert(seq![','].filter(keep) =~= Seq::empty());
    assert(a.filter(keep) + Seq::empty() =~= a.filter(keep));
}

/// Numbers below two to the power of 53 are double-precision numbers.
pub proof fn law_small_counts_are_exact(n: nat)
    requires
        n < 0x20_0000_0000_0000,
    ensures
        number::nearest_double(n) == n,
{
    assert(number::double_step(n) == 1);
    assert(n / 1 == n && n % 1 == 0);
}

/// Rounding is off by at most half a step.
proof fn lemma_half_even_near(n: nat, d: nat)
    requires
        0 < d,
    ensures
        2 * (number::half_even(n, d) * d) <= 2 * n + d,
        2 * n <= 2 * (number::half_even(n, d) * d) + d,
        number::half_even(n, d) >= n / d,
{
    vstd::arithmetic::div_mod::lemma_fundamental_div_mod(n as int, d as int);
    vstd::arithmetic::div_mod::lemma_mod_bound(n as int, d as int);
    let q = n / d;
    assert(q * d == d * q) by (nonlinear_arith);
    assert((q + 1) * d == q * d + d) by (nonlinear_arith);
}

/// What is shown of a count below two to the power of 53 is off by at most half a hundredth of the
/// unit, and it is at least one unit if the count is.
pub proof fn law_shown_size_is_near(bytes: nat, unit: nat)
    requires
        bytes < 0x20_0000_0000_0000,
        0 < unit,
    ensures
        2 * (number::hundredths(bytes, unit) * unit) <= 200 * bytes + unit,
        200 * bytes <= 2 * (number::hundredths(bytes, unit) * unit) + unit,
        bytes >= unit ==> number::hundredths(bytes, unit) >= 100,
{
    law_small_counts_are_exact(bytes);
    lemma_half_even_near(bytes * 100, unit);
    if bytes >= unit {
        assert((bytes * 100) / unit >= 100) by (nonlinear_arith)
            requires
                bytes >= unit,
                0 < unit,
        ;
    }
}

/// Numbers are written in decimal: the last digit is what is left over by tens, and the others write
/// the tens.
pub proof fn law_decimal_digits(tens: nat, units: nat)
    requires
        units < 10,
    ensures
        number::digit(units) as nat == 48 + units,
        number::decimal(units) == seq![number::digit(units)],
        tens > 0 ==> number::decimal(10 * tens + units) == number::decimal(tens).push(
            number::digit(units),
        ),
{
    let n = 10 * tens + units;
    assert(n / 10 == tens);
    assert(n % 10 == units);
}

/// `n` zeros.
pub open spec fn zeros(n: nat) -> Seq<char> {
    Seq::new(n, |i: int| '0')
}

proof fn lemma_zeros_do_not_count(k: nat, s: Seq<char>)
    ensures
        number::digits_value(zeros(k) + s) == number::digits_value(s),
    decreases s.len(), k,
{
    let all = zeros(k) + s;
    if s.len() > 0 {
        lemma_zeros_do_not_count(k, s.drop_last());
        assert(all.drop_last() =~= zeros(k) + s.drop_last());
    } else if k > 0 {
        lemma_zeros_do_not_count((k - 1) as nat, s);
        assert(all.drop_last() =~= zeros((k - 1) as nat) + s);
    } else {
        assert(all =~= s);
    }
}

/// Zeros before a number, and a plus sign before those, change nothing of what is read.
pub proof fn law_zeros_and_plus_do_not_count(k: nat, n: nat, max: nat)
    ensures
        ({
            let read = if n <= max {
                Some(n)
            } else {
                None
            };
            let digits = zeros(k) + number::decimal(n);
            number::parsed(digits, max) == read && number::parsed(seq!['+'] + digits, max) == read
        }),
{
    let written = number::decimal(n);
    let digits = zeros(k) + written;
    lemma_decimal(n);
    lemma_zeros_do_not_count(k, written);
    assert forall|i: int| 0 <= i < digits.len() implies number::is_digit(#[trigger] digits[i]) by {
        if i >= k {
            assert(number::is_digit(written[i - k]));
        }
    }
    assert(number::is_digit(digits[0]));
    assert(number::without_plus(digits) == digits);
    assert((seq!['+'] + digits).skip(1) =~= digits);
}

/// Only digits, at least one of them, perhaps behind one plus sign, are read as a number.
pub proof fn law_only_digits_are_numbers(s: Seq<char>, max: nat)
    ensures
        number::parsed(s, max) is Some ==> s.len() > 0 && (s[0] == '+' ==> s.len() > 1) && forall|
            i: int,
        |
            0 <= i < s.len() ==> '0' <= #[trigger] s[i] <= '9' || (i == 0 && s[i] == '+'),
        number::parsed(s, max) matches Some(n) ==> n <= max,
{
    if number::parsed(s, max) is Some {
        let digits = number::without_plus(s);
        assert forall|i: int| 0 <= i < s.len() implies '0' <= #[trigger] s[i] <= '9' || (i == 0
            && s[i] == '+') by {
            if s[0] == '+' {
                if i > 0 {
                    assert(number::is_digit(digits[i - 1]));
                }
            } else {
                assert(number::is_digit(digits[i]));
            }
        }
    }
}

/// Where there is no comma, none is taken away; so a written count is read as it is.
pub proof fn law_counts_without_commas(s: Seq<char>, n: nat)
    requires
        !s.contains(','),
    ensures
        number::without_commas(s) == s,
        number::without_commas(number::decimal(n)) == number::decimal(n),
{
    lemma_no_commas(s);
    let d = number::decimal(n);
    lemma_decimal(n);
    if d.contains(',') {
        let i = choose|i: int| 0 <= i < d.len() && d[i] == ',';
        assert(number::is_digit(d[i]));
    }
    lemma_no_commas(d);
}

proof fn lemma_no_commas(s: Seq<char>)
    requires
        !s.contains(','),
    ensures
        number::without_commas(s) == s,
    decreases s.len(),
{
    reveal(Seq::filter);
    if s.len() > 0 {
        let init = s.drop_last();
        if init.contains(',') {
            let i = choose|i: int| 0 <= i < init.len() && init[i] == ',';
            assert(s[i] == ',');
        }
        lemma_no_commas(init);
        assert(s[s.len() - 1] != ',') by {
            assert(s.contains(s[s.len() - 1]));
        }
        assert(init.push(s.last()) =~= s);
    }
}

/// Half way between two hundredths, the even one is taken.
proof fn lemma_half_even_tie(n: nat, d: nat)
    requires
        0 < d,
    ensures
        ({
            let h = number::half_even(n, d);
            2 * (h * d) == 2 * n + d || 2 * (h * d) + d == 2 * n ==> h % 2 == 0
        }),
{
    vstd::arithmetic::div_mod::lemma_fundamental_div_mod(n as int, d as int);
    vstd::arithmetic::div_mod::lemma_mod_bound(n as int, d as int);
    let q = n / d;
    assert(q * d == d * q) by (nonlinear_arith);
    assert((q + 1) * d == q * d + d) by (nonlinear_arith);
}

/// Whether `n` hundredths of `unit` are the nearest to `bytes`; half way between two, the even one.
pub open spec fn nearest_hundredths(n: nat, bytes: nat, unit: nat) -> bool {
    &&& 2 * (n * unit) <= 200 * bytes + unit
    &&& 200 * bytes <= 2 * (n * unit) + unit
    &&& 2 * (n * unit) == 200 * bytes + unit || 2 * (n * unit) + unit == 200 * bytes ==> n % 2 == 0
}

/// Hundredths, with a point before the last two digits.
pub open spec fn with_point(n: nat) -> Seq<char> {
    number::decimal(n / 100) + seq!['.', number::digit(n / 10 % 10), number::digit(n % 10)]
}

/// A count below two to the power of 53 is shown in the largest of gigabytes, megabytes and kilobytes
/// that it fills, to the nearest hundredth, and in bytes if it fills none.
pub proof fn law_how_a_size_is_shown(bytes: nat)
    requires
        bytes < 0x20_0000_0000_0000,
    ensures
        bytes < 1024 ==> number::size_text(bytes) == number::decimal(bytes) + " B"@,
        1024 <= bytes < 1048576 ==> exists|n: nat| #[trigger]
            nearest_hundredths(n, bytes, 1024) && number::size_text(bytes) == with_point(n) + " KB"@,
        1048576 <= bytes < 1073741824 ==> exists|n: nat| #[trigger]
            nearest_hundredths(n, bytes, 1048576) && number::size_text(bytes) == with_point(n)
                + " MB"@,
        1073741824 <= bytes ==> exists|n: nat| #[trigger]
            nearest_hundredths(n, bytes, 1073741824) && number::size_text(bytes) == with_point(n)
                + " GB"@,
{
    law_small_counts_are_exact(bytes);
    lemma_hundredths(bytes, 1024);
    lemma_hundredths(bytes, 1048576);
    lemma_hundredths(bytes, 1073741824);
}

proof fn lemma_hundredths(bytes: nat, unit: nat)
    requires
        bytes < 0x20_0000_0000_0000,
        0 < unit,
    ensures
        nearest_hundredths(number::hundredths(bytes, unit), bytes, unit),
        number::in_units(bytes, unit) == with_point(number::hundredths(bytes, unit)),
{
    law_shown_size_is_near(bytes, unit);
    law_small_counts_are_exact(bytes);
    lemma_half_even_tie(bytes * 100, unit);
}

proof fn lemma_double_step(n: nat)
    ensures
        number::double_step(n) >= 1,
        n >= 0x20_0000_0000_0000 ==> number::double_step(n) * 0x10_0000_0000_0000 <= n,
    decreases n,
{
    if n >= 0x20_0000_0000_0000 {
        lemma_double_step(n / 2);
        let half = number::double_step(n / 2);
        if n / 2 < 0x20_0000_0000_0000 {
            assert(half == 1);
        }
    }
}

/// A larger count is first taken to the nearest double-precision number, which is off by at most
/// one part in two to the power of 53.
pub proof fn law_large_counts_are_near(n: nat)
    requires
        n >= 0x20_0000_0000_0000,
    ensures
        ({
            let near = number::nearest_double(n);
            let off = if near >= n {
                near - n
            } else {
                n - near
            };
            off * 0x20_0000_0000_0000 <= n
        }),
{
    let step = number::double_step(n);
    lemma_double_step(n);
    lemma_half_even_near(n, step);
}

/// A larger count is shown in gigabytes, to the hundredth that is nearest to that number.
pub proof fn law_how_a_large_size_is_shown(bytes: nat)
    requires
        bytes >= 0x20_0000_0000_0000,
    ensures
        exists|n: nat| #[trigger]
            nearest_hundredths(n, number::nearest_double(bytes), 1073741824) && number::size_text(
                bytes,
            ) == with_point(n) + " GB"@,
{
    let double = number::nearest_double(bytes);
    let n = number::hundredths(bytes, 1073741824);
    lemma_half_even_near(double * 100, 1073741824);
    lemma_half_even_tie(double * 100, 1073741824);
    assert(nearest_hundredths(n, double, 1073741824));
    assert(number::in_units(bytes, 1073741824) == with_point(n));
}

} // verus!

//! Byte counts in binary units.
use vstd::prelude::*;

use crate::text;

verus! {

/// One kibibyte, mebibyte, gibibyte and tebibyte.
pub const KIB: u64 = 1024;

pub const MIB: u64 = 1048576;

pub const GIB: u64 = 1073741824;

pub const TIB: u64 = 1099511627776;

/// The numbers below this one are held by a double-precision number as they are.
pub const EXACT: u64 = 9007199254740992;

/// The decimal digits.
pub const DIGITS: [char; 10] = ['0', '1', '2', '3', '4', '5', '6', '7', '8', '9'];

/// `n` in decimal.
pub open spec fn decimal(n: nat) -> Seq<char>
    decreases n,
{
    if n < 10 {
        seq![DIGITS@[n as int]]
    } else {
        decimal(n / 10).push(DIGITS@[(n % 10) as int])
    }
}

/// `n / m`, rounded to the nearest whole number, and to the even one of two that are as near.
pub open spec fn nearest(n: nat, m: nat) -> nat {
    let q = n / m;
    let rest = n % m;
    if 2 * rest > m || (2 * rest == m && q % 2 == 1) {
        q + 1
    } else {
        q
    }
}

/// The distance of neighbouring double-precision numbers at `n`.
pub open spec fn spacing(n: nat) -> nat
    decreases n,
{
    if n < EXACT {
        1
    } else {
        2 * spacing(n / 2)
    }
}

/// The double-precision number nearest to `n`.
pub open spec fn double(n: nat) -> nat {
    nearest(n, spacing(n)) * spacing(n)
}

/// `b / unit` to one decimal, with the unit's name.
pub open spec fn in_unit(b: nat, unit: u64, name: Seq<char>) -> Seq<char> {
    let tenths = nearest(10 * b, unit as nat);
    decimal(tenths / 10) + seq!['.', DIGITS@[(tenths % 10) as int]] + name
}

/// A byte count as the screen shows it: to one decimal in the largest unit that it reaches, or
/// in bytes. As the counts are divided as double-precision numbers, one that takes more than 53
/// bits is rounded to such a number first.
pub open spec fn shown(bytes: u64) -> Seq<char> {
    let b = double(bytes as nat);
    if b >= TIB {
        in_unit(b, TIB, " TiB"@)
    } else if b >= GIB {
        in_unit(b, GIB, " GiB"@)
    } else if b >= MIB {
        in_unit(b, MIB, " MiB"@)
    } else if b >= KIB {
        in_unit(b, KIB, " KiB"@)
    } else {
        decimal(bytes as nat) + " B"@
    }
}

/// Appends `n` in decimal.
fn push_decimal(out: &mut String, n: u128)
    ensures
        final(out)@ == old(out)@ + decimal(n as nat),
    decreases n,
{
    let ghost start = out@;
    if n >= 10 {
        push_decimal(out, n / 10);
    }
    out.push(DIGITS[(n % 10) as usize]);
    assert(out@ =~= start + decimal(n as nat));
}

/// `n / m`, rounded to the nearest whole number, and to the even one of two that are as near.
fn nearest_quotient(n: u128, m: u128) -> (r: u128)
    requires
        0 < m,
        n <= u64::MAX * 20,
        m <= u64::MAX,
    ensures
        r == nearest(n as nat, m as nat),
        r <= n / m + 1,
{
    let q: u128 = n / m;
    let rest: u128 = n % m;
    assert(q <= n) by (nonlinear_arith)
        requires
            q == n / m,
            m > 0,
    ;
    if 2 * rest > m || (2 * rest == m && q % 2 == 1) {
        q + 1
    } else {
        q
    }
}

/// The distance of neighbouring double-precision numbers at `n`.
fn spacing_at(n: u64) -> (r: u64)
    ensures
        r == spacing(n as nat),
        1 <= r <= 4096,
        r > 1 ==> n >= r * 4503599627370496,
    decreases n,
{
    if n < EXACT {
        1
    } else {
        let half: u64 = spacing_at(n / 2);
        2 * half
    }
}

/// The double-precision number nearest to `n`.
fn nearest_double(n: u64) -> (r: u128)
    ensures
        r == double(n as nat),
        r <= n + 4096,
{
    let step: u64 = spacing_at(n);
    let q: u128 = nearest_quotient(n as u128, step as u128);
    proof {
        let k: int = n as int / step as int;
        assert(k * step <= n) by (nonlinear_arith)
            requires
                k == n as int / step as int,
                step > 0,
        ;
        assert(q * step <= n + 4096) by (nonlinear_arith)
            requires
                q <= k + 1,
                k * step <= n,
                0 < step <= 4096,
        ;
    }
    q * (step as u128)
}

/// `b / unit` to one decimal, with the unit's name.
fn text_in_unit(b: u128, unit: u64, name: &str) -> (r: String)
    requires
        b <= u64::MAX + 4096,
        unit > 0,
    ensures
        r@ == in_unit(b as nat, unit, name@),
{
    let tenths: u128 = nearest_quotient(10 * b, unit as u128);
    let mut out = String::new();
    push_decimal(&mut out, tenths / 10);
    out.push('.');
    out.push(DIGITS[(tenths % 10) as usize]);
    out.append(name);
    assert(out@ =~= in_unit(b as nat, unit, name@));
    out
}

/// A byte count as the screen shows it.
pub fn format_bytes(bytes: u64) -> (r: String)
    ensures
        r@ == shown(bytes),
{
    let b: u128 = nearest_double(bytes);
    if b >= TIB as u128 {
        text_in_unit(b, TIB, " TiB")
    } else if b >= GIB as u128 {
        text_in_unit(b, GIB, " GiB")
    } else if b >= MIB as u128 {
        text_in_unit(b, MIB, " MiB")
    } else if b >= KIB as u128 {
        text_in_unit(b, KIB, " KiB")
    } else {
        let mut out = String::new();
        push_decimal(&mut out, bytes as u128);
        out.append(" B");
        assert(out@ =~= shown(bytes));
        out
    }
}

/// A number below 2 to the power of 53 is a double-precision number as it is, so that its text
/// is that of the number itself.
pub proof fn double_is_exact(n: nat)
    requires
        n < EXACT,
    ensures
        double(n) == n,
{
    assert(spacing(n) == 1);
    assert(nearest(n, 1) == n);
}

/// What `decimal` writes down reads back as the same number.
pub proof fn decimal_reads_back(n: nat)
    ensures
        text::digits_value(decimal(n)) == n,
        forall|i: int| 0 <= i < decimal(n).len() ==> text::is_digit(#[trigger] decimal(n)[i]),
        decimal(n).len() > 0,
    decreases n,
{
    assert(forall|d: int|
        0 <= d < 10 ==> (#[trigger] DIGITS@[d]) as u32 - '0' as u32 == d && text::is_digit(
            DIGITS@[d],
        ));
    if n < 10 {
        let d = DIGITS@[n as int];
        assert(decimal(n).drop_last() =~= Seq::empty());
        assert(text::digits_value(Seq::empty()) == 0);
        assert(decimal(n).last() == d);
    } else {
        decimal_reads_back(n / 10);
        let d = DIGITS@[(n % 10) as int];
        assert(decimal(n).drop_last() =~= decimal(n / 10));
        assert(decimal(n).last() == d);
    }
}

} // verus!

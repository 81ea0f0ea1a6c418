//! Laws of showing byte counts.
use vstd::prelude::*;

use crate::text;

verus! {

/// `d` spells `n` in decimal digits, without zeros before them.
pub open spec fn spells(d: Seq<char>, n: nat) -> bool {
    &&& d.len() > 0
    &&& forall|i: int| 0 <= i < d.len() ==> text::is_digit(#[trigger] d[i])
    &&& text::digits_value(d) == n
    &&& d.len() > 1 ==> d[0] != '0'
}

/// `q` is the whole number nearest to `a / m`, the even one of two that are as near.
pub open spec fn nearest_to(a: nat, m: nat, q: nat) -> bool {
    &&& 2 * (q * m) <= 2 * a + m
    &&& 2 * a <= 2 * (q * m) + m
    &&& 2 * (q * m) == 2 * a + m || 2 * a == 2 * (q * m) + m ==> q % 2 == 0
}

/// `r` is a number with one decimal, nearest to `b / unit`, and behind it the unit's name.
pub open spec fn shows_in(r: Seq<char>, b: nat, unit: nat, name: Seq<char>) -> bool {
    exists|whole: Seq<char>, tenth: Seq<char>, t: nat|
        #![trigger spells(whole, t / 10), spells(tenth, t % 10)]
        nearest_to(10 * b, unit, t) && spells(whole, t / 10) && spells(tenth, t % 10) && r == whole
            + seq!['.'] + tenth + name
}

/// 2 to the power of `k`.
pub open spec fn doubled(k: nat) -> nat
    decreases k,
{
    if k == 0 {
        1
    } else {
        2 * doubled((k - 1) as nat)
    }
}

/// `b` is the double-precision number nearest to `n`: of 53 bits, all that such a number holds,
/// `n` fills as many as it has, and what does not fit is rounded off.
pub open spec fn held_as(n: nat, b: nat) -> bool {
    exists|k: nat, q: nat|
        #![trigger doubled(k), nearest_to(n, doubled(k), q)]
        nearest_to(n, doubled(k), q) && b == q * doubled(k) && n < 9007199254740992 * doubled(k)
            && (k > 0 ==> n >= 4503599627370496 * doubled(k))
}

proof fn lemma_decimal(n: nat)
    ensures
        spells(crate::format::decimal(n), n),
        n > 0 ==> crate::format::decimal(n)[0] != '0',
    decreases n,
{
    crate::format::decimal_reads_back(n);
    if n >= 10 {
        lemma_decimal(n / 10);
        assert(crate::format::decimal(n)[0] == crate::format::decimal(n / 10)[0]);
    }
}

proof fn lemma_nearest(a: nat, m: nat)
    requires
        m > 0,
    ensures
        nearest_to(a, m, crate::format::nearest(a, m)),
{
    let q = a / m;
    let rest = a % m;
    vstd::arithmetic::div_mod::lemma_fundamental_div_mod(a as int, m as int);
    assert(q * m + rest == a) by (nonlinear_arith)
        requires
            a == m * q + rest,
    ;
    assert((q + 1) * m == q * m + m) by (nonlinear_arith);
    assert(rest < m);
}

proof fn lemma_shows_in(b: nat, unit: u64, name: Seq<char>)
    requires
        unit > 0,
    ensures
        shows_in(crate::format::in_unit(b, unit, name), b, unit as nat, name),
{
    let t = crate::format::nearest(10 * b, unit as nat);
    lemma_nearest(10 * b, unit as nat);
    lemma_decimal(t / 10);
    lemma_decimal(t % 10);
    let whole = crate::format::decimal(t / 10);
    let tenth = crate::format::decimal(t % 10);
    assert(spells(whole, t / 10) && spells(tenth, t % 10));
    assert(crate::format::in_unit(b, unit, name) =~= whole + seq!['.'] + tenth + name);
}

proof fn lemma_spacing(n: nat) -> (k: nat)
    ensures
        crate::format::spacing(n) == doubled(k),
        n < 9007199254740992 * doubled(k),
        k > 0 ==> n >= 4503599627370496 * doubled(k),
    decreases n,
{
    if n < 9007199254740992 {
        assert(crate::format::spacing(n) == 1);
        0
    } else {
        let k = lemma_spacing(n / 2);
        assert(doubled(k + 1) == 2 * doubled(k));
        k + 1
    }
}

proof fn lemma_held_as(n: nat)
    ensures
        held_as(n, crate::format::double(n)),
{
    let k = lemma_spacing(n);
    let step = doubled(k);
    assert(step > 0);
    lemma_nearest(n, step);
    assert(nearest_to(n, doubled(k), crate::format::nearest(n, step)));
}

/// `format_bytes` shows a count in the largest unit that it reaches, to one decimal, or in
/// bytes if it reaches none; the units are 1024 of the next smaller. What counts is the count as
/// a double-precision number holds it.
pub proof fn counts_are_shown_in_units(bytes: u64, r: String)
    requires
        call_ensures(crate::format::format_bytes, (bytes,), r),
    ensures
        exists|b: nat|
            #[trigger] held_as(bytes as nat, b) && {
                let kib = 1024nat;
                let mib = 1024 * kib;
                let gib = 1024 * mib;
                let tib = 1024 * gib;
                &&& b >= tib ==> shows_in(r@, b, tib, " TiB"@)
                &&& gib <= b < tib ==> shows_in(r@, b, gib, " GiB"@)
                &&& mib <= b < gib ==> shows_in(r@, b, mib, " MiB"@)
                &&& kib <= b < mib ==> shows_in(r@, b, kib, " KiB"@)
                &&& b < kib ==> exists|d: Seq<char>|
                    #[trigger] spells(d, bytes as nat) && r@ == d + " B"@
            },
{
    let b = crate::format::double(bytes as nat);
    lemma_held_as(bytes as nat);
    assert(held_as(bytes as nat, b));
    if b >= 1099511627776 {
        lemma_shows_in(b, 1099511627776, " TiB"@);
    } else if b >= 1073741824 {
        lemma_shows_in(b, 1073741824, " GiB"@);
    } else if b >= 1048576 {
        lemma_shows_in(b, 1048576, " MiB"@);
    } else if b >= 1024 {
        lemma_shows_in(b, 1024, " KiB"@);
    } else {
        lemma_decimal(bytes as nat);
        let d = crate::format::decimal(bytes as nat);
        assert(spells(d, bytes as nat) && r@ == d + " B"@);
    }
}

proof fn lemma_doubled(k: nat)
    ensures
        doubled(k) >= 1,
        k > 0 ==> doubled(k) >= 2,
    decreases k,
{
    if k > 0 {
        lemma_doubled((k - 1) as nat);
    }
}

/// A count below 2 to the power of 53 is held as it is.
pub proof fn small_counts_are_held_as_they_are(n: nat, b: nat)
    requires
        n < 9007199254740992,
        held_as(n, b),
    ensures
        b == n,
{
    let (k, q) = choose|k: nat, q: nat|
        #![trigger doubled(k), nearest_to(n, doubled(k), q)]
        nearest_to(n, doubled(k), q) && b == q * doubled(k) && n < 9007199254740992 * doubled(k)
            && (k > 0 ==> n >= 4503599627370496 * doubled(k));
    lemma_doubled(k);
    assert(k == 0);
    assert(doubled(0) == 1);
    assert(q * 1 == q) by (nonlinear_arith);
}

} // verus!

//! Fixed-precision decimal text of a ratio of integers, exactly as dividing
//! in binary64 floating point and printing with `{:.p}` produce it.  Every
//! step rounds to nearest with ties to even: converting the numerator to
//! binary64, the division, and the decimal rounding of the printed value.
//! The arithmetic here is on integers only.

use crate::text::{fixed_text, push_fixed_digits};
use vstd::arithmetic::power2::{
    lemma2_to64, lemma2_to64_rest, lemma_pow2_adds, lemma_pow2_pos, lemma_pow2_strictly_increases, lemma_pow2_unfold,
    pow2,
};
use vstd::prelude::*;

verus! {

/// `n / d` rounded to the nearest integer, a tie going to the even one.
pub open spec fn round_half_even(n: nat, d: nat) -> nat
    recommends
        d > 0,
{
    let q = n / d;
    let r = n % d;
    if 2 * r > d || (2 * r == d && q % 2 == 1) {
        q + 1
    } else {
        q
    }
}

/// Scaled down by `2^t`, `n` lies in `[2^52, 2^53)`: it has 53 significant bits.
pub open spec fn int_shift_ok(n: nat, t: nat) -> bool {
    pow2(52 + t) <= n < pow2(53 + t)
}

/// The binary64 number nearest to `n` (what `n as f64` holds): `n` itself
/// below `2^53`, else `n` rounded to 53 significant bits.
pub open spec fn binary64_of_nat(n: nat) -> nat {
    if n < pow2(53) {
        n
    } else {
        let t = choose|t: nat| int_shift_ok(n, t);
        round_half_even(n, pow2(t)) * pow2(t)
    }
}

/// Scaled up by `2^k`, `a / d` lies in `[2^52, 2^53)`.
pub open spec fn ratio_shift_ok(a: nat, d: nat, k: nat) -> bool {
    pow2(52) * d <= a * pow2(k) < pow2(53) * d
}

/// The binary64 number nearest to `a / d`, for `1 <= a / d < 2^53`, as
/// the pair `(s, k)` of its value `s / 2^k`: `a / d` scaled to 53
/// significant bits and rounded.
pub open spec fn binary64_ratio(a: nat, d: nat) -> (nat, nat) {
    let k = choose|k: nat| ratio_shift_ok(a, d, k);
    (round_half_even(a * pow2(k), d), k)
}

/// `n / d` computed in binary64 (`n as f64 / d as f64`, `d` exactly
/// representable) and written with `places` decimals (`scale == 10^places`),
/// the last decimal rounded to nearest, ties to even.
pub open spec fn ratio_text(n: nat, d: nat, scale: nat, places: nat) -> Seq<char> {
    let x = binary64_ratio(binary64_of_nat(n), d);
    fixed_text(round_half_even(x.0 * scale, pow2(x.1)), scale, places)
}

proof fn lemma_int_shift_unique(n: nat, t1: nat, t2: nat)
    requires
        int_shift_ok(n, t1),
        int_shift_ok(n, t2),
    ensures
        t1 == t2,
{
    if t1 < t2 {
        if 53 + t1 < 52 + t2 {
            lemma_pow2_strictly_increases(53 + t1, 52 + t2);
        }
    } else if t2 < t1 {
        if 53 + t2 < 52 + t1 {
            lemma_pow2_strictly_increases(53 + t2, 52 + t1);
        }
    }
}

proof fn lemma_ratio_shift_grows(a: nat, d: nat, k1: nat, k2: nat)
    requires
        k1 < k2,
        pow2(52) * d <= a * pow2(k1),
    ensures
        pow2(53) * d <= a * pow2(k2),
{
    let g = (k2 - k1) as nat;
    lemma_pow2_adds(k1, g);
    lemma_pow2_strictly_increases(0, g);
    lemma_pow2_unfold(53);
    lemma2_to64();
    let p1 = pow2(k1);
    let pg = pow2(g);
    assert(pow2(k2) == p1 * pg);
    assert(pg >= 2);
    let p2 = pow2(k2);
    let b52 = pow2(52);
    assert(pow2(53) == 2 * b52);
    assert(a * p2 >= 2 * b52 * d) by (nonlinear_arith)
        requires
            pg >= 2,
            p2 == p1 * pg,
            b52 * d <= a * p1,
            a >= 0,
            p1 >= 0,
    ;
}

proof fn lemma_ratio_shift_unique(a: nat, d: nat, k1: nat, k2: nat)
    requires
        ratio_shift_ok(a, d, k1),
        ratio_shift_ok(a, d, k2),
    ensures
        k1 == k2,
{
    if k1 < k2 {
        lemma_ratio_shift_grows(a, d, k1, k2);
    } else if k2 < k1 {
        lemma_ratio_shift_grows(a, d, k2, k1);
    }
}

/// `n / d` rounded to nearest, ties to even.
fn div_half_even(n: u128, d: u128) -> (r: u128)
    requires
        d > 0,
        n < u128::MAX,
    ensures
        r == round_half_even(n as nat, d as nat),
{
    let q = n / d;
    let r = n % d;
    proof {
        vstd::arithmetic::div_mod::lemma_div_is_ordered_by_denominator(n as int, 1, d as int);
        assert(n as int / 1 == n);
    }
    if r > d - r || (r == d - r && q % 2 == 1) {
        q + 1
    } else {
        q
    }
}

/// `n as f64`, as an integer.
fn binary64_value_of(n: u64) -> (a: u128)
    ensures
        a == binary64_of_nat(n as nat),
        n < pow2(53) ==> a == n,
        n >= pow2(53) ==> a >= pow2(52),
        a <= pow2(64),
{
    proof {
        lemma2_to64();
        lemma2_to64_rest();
    }
    if n < 0x20_0000_0000_0000 {
        return n as u128;
    }
    let mut t: u32 = 0;
    let mut p: u128 = 1;
    while (n as u128) >= 0x20_0000_0000_0000 * p
        invariant
            p == pow2(t as nat),
            p <= 2048,
            n >= pow2(52 + t as nat),
            t <= 11,
            pow2(10) == 1024,
            pow2(53) == 0x20_0000_0000_0000,
            pow2(64) == 0x1_0000_0000_0000_0000,
        decreases 11 - t,
    {
        proof {
            lemma_pow2_adds(53, t as nat);
            if 53 + t as nat >= 64 {
                if 53 + t as nat > 64 {
                    lemma_pow2_strictly_increases(64, 53 + t as nat);
                }
            }
            assert(t <= 10);
            if t < 10 {
                lemma_pow2_strictly_increases(t as nat, 10);
            }
            lemma_pow2_unfold(t as nat + 1);
        }
        t = t + 1;
        p = p * 2;
    }
    proof {
        lemma_pow2_adds(53, t as nat);
        lemma_pow2_pos(t as nat);
        assert(int_shift_ok(n as nat, t as nat));
        let c = choose|c: nat| int_shift_ok(n as nat, c);
        lemma_int_shift_unique(n as nat, t as nat, c);
    }
    let s = div_half_even(n as u128, p);
    proof {
        let ni = n as int;
        let pi = p as int;
        let q = ni / pi;
        vstd::arithmetic::div_mod::lemma_fundamental_div_mod(ni, pi);
        lemma_pow2_adds(52, t as nat);
        assert(q < pow2(53)) by (nonlinear_arith)
            requires
                ni < pow2(53) * pi,
                ni == pi * q + ni % pi,
                ni % pi >= 0,
                pi > 0,
        ;
        assert(q >= pow2(52)) by (nonlinear_arith)
            requires
                ni >= pow2(52) * pi,
                ni == pi * q + ni % pi,
                ni % pi < pi,
                pi > 0,
        ;
        assert(s * p <= pow2(53) * 2048) by (nonlinear_arith)
            requires
                s <= pow2(53),
                p <= 2048,
        ;
        assert(s * p >= pow2(52)) by (nonlinear_arith)
            requires
                s >= pow2(52),
                p >= 1,
        ;
    }
    s * p
}

/// The binary64 quotient `a / d` as `(s, k)`, its value being `s / 2^k`.
fn binary64_ratio_of(a: u128, d: u128) -> (r: (u128, u32))
    requires
        0 < d <= 1_000_000_000,
        d <= a,
        a < pow2(53) * d,
        a <= pow2(64),
    ensures
        r.0 == binary64_ratio(a as nat, d as nat).0,
        r.1 == binary64_ratio(a as nat, d as nat).1,
        r.0 <= pow2(53),
        r.1 <= 52,
{
    proof {
        lemma2_to64();
        lemma2_to64_rest();
        lemma_pow2_unfold(53);
    }
    let mut x: u128 = a;
    let mut k: u32 = 0;
    while x < 0x10_0000_0000_0000 * d
        invariant
            x == a * pow2(k as nat),
            x < pow2(53) * d,
            d <= a,
            0 < d <= 1_000_000_000,
            k <= 52,
            pow2(52) == 0x10_0000_0000_0000,
            pow2(53) == 0x20_0000_0000_0000,
        decreases 52 - k,
    {
        proof {
            lemma_pow2_unfold(k as nat + 1);
            let pk = pow2(k as nat);
            assert(d * pk <= x) by (nonlinear_arith)
                requires
                    x == a * pk,
                    d <= a,
            ;
            assert(pk < pow2(52)) by (nonlinear_arith)
                requires
                    d * pk <= x,
                    x < pow2(52) * d,
                    d > 0,
            ;
            if k >= 52 {
                if k > 52 {
                    lemma_pow2_strictly_increases(52, k as nat);
                }
            }
            assert(a * (2 * pk) == 2 * x) by (nonlinear_arith)
                requires
                    x == a * pk,
            ;
        }
        x = x * 2;
        k = k + 1;
    }
    proof {
        assert(ratio_shift_ok(a as nat, d as nat, k as nat));
        let c = choose|c: nat| ratio_shift_ok(a as nat, d as nat, c);
        lemma_ratio_shift_unique(a as nat, d as nat, k as nat, c);
    }
    let s = div_half_even(x, d);
    proof {
        let q = x as int / d as int;
        vstd::arithmetic::div_mod::lemma_fundamental_div_mod(x as int, d as int);
        assert(q < pow2(53)) by (nonlinear_arith)
            requires
                x < pow2(53) * d,
                x == d * q + x % d,
                x % d >= 0,
                d > 0,
        ;
    }
    (s, k)
}

/// Appends `n / d` computed in binary64 and written with `places` decimals
/// (see `ratio_text`).
pub fn push_ratio(out: &mut String, n: u64, d: u64, scale: u64, places: u64)
    requires
        d == 1_000 || d == 1_000_000 || d == 1_000_000_000,
        d <= n,
        d == 1_000 ==> n < 1_000_000,
        (scale == 10 && places == 1) || (scale == 100 && places == 2),
    ensures
        final(out)@ == old(out)@ + ratio_text(n as nat, d as nat, scale as nat, places as nat),
{
    proof {
        lemma2_to64();
        lemma2_to64_rest();
    }
    let a = binary64_value_of(n);
    assert(a < pow2(53) * d) by {
        if d == 1_000 {
        } else {
            assert(pow2(64) < pow2(53) * 1_000_000);
        }
    }
    let (s, k) = binary64_ratio_of(a, d as u128);
    let mut p: u128 = 1;
    let mut i: u32 = 0;
    while i < k
        invariant
            p == pow2(i as nat),
            i <= k,
            k <= 52,
            pow2(52) == 0x10_0000_0000_0000,
        decreases k - i,
    {
        proof {
            lemma_pow2_unfold(i as nat + 1);
            lemma_pow2_strictly_increases(i as nat, 52);
        }
        p = p * 2;
        i = i + 1;
    }
    proof {
        lemma_pow2_pos(k as nat);
        assert(s * scale <= pow2(53) * 100) by (nonlinear_arith)
            requires
                s <= pow2(53),
                scale <= 100,
        ;
    }
    let v = div_half_even(s * scale as u128, p);
    proof {
        vstd::arithmetic::div_mod::lemma_div_is_ordered_by_denominator((s * scale) as int, 1, p as int);
    }
    push_fixed_digits(out, v as u64, scale, places);
}

} // verus!

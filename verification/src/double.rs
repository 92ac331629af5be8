//! Whole parts of double-precision numbers, computed with integers alone.
//!
//! A double holds 53 significant bits. The double nearest to a given fraction, with ties
//! going to the even one, may lie above the next whole number; its whole part is computed
//! here exactly, for numerals of any length.

use vstd::arithmetic::power2::{
    lemma_pow2_adds, lemma_pow2_pos, lemma_pow2_strictly_increases, lemma_pow2_unfold, pow2,
};
use vstd::prelude::*;
use crate::number::{
    all_digits, digit_value, is_digit, lemma_pow10_adds, lemma_pow10_pos, lemma_pow10_small,
    lemma_value_bound, lemma_value_split, pow10, value,
};

verus! {

/// `a / b` rounded to the nearest whole number, a tie going to the even one.
pub open spec fn nearest_even(a: nat, b: nat) -> nat {
    let q = a / b;
    let r = a % b;
    if 2 * r < b || (2 * r == b && q % 2 == 0) {
        q
    } else {
        q + 1
    }
}

/// The exponent of the largest power of two that is at most `i`, for `i` above zero.
pub open spec fn exponent(i: nat) -> nat
    decreases i,
{
    if i <= 1 {
        0
    } else {
        1 + exponent(i / 2)
    }
}

/// The distance between neighbouring doubles around a number with the whole part `i`, in
/// units of 2 to the power -54. (Below one half doubles lie closer together still, but no
/// rounding there reaches a whole number.)
pub open spec fn spacing(i: nat) -> nat {
    if i == 0 {
        2
    } else {
        4 * pow2(exponent(i))
    }
}

/// The whole part of the double nearest to `num / den`.
pub open spec fn double_whole(num: nat, den: nat) -> nat {
    let s = spacing(num / den);
    nearest_even(num * pow2(54), den * s) * s / pow2(54)
}

proof fn lemma_exponent(i: nat, e: nat)
    requires
        pow2(e) <= i < pow2(e + 1),
    ensures
        exponent(i) == e,
    decreases e,
{
    lemma_pow2_unfold(e + 1);
    if e == 0 {
        assert(pow2(0) == 1) by {
            vstd::arithmetic::power2::lemma2_to64();
        }
    } else {
        lemma_pow2_unfold(e);
        lemma_pow2_pos((e - 1) as nat);
        lemma_exponent(i / 2, (e - 1) as nat);
    }
}

/// A common factor does not change the rounding.
proof fn lemma_nearest_even_scale(a: nat, b: nat, k: nat)
    requires
        b > 0,
        k > 0,
    ensures
        nearest_even(a * k, b * k) == nearest_even(a, b),
{
    let q: int = (a / b) as int;
    let r: int = (a % b) as int;
    assert(a == b * q + r && 0 <= r < b) by {
        vstd::arithmetic::div_mod::lemma_fundamental_div_mod(a as int, b as int);
    }
    assert(a * k == q * (b * k) + r * k) by (nonlinear_arith)
        requires
            a == b * q + r,
    ;
    assert(0 <= r * k < b * k) by (nonlinear_arith)
        requires
            0 <= r < b,
            k > 0,
    ;
    vstd::arithmetic::div_mod::lemma_fundamental_div_mod_converse(
        (a * k) as int,
        (b * k) as int,
        q,
        r * k,
    );
    assert((2 * r < b) == (2 * (r * k) < b * k)) by (nonlinear_arith)
        requires
            k > 0,
    ;
    assert((2 * r == b) == (2 * (r * k) == b * k)) by (nonlinear_arith)
        requires
            k > 0,
    ;
}

// ---- Just below a whole number ----------------------------------------------------

/// On which side of a threshold a number lies.
#[derive(Debug, Clone, Copy, PartialEq, Eq, Structural)]
pub enum Side {
    Below,
    At,
    Above,
}

/// On which side of `1 - 1 / m` the fraction `num / den` lies.
pub open spec fn side(num: nat, den: nat, m: nat) -> Side {
    if num * m < (m - 1) * den {
        Side::Below
    } else if num * m == (m - 1) * den {
        Side::At
    } else {
        Side::Above
    }
}

/// On which side of `1 - 1 / m` the number with the decimals `digits` lies.
fn side_of(digits: &[char], m: u64) -> (r: Side)
    requires
        all_digits(digits@),
        0 < m <= 0x40_0000_0000_0000,
    ensures
        r == side(value(digits@), pow10(digits@.len()), m as nat),
{
    let mut rest: u64 = m - 1;
    let mut i: usize = 0;
    proof {
        let f: nat = value(digits@.take(0));
        assert(f == 0);
        assert(f * m == 0) by (nonlinear_arith)
            requires
                f == 0,
        ;
        assert(pow10(0) == 1);
        assert((m - 1) * pow10(0) == m - 1);
    }
    while i < digits.len()
        invariant
            all_digits(digits@),
            0 < m <= 0x40_0000_0000_0000,
            i <= digits@.len(),
            rest < m,
            value(digits@.take(i as int)) * m + rest == (m - 1) * pow10(i as nat),
        decreases digits@.len() - i,
    {
        let c = digits[i];
        assert(is_digit(digits@[i as int]));
        let d: u64 = c as u64 - '0' as u64;
        let t: u64 = rest * 10 / m;
        let next: u64 = rest * 10 % m;
        proof {
            vstd::arithmetic::div_mod::lemma_fundamental_div_mod(rest * 10, m as int);
            assert(digits@.take(i + 1).drop_last() =~= digits@.take(i as int));
            lemma_digit_step(digits@, i as nat, m as nat, rest as nat, t as nat, next as nat);
            lemma_tail(digits@, i as nat + 1);
        }
        if d > t {
            proof {
                lemma_above(digits@, i as nat + 1, m as nat, next as nat, t as nat);
            }
            return Side::Above;
        }
        if d < t {
            proof {
                lemma_below(digits@, i as nat + 1, m as nat, next as nat, t as nat);
            }
            return Side::Below;
        }
        rest = next;
        i = i + 1;
    }
    assert(digits@.take(digits@.len() as int) =~= digits@);
    if rest == 0 {
        Side::At
    } else {
        Side::Below
    }
}

/// One step of the long division that yields the decimals of `1 - 1 / m`.
proof fn lemma_digit_step(s: Seq<char>, i: nat, m: nat, rest: nat, t: nat, next: nat)
    requires
        m > 0,
        i < s.len(),
        value(s.take(i as int)) * m + rest == (m - 1) * pow10(i),
        rest * 10 == m * t + next,
    ensures
        (10 * value(s.take(i as int)) + t) * m + next == (m - 1) * pow10(i + 1),
{
    let f: int = value(s.take(i as int)) as int;
    let p: int = pow10(i) as int;
    let k: int = m as int;
    assert((10 * f + t) * k + next == 10 * (f * k + rest)) by (nonlinear_arith)
        requires
            rest * 10 == k * t + next,
    ;
    assert(10 * ((k - 1) * p) == (k - 1) * (10 * p)) by (nonlinear_arith);
    assert(pow10(i + 1) == 10 * pow10(i));
}

/// The digits from `n` on count for less than one unit of the digit before them.
proof fn lemma_tail(s: Seq<char>, n: nat)
    requires
        all_digits(s),
        n <= s.len(),
    ensures
        value(s.take(n as int)) * pow10((s.len() - n) as nat) <= value(s),
        value(s) < (value(s.take(n as int)) + 1) * pow10((s.len() - n) as nat),
        pow10(s.len()) == pow10(n) * pow10((s.len() - n) as nat),
        pow10((s.len() - n) as nat) > 0,
{
    lemma_value_split(s, n as int);
    let tail = s.skip(n as int);
    assert(all_digits(tail)) by {
        assert forall|i: int| 0 <= i < tail.len() implies is_digit(#[trigger] tail[i]) by {
            assert(tail[i] == s[i + n]);
        }
    }
    lemma_value_bound(tail);
    lemma_pow10_adds(n, (s.len() - n) as nat);
    lemma_pow10_pos((s.len() - n) as nat);
    let f: int = value(s.take(n as int)) as int;
    let p: int = pow10((s.len() - n) as nat) as int;
    assert((f + 1) * p == f * p + p) by (nonlinear_arith);
}

/// A digit above that of the threshold puts the number above the threshold.
proof fn lemma_above(s: Seq<char>, n: nat, m: nat, next: nat, t: nat)
    requires
        all_digits(s),
        0 < n <= s.len(),
        m > 0,
        next < m,
        digit_value(s[n - 1]) > t,
        (10 * value(s.take(n - 1)) + t) * m + next == (m - 1) * pow10(n),
    ensures
        side(value(s), pow10(s.len()), m) == Side::Above,
{
    lemma_tail(s, n);
    assert(s.take(n as int).drop_last() =~= s.take(n - 1));
    let f: int = value(s.take(n as int)) as int;
    let g: int = (10 * value(s.take(n - 1)) + t) as int;
    let p: int = pow10((s.len() - n) as nat) as int;
    let w: int = pow10(n) as int;
    let k: int = m as int;
    let v: int = value(s) as int;
    assert(f >= g + 1);
    assert(f * k > (k - 1) * w) by (nonlinear_arith)
        requires
            f >= g + 1,
            g * k + next == (k - 1) * w,
            next < k,
            k > 0,
    ;
    assert(v * k > (k - 1) * (w * p)) by (nonlinear_arith)
        requires
            f * p <= v,
            f * k > (k - 1) * w,
            p > 0,
            k > 0,
    {
        assert(v * k >= (f * p) * k) by (nonlinear_arith)
            requires
                f * p <= v,
                k > 0,
        ;
        assert((f * p) * k == (f * k) * p) by (nonlinear_arith);
        assert((f * k) * p > ((k - 1) * w) * p) by (nonlinear_arith)
            requires
                f * k > (k - 1) * w,
                p > 0,
        ;
        assert(((k - 1) * w) * p == (k - 1) * (w * p)) by (nonlinear_arith);
    }
}

/// A digit below that of the threshold puts the number below the threshold.
proof fn lemma_below(s: Seq<char>, n: nat, m: nat, next: nat, t: nat)
    requires
        all_digits(s),
        0 < n <= s.len(),
        m > 0,
        digit_value(s[n - 1]) < t,
        (10 * value(s.take(n - 1)) + t) * m + next == (m - 1) * pow10(n),
    ensures
        side(value(s), pow10(s.len()), m) == Side::Below,
{
    lemma_tail(s, n);
    assert(s.take(n as int).drop_last() =~= s.take(n - 1));
    let f: int = value(s.take(n as int)) as int;
    let g: int = (10 * value(s.take(n - 1)) + t) as int;
    let p: int = pow10((s.len() - n) as nat) as int;
    let w: int = pow10(n) as int;
    let k: int = m as int;
    let v: int = value(s) as int;
    assert(f + 1 <= g);
    assert((f + 1) * k <= (k - 1) * w) by (nonlinear_arith)
        requires
            f + 1 <= g,
            g * k + next == (k - 1) * w,
            k > 0,
    ;
    assert(v * k < (k - 1) * (w * p)) by (nonlinear_arith)
        requires
            v < (f + 1) * p,
            (f + 1) * k <= (k - 1) * w,
            p > 0,
            k > 0,
    {
        assert(v * k < ((f + 1) * p) * k) by (nonlinear_arith)
            requires
                v < (f + 1) * p,
                k > 0,
        ;
        assert(((f + 1) * p) * k == ((f + 1) * k) * p) by (nonlinear_arith);
        assert(((f + 1) * k) * p <= ((k - 1) * w) * p) by (nonlinear_arith)
            requires
                (f + 1) * k <= (k - 1) * w,
                p > 0,
        ;
        assert(((k - 1) * w) * p == (k - 1) * (w * p)) by (nonlinear_arith);
    }
}

// ---- The whole part of the nearest double -----------------------------------------

/// Where doubles lie no further than one half apart, the nearest one reaches the next whole
/// number exactly from half a spacing below it on.
proof fn lemma_fine(i: nat, num: nat, den: nat, k: nat)
    requires
        den > 0,
        num < den,
        k >= 2,
        k % 2 == 0,
        k * spacing(i) == pow2(54),
    ensures
        double_whole(i * den + num, den) == (if side(num, den, 2 * k) == Side::Below {
            i
        } else {
            i + 1
        }),
{
    let all: nat = i * den + num;
    let s: nat = spacing(i);
    lemma_whole(i, num, den);
    lemma_pow2_pos(54);
    assert(s > 0) by (nonlinear_arith)
        requires
            k * s > 0,
    ;
    assert(all * pow2(54) == (all * k) * s) by (nonlinear_arith)
        requires
            k * s == pow2(54),
    ;
    lemma_nearest_even_scale(all * k, den, s);
    let q: int = (num * k) as int / den as int;
    let r: int = (num * k) as int % den as int;
    vstd::arithmetic::div_mod::lemma_fundamental_div_mod((num * k) as int, den as int);
    assert(0 <= q < k) by (nonlinear_arith)
        requires
            num * k == den * q + r,
            num < den,
            0 <= r < den,
            0 < k,
            0 < den,
    ;
    let qq: int = i * k + q;
    assert(all * k == qq * den + r) by (nonlinear_arith)
        requires
            all == i * den + num,
            num * k == den * q + r,
            qq == i * k + q,
    ;
    assert(qq >= 0) by (nonlinear_arith)
        requires
            qq == i * k + q,
            q >= 0,
            i >= 0,
            k >= 0,
    ;
    vstd::arithmetic::div_mod::lemma_fundamental_div_mod_converse(
        (all * k) as int,
        den as int,
        qq,
        r,
    );
    assert(qq % 2 == q % 2) by {
        let h: int = k as int / 2;
        assert(i * k == 2 * (i * h)) by (nonlinear_arith)
            requires
                k == 2 * h,
        ;
    }
    let n: int = nearest_even(all * k, den) as int;
    let up: int = n - i * k;
    assert(0 <= up <= k);
    assert((2 * k - 1) * den == 2 * (k * den) - den) by (nonlinear_arith);
    assert(num * (2 * k) == 2 * (num * k)) by (nonlinear_arith);
    if q < k - 1 {
        assert(up < k);
        assert(den * q + r < k * den - den) by (nonlinear_arith)
            requires
                q <= k - 2,
                0 <= r < den,
        ;
    } else {
        assert(den * q == k * den - den) by (nonlinear_arith)
            requires
                q == k - 1,
        ;
    }
    assert((up == k) == (side(num, den, 2 * k) != Side::Below));
    assert(n * s == i * (k * s) + up * s) by (nonlinear_arith)
        requires
            n == i * k + up,
    ;
    if up == k {
        assert(n * s == (i + 1) * pow2(54) + 0) by (nonlinear_arith)
            requires
                n * s == i * (k * s) + up * s,
                up == k,
                k * s == pow2(54),
        ;
        vstd::arithmetic::div_mod::lemma_fundamental_div_mod_converse(
            n * s,
            pow2(54) as int,
            i as int + 1,
            0,
        );
    } else {
        assert(0 <= up * s < k * s) by (nonlinear_arith)
            requires
                0 <= up < k,
                s > 0,
        ;
        vstd::arithmetic::div_mod::lemma_fundamental_div_mod_converse(
            n * s,
            pow2(54) as int,
            i as int,
            up * s,
        );
    }
}

/// Where neighbouring doubles are `u` apart, a whole number, the nearest one is the nearest
/// multiple of `u`.
proof fn lemma_coarse(i: nat, num: nat, den: nat, u: nat)
    requires
        den > 0,
        num < den,
        u > 0,
        spacing(i) == u * pow2(54),
    ensures
        double_whole(i * den + num, den) == (if 2 * ((i % u) * den + num) < u * den || (2 * ((i % u)
            * den + num) == u * den && (i / u) % 2 == 0) {
            (i / u) * u
        } else {
            (i / u + 1) * u
        }),
{
    let all: nat = i * den + num;
    let s: nat = spacing(i);
    lemma_whole(i, num, den);
    lemma_pow2_pos(54);
    let unit: nat = pow2(54);
    assert(den * s == (den * u) * unit) by (nonlinear_arith)
        requires
            s == u * unit,
    ;
    assert(den * u > 0) by (nonlinear_arith)
        requires
            den > 0,
            u > 0,
    ;
    lemma_nearest_even_scale(all, den * u, unit);
    let q: int = i as int / u as int;
    let r: int = i as int % u as int;
    vstd::arithmetic::div_mod::lemma_fundamental_div_mod(i as int, u as int);
    assert(all == q * (den * u) + (r * den + num)) by (nonlinear_arith)
        requires
            all == i * den + num,
            i == u * q + r,
    ;
    assert(0 <= r * den + num < den * u) by (nonlinear_arith)
        requires
            0 <= r < u,
            0 <= num < den,
    ;
    vstd::arithmetic::div_mod::lemma_fundamental_div_mod_converse(
        all as int,
        (den * u) as int,
        q,
        r * den + num,
    );
    assert(den * u == u * den) by (nonlinear_arith);
    let n: int = nearest_even(all, den * u) as int;
    assert(n * s == (n * u) * unit + 0) by (nonlinear_arith)
        requires
            s == u * unit,
    ;
    vstd::arithmetic::div_mod::lemma_fundamental_div_mod_converse(n * s, unit as int, n * u, 0);
}

proof fn lemma_whole(i: nat, num: nat, den: nat)
    requires
        den > 0,
        num < den,
    ensures
        (i * den + num) / den == i,
{
    vstd::arithmetic::div_mod::lemma_fundamental_div_mod_converse(
        (i * den + num) as int,
        den as int,
        i as int,
        num as int,
    );
}

/// A remainder `r` and a fraction `num / den`, together, against one half of `u`.
proof fn lemma_half(u: nat, e: nat, r: nat, num: nat, den: nat)
    requires
        u == pow2(e),
        r < u,
        num < den,
    ensures
        u == 1 ==> {
            &&& (side(num, den, 2) == Side::Below) == (2 * (r * den + num) < u * den)
            &&& (side(num, den, 2) == Side::At) == (2 * (r * den + num) == u * den)
        },
        u > 1 ==> {
            &&& r < u / 2 ==> 2 * (r * den + num) < u * den
            &&& r > u / 2 ==> 2 * (r * den + num) > u * den
            &&& r == u / 2 ==> 2 * (r * den + num) == u * den + 2 * num
        },
        (side(num, den, 1) == Side::Above) == (num > 0),
{
    assert(num * 1 == num);
    assert(0 * den == 0);
    if u == 1 {
        assert(r * den == 0) by (nonlinear_arith)
            requires
                r == 0,
        ;
        assert(u * den == den) by (nonlinear_arith)
            requires
                u == 1,
        ;
        assert((2 - 1) * den == den);
        assert(num * 2 == 2 * num);
    } else {
        if e == 0 {
            vstd::arithmetic::power2::lemma2_to64();
        }
        lemma_pow2_unfold(e);
        let h: int = pow2((e - 1) as nat) as int;
        assert(u == 2 * h);
        assert(u * den == 2 * (h * den)) by (nonlinear_arith)
            requires
                u == 2 * h,
        ;
        if r < h {
            assert(r * den + den <= h * den) by (nonlinear_arith)
                requires
                    r + 1 <= h,
                    den >= 0,
            ;
        } else if r > h {
            assert(r * den >= h * den + den) by (nonlinear_arith)
                requires
                    r >= h + 1,
                    den >= 0,
            ;
        }
    }
}

/// `n`, or the largest `u64` if `n` is larger.
pub open spec fn capped(n: nat) -> u64 {
    if n <= u64::MAX {
        n as u64
    } else {
        u64::MAX
    }
}

/// The whole part of the double nearest to the number with the whole part `i` and the
/// decimals `digits`, as a `u64`.
pub fn nearest_whole(i: u64, digits: &[char]) -> (r: u64)
    requires
        all_digits(digits@),
    ensures
        r == capped(
            double_whole(
                (i * pow10(digits@.len()) + value(digits@)) as nat,
                pow10(digits@.len()),
            ),
        ),
{
    let ghost den: nat = pow10(digits@.len());
    let ghost num: nat = value(digits@);
    proof {
        lemma_value_bound(digits@);
        lemma_pow10_pos(digits@.len());
        vstd::arithmetic::power2::lemma2_to64();
        vstd::arithmetic::power2::lemma2_to64_rest();
    }
    if i < 0x10_0000_0000_0000 {
        // Fewer than 53 bits: doubles are at most one half apart.
        let mut k: u64 = 0x20_0000_0000_0000;
        if i > 0 {
            let ghost mut e: nat = 0;
            let mut t: u64 = 1;
            k = 0x10_0000_0000_0000;
            while t <= i / 2
                invariant
                    0 < i < 0x10_0000_0000_0000,
                    t == pow2(e),
                    e <= 51,
                    k == pow2((52 - e) as nat),
                    t <= i,
                    pow2(52) == 0x10_0000_0000_0000,
                    pow2(51) == 0x8_0000_0000_0000,
                    pow2(1) == 2,
                decreases 51 - e,
            {
                proof {
                    lemma_pow2_unfold(e + 1);
                    lemma_pow2_unfold((52 - e) as nat);
                    if e == 51 {
                        assert(false);
                    }
                }
                t = t * 2;
                k = k / 2;
                proof {
                    e = e + 1;
                }
            }
            proof {
                lemma_pow2_unfold(e + 1);
                lemma_exponent(i as nat, e);
                lemma_pow2_unfold((52 - e) as nat);
                lemma_pow2_pos((51 - e) as nat);
                lemma_pow2_adds((52 - e) as nat, e);
                assert(k * (4 * t) == 4 * (k * t)) by (nonlinear_arith);
            }
        }
        proof {
            lemma_fine(i as nat, num, den, k as nat);
            assert(k * spacing(i as nat) == pow2(54));
        }
        match side_of(digits, 2 * k) {
            Side::Below => i,
            _ => i + 1,
        }
    } else {
        let mut u: u64 = 1;
        let ghost mut e: nat = 0;
        while i / u >= 0x20_0000_0000_0000
            invariant
                u == pow2(e),
                0 < u <= 0x800,
                e <= 11,
                0x10_0000_0000_0000 <= i / u,
                pow2(11) == 0x800,
                pow2(12) == 0x1000,
            decreases 11 - e,
        {
            proof {
                assert(u < 0x800) by (nonlinear_arith)
                    requires
                        i / u >= 0x20_0000_0000_0000,
                        0 < u <= 0x800,
                        i <= 0xffff_ffff_ffff_ffff,
                ;
                lemma_pow2_unfold(e + 1);
                if e == 11 {
                    assert(false);
                }
                assert((i as int) / (2 * u) >= 0x10_0000_0000_0000) by (nonlinear_arith)
                    requires
                        i / u >= 0x20_0000_0000_0000,
                        0 < u,
                ;
                if e + 1 < 11 {
                    lemma_pow2_strictly_increases(e + 1, 11);
                }
            }
            u = u * 2;
            proof {
                e = e + 1;
            }
        }
        let q: u64 = i / u;
        let r: u64 = i % u;
        proof {
            vstd::arithmetic::div_mod::lemma_fundamental_div_mod(i as int, u as int);
            lemma_pow2_adds(52, e);
            lemma_pow2_adds(53, e);
            assert(0x10_0000_0000_0000 * u <= i < 0x20_0000_0000_0000 * u) by (nonlinear_arith)
                requires
                    i == u * q + r,
                    0 <= r < u,
                    0x10_0000_0000_0000 <= q < 0x20_0000_0000_0000,
            ;
            lemma_exponent(i as nat, 52 + e);
            lemma_coarse(i as nat, num, den, u as nat);
        }
        // The remainder, decimals and all, against one half of the distance.
        let half = if u == 1 {
            side_of(digits, 2)
        } else if r < u / 2 {
            Side::Below
        } else if r > u / 2 || side_of(digits, 1) == Side::Above {
            Side::Above
        } else {
            Side::At
        };
        proof {
            lemma_half(u as nat, e, r as nat, num, den);
            assert(q * u <= i) by (nonlinear_arith)
                requires
                    i == u * q + r,
                    0 <= r,
            ;
            let limit: int = u64::MAX as int / u as int;
            vstd::arithmetic::div_mod::lemma_fundamental_div_mod(u64::MAX as int, u as int);
            assert((limit + 1) * u > u64::MAX) by (nonlinear_arith)
                requires
                    u64::MAX == u * limit + (u64::MAX as int) % (u as int),
                    (u64::MAX as int) % (u as int) < u,
            ;
            if q < limit {
                assert((q + 1) * u <= u64::MAX) by (nonlinear_arith)
                    requires
                        q + 1 <= limit,
                        u64::MAX == u * limit + (u64::MAX as int) % (u as int),
                        0 <= (u64::MAX as int) % (u as int),
                        u > 0,
                ;
            }
            assert(q <= limit) by (nonlinear_arith)
                requires
                    q * u <= i,
                    i <= u64::MAX,
                    (limit + 1) * u > u64::MAX,
                    u > 0,
            ;
        }
        if half == Side::Below || (half == Side::At && q % 2 == 0) {
            q * u
        } else if q == u64::MAX / u {
            u64::MAX
        } else {
            (q + 1) * u
        }
    }
}

// ---- Laws -------------------------------------------------------------------------

proof fn lemma_exponent_bounds(i: nat)
    requires
        i > 0,
    ensures
        pow2(exponent(i)) <= i < pow2(exponent(i) + 1),
    decreases i,
{
    vstd::arithmetic::power2::lemma2_to64();
    if i > 1 {
        lemma_exponent_bounds(i / 2);
        lemma_pow2_unfold(exponent(i));
        lemma_pow2_unfold(exponent(i) + 1);
    }
}

/// The double nearest to a number above every `u64` is above every `u64` too.
pub proof fn huge_numbers_stay_huge(num: nat, den: nat)
    requires
        den > 0,
        num / den > u64::MAX,
    ensures
        double_whole(num, den) > u64::MAX,
{
    let i: nat = num / den;
    let f: nat = num % den;
    vstd::arithmetic::div_mod::lemma_fundamental_div_mod(num as int, den as int);
    assert(num == i * den + f) by (nonlinear_arith)
        requires
            num == den * i + f,
    ;
    lemma_exponent_bounds(i);
    vstd::arithmetic::power2::lemma2_to64_rest();
    let e: nat = exponent(i);
    if e < 64 {
        if e + 1 < 64 {
            lemma_pow2_strictly_increases(e + 1, 64);
        }
        assert(false);
    }
    if e > 64 {
        lemma_pow2_strictly_increases(64, e);
    }
    let u: nat = pow2((e - 52) as nat);
    lemma_pow2_pos((e - 52) as nat);
    lemma_pow2_adds(52, (e - 52) as nat);
    lemma_pow2_unfold(53);
    lemma_pow2_unfold(54);
    assert(4 * pow2(e) == u * pow2(54)) by (nonlinear_arith)
        requires
            pow2(e) == pow2(52) * u,
            pow2(54) == 4 * pow2(52),
    ;
    lemma_coarse(i, f, den, u);
    let q: int = i as int / u as int;
    assert(q >= pow2(52)) by (nonlinear_arith)
        requires
            i >= pow2(52) * u,
            u > 0,
            q == i as int / u as int,
    ;
    assert(q * u >= pow2(52) * u && (q + 1) * u >= pow2(52) * u) by (nonlinear_arith)
        requires
            q >= pow2(52),
            u > 0,
    ;
}

/// A number with few digits is rounded too little for its whole part to change: `whole`
/// digits before the point and `decimals` after it, fifteen at most, give the number before
/// the point.
pub proof fn short_numbers_keep_their_whole_part(whole: Seq<char>, decimals: Seq<char>)
    requires
        all_digits(whole),
        all_digits(decimals),
        whole.len() + decimals.len() <= 15,
    ensures
        double_whole(
            value(whole) * pow10(decimals.len()) + value(decimals),
            pow10(decimals.len()),
        ) == value(whole),
{
    let i: nat = value(whole);
    let num: nat = value(decimals);
    let den: nat = pow10(decimals.len());
    lemma_value_bound(whole);
    lemma_value_bound(decimals);
    lemma_pow10_pos(decimals.len());
    lemma_pow10_pos(whole.len());
    lemma_pow10_adds(whole.len(), decimals.len());
    lemma_pow10_small(whole.len() + decimals.len());
    vstd::arithmetic::power2::lemma2_to64();
    vstd::arithmetic::power2::lemma2_to64_rest();
    let w: int = pow10(whole.len()) as int;
    assert(w <= 1_000_000_000_000_000) by (nonlinear_arith)
        requires
            w * den <= 1_000_000_000_000_000,
            den >= 1,
            w >= 1,
    ;
    assert(den <= 1_000_000_000_000_000) by (nonlinear_arith)
        requires
            w * den <= 1_000_000_000_000_000,
            den >= 1,
            w >= 1,
    ;
    let k: nat = if i == 0 {
        pow2(53)
    } else {
        pow2((52 - exponent(i)) as nat)
    };
    if i > 0 {
        let e: nat = exponent(i);
        lemma_exponent_bounds(i);
        if e >= 51 {
            if e > 51 {
                lemma_pow2_strictly_increases(51, e);
            }
            assert(false);
        }
        lemma_pow2_adds((52 - e) as nat, e);
        lemma_pow2_unfold((52 - e) as nat);
        lemma_pow2_unfold((51 - e) as nat);
        lemma_pow2_pos((50 - e) as nat);
        let t: int = pow2(e) as int;
        assert(k * (4 * t) == 4 * (k * t)) by (nonlinear_arith);
        assert(k > den) by (nonlinear_arith)
            requires
                k * t == 0x10_0000_0000_0000,
                t < w,
                w * den <= 1_000_000_000_000_000,
                t >= 1,
                den >= 1,
        {
            if k <= den {
                assert(k * t <= den * w) by (nonlinear_arith)
                    requires
                        k <= den,
                        t < w,
                        t >= 1,
                        den >= 1,
                ;
                assert(den * w == w * den) by (nonlinear_arith);
            }
        }
    } else {
        assert(pow2(53) * 2 == pow2(54));
    }
    lemma_fine(i, num, den, k);
    let m: int = 2 * k as int;
    assert(num * m < (m - 1) * den) by (nonlinear_arith)
        requires
            num + 1 <= den,
            m > den,
    ;
}

/// A large number is left alone or cut down to the largest `u64`.
pub proof fn capped_is_the_lesser(n: nat)
    ensures
        capped(n) == n || capped(n) == 0xffff_ffff_ffff_ffff,
        capped(n) <= n,
        n <= 0xffff_ffff_ffff_ffff ==> capped(n) == n,
{
}

/// `nearest_even` is off by one half at most, and where it is off by one half it is even.
pub proof fn rounding_is_off_by_half_at_most(a: nat, b: nat)
    requires
        b > 0,
    ensures
        ({
            let n: int = nearest_even(a, b) as int;
            &&& 2 * a - b <= 2 * (n * b) <= 2 * a + b
            &&& (2 * (n * b) == 2 * a - b || 2 * (n * b) == 2 * a + b) ==> n % 2 == 0
        }),
{
    let q: int = (a / b) as int;
    let r: int = (a % b) as int;
    vstd::arithmetic::div_mod::lemma_fundamental_div_mod(a as int, b as int);
    assert(b * q == q * b) by (nonlinear_arith);
    assert((q + 1) * b == q * b + b) by (nonlinear_arith);
}

/// The double nearest to a number from `2^e` up to `2^(e+1)` is a multiple `n` of `2^(e-52)`,
/// with 53 significant bits, that lies within half a step of the number, or at half a step
/// with an even `n`. Its whole part is what `double_whole` gives.
pub proof fn doubles_have_53_bits(num: nat, den: nat, e: nat)
    requires
        den > 0,
        pow2(e) * den <= num,
        num < pow2(e + 1) * den,
    ensures
        exists|n: int|
            {
                &&& pow2(52) <= n <= pow2(53)
                &&& 2 * (num * pow2(52)) - pow2(e) * den <= 2 * (n * (pow2(e) * den)) <= 2 * (num
                    * pow2(52)) + pow2(e) * den
                &&& (2 * (n * (pow2(e) * den)) == 2 * (num * pow2(52)) - pow2(e) * den || 2 * (n * (
                pow2(e) * den)) == 2 * (num * pow2(52)) + pow2(e) * den) ==> n % 2 == 0
                &&& double_whole(num, den) == #[trigger] (n * pow2(e)) / pow2(52) as int
            },
{
    let i: nat = num / den;
    let t: int = pow2(e) as int;
    let d: int = den as int;
    let u: int = pow2(52) as int;
    lemma_pow2_pos(e);
    lemma_pow2_pos(52);
    lemma_pow2_unfold(e + 1);
    lemma_pow2_unfold(53);
    lemma_pow2_unfold(54);
    vstd::arithmetic::div_mod::lemma_fundamental_div_mod(num as int, d);
    assert(t <= i < 2 * t) by (nonlinear_arith)
        requires
            num == d * i + num as int % d,
            0 <= num as int % d < d,
            t * d <= num,
            num < (2 * t) * d,
            d > 0,
    ;
    lemma_exponent(i, e);
    let s: nat = spacing(i);
    assert(s == 4 * t);
    assert(num * pow2(54) == (num * pow2(52)) * 4) by (nonlinear_arith)
        requires
            pow2(54) == 4 * pow2(52),
    ;
    assert(den * s == (pow2(e) * den) * 4) by (nonlinear_arith)
        requires
            s == 4 * pow2(e),
    ;
    assert(pow2(e) * den > 0) by (nonlinear_arith)
        requires
            pow2(e) > 0,
            den > 0,
    ;
    let a: nat = num * pow2(52);
    let b: nat = pow2(e) * den;
    lemma_nearest_even_scale(a, b, 4);
    rounding_is_off_by_half_at_most(a, b);
    let n: int = nearest_even(a, b) as int;
    assert(num <= 2 * b) by (nonlinear_arith)
        requires
            num < (2 * t) * d,
            b == t * d,
    ;
    assert(u * b <= a <= (2 * u) * b) by (nonlinear_arith)
        requires
            a == num * u,
            b <= num,
            num <= 2 * b,
            u > 0,
    ;
    let q: int = a as int / b as int;
    vstd::arithmetic::div_mod::lemma_fundamental_div_mod(a as int, b as int);
    assert(u <= q) by (nonlinear_arith)
        requires
            u * b <= a,
            a == b * q + a as int % b as int,
            0 <= a as int % (b as int) < b,
            b > 0,
    ;
    assert(n >= u);
    assert(n <= 2 * u) by (nonlinear_arith)
        requires
            2 * (n * b) <= 2 * a + b,
            a <= (2 * u) * b,
            b > 0,
    ;
    let w: int = n * t;
    assert(n * s == 4 * w) by (nonlinear_arith)
        requires
            s == 4 * t,
            w == n * t,
    ;
    assert((4 * w) / (4 * u) == w / u) by {
        vstd::arithmetic::div_mod::lemma_div_multiples_vanish_quotient(4, w, u);
    }
    assert(double_whole(num, den) == (n * pow2(e)) / pow2(52) as int);
}

/// A number below one is read as one if no double below one is as near, and as zero
/// otherwise.
pub proof fn numbers_below_one(num: nat, den: nat)
    requires
        num < den,
    ensures
        double_whole(num, den) == (if num * pow2(54) >= (pow2(54) - 1) * den {
            1nat
        } else {
            0nat
        }),
{
    lemma_pow2_unfold(53);
    lemma_pow2_unfold(54);
    lemma_pow2_pos(52);
    vstd::arithmetic::div_mod::lemma_basic_div(num as int, den as int);
    assert(pow2(53) * 2 == pow2(54));
    lemma_fine(0, num, den, pow2(53));
    assert(0 * den == 0);
}

} // verus!

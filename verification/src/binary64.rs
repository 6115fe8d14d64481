//! The binary64 (IEEE 754 double precision) values that latencies, spans and
//! sizes are printed from, computed exactly with integers.
//!
//! A binary64 value is kept as a fraction `(numerator, denominator)`. The
//! value nearest to a ratio is rounded to 53 significant binary digits, halves
//! to the even neighbour; printing with two decimals rounds the exact value of
//! that fraction to hundredths, halves to even again.
use vstd::arithmetic::power2::{lemma2_to64, lemma_pow2_adds, lemma_pow2_pos, lemma_pow2_unfold, pow2};
use vstd::prelude::*;

verus! {

/// The rounding of a quotient `q` with remainder `r` by `d` to the nearest
/// whole number, halves to the even neighbour.
pub open spec fn round_at(q: nat, r: nat, d: nat) -> nat {
    if 2 * r > d {
        q + 1
    } else if 2 * r < d {
        q
    } else if q % 2 == 0 {
        q
    } else {
        q + 1
    }
}

/// `n / d` rounded to the nearest whole number, halves to the even neighbour.
pub open spec fn round_half_even(n: nat, d: nat) -> nat {
    round_at(n / d, n % d, d)
}

/// `n / d` rounded to the nearest whole number, halves to the even neighbour.
pub(crate) fn round_half_even_exec(n: u128, d: u128) -> (q: u128)
    requires
        0 < d <= 0x4000_0000_0000_0000_0000_0000_0000_0000,
    ensures
        q == round_half_even(n as nat, d as nat),
{
    let q = n / d;
    let r = n % d;
    if 2 * r > d || (2 * r == d && q % 2 == 1) {
        assert(q <= n / 2) by (nonlinear_arith)
            requires
                q == n / d,
                d >= 2,
        ;
        q + 1
    } else {
        q
    }
}

/// `a * 2^s / b` has exactly 53 binary digits before the point.
pub open spec fn scaled_up(a: nat, b: nat, s: nat) -> bool {
    pow2(52) * b <= a * pow2(s) && a * pow2(s) < pow2(53) * b
}

/// `a / (b * 2^t)` has exactly 53 binary digits before the point.
pub open spec fn scaled_down(a: nat, b: nat, t: nat) -> bool {
    pow2(52) * pow2(t) * b <= a && a < pow2(53) * pow2(t) * b
}

/// The binary64 value nearest to `a / b`, for `b > 0`: below `2^53`, the
/// ratio scaled up by a power of two to 53 binary digits, rounded, over that
/// power; from `2^53` on, the ratio scaled down to 53 binary digits, rounded,
/// and scaled back.
///
/// For `a == 0` the numerator is zero, whatever the denominator.
pub open spec fn nearest(a: nat, b: nat) -> (nat, nat) {
    if a < pow2(53) * b {
        let s = choose|s: nat| scaled_up(a, b, s);
        (round_half_even(a * pow2(s), b), pow2(s))
    } else {
        let t = choose|t: nat| scaled_down(a, b, t);
        (round_half_even(a, b * pow2(t)) * pow2(t), 1)
    }
}

/// The sum of two fractions.
pub open spec fn fraction_sum(x: (nat, nat), y: (nat, nat)) -> (nat, nat) {
    (x.0 * y.1 + y.0 * x.1, x.1 * y.1)
}

/// The fraction `x` in hundredths, rounded half to even: the figures that a
/// two-decimal rendering of `x` shows.
pub open spec fn hundredths(x: (nat, nat)) -> nat {
    round_half_even(x.0 * 100, x.1)
}

proof fn lemma_pow2_52_53()
    ensures
        pow2(52) == 0x10_0000_0000_0000,
        pow2(53) == 0x20_0000_0000_0000,
{
    lemma2_to64();
    lemma_pow2_adds(32, 20);
    lemma_pow2_adds(32, 21);
}

proof fn lemma_pow2_le(e1: nat, e2: nat)
    requires
        e1 <= e2,
    ensures
        pow2(e1) <= pow2(e2),
        pow2(e2) % pow2(e1) == 0,
{
    lemma_pow2_adds(e1, (e2 - e1) as nat);
    lemma_pow2_pos(e1);
    lemma_pow2_pos((e2 - e1) as nat);
    let k = pow2((e2 - e1) as nat);
    assert(pow2(e1) <= pow2(e1) * k) by (nonlinear_arith)
        requires
            k > 0,
    ;
    assert((pow2(e1) * k) % pow2(e1) == 0) by (nonlinear_arith)
        requires
            pow2(e1) > 0,
    ;
}

proof fn lemma_scaled_up_unique(a: nat, b: nat, s1: nat, s2: nat)
    requires
        scaled_up(a, b, s1),
        scaled_up(a, b, s2),
    ensures
        s1 == s2,
{
    if s1 != s2 {
        let (lo, hi) = if s1 < s2 {
            (s1, s2)
        } else {
            (s2, s1)
        };
        lemma_pow2_adds((lo + 1) as nat, (hi - lo - 1) as nat);
        lemma_pow2_unfold((lo + 1) as nat);
        lemma_pow2_pos((hi - lo - 1) as nat);
        lemma_pow2_52_53();
        let k = pow2((hi - lo - 1) as nat);
        let p = pow2(lo);
        assert(a * pow2(hi) == a * p * 2 * k) by (nonlinear_arith)
            requires
                pow2(hi) == 2 * p * k,
        ;
        assert(a * p * 2 * k >= a * p * 2) by (nonlinear_arith)
            requires
                k >= 1,
        ;
        assert(pow2(53) * b == pow2(52) * b * 2) by (nonlinear_arith)
            requires
                pow2(53) == pow2(52) * 2,
        ;
    }
}

proof fn lemma_scaled_down_unique(a: nat, b: nat, t1: nat, t2: nat)
    requires
        scaled_down(a, b, t1),
        scaled_down(a, b, t2),
    ensures
        t1 == t2,
{
    if t1 != t2 {
        let (lo, hi) = if t1 < t2 {
            (t1, t2)
        } else {
            (t2, t1)
        };
        lemma_pow2_adds((lo + 1) as nat, (hi - lo - 1) as nat);
        lemma_pow2_unfold((lo + 1) as nat);
        lemma_pow2_pos((hi - lo - 1) as nat);
        lemma_pow2_52_53();
        let k = pow2((hi - lo - 1) as nat);
        let p = pow2(lo);
        assert(pow2(52) * pow2(hi) * b == pow2(52) * p * b * 2 * k) by (nonlinear_arith)
            requires
                pow2(hi) == 2 * p * k,
        ;
        assert(pow2(52) * p * b * 2 * k >= pow2(52) * p * b * 2) by (nonlinear_arith)
            requires
                k >= 1,
        ;
        assert(pow2(53) * p * b == pow2(52) * p * b * 2) by (nonlinear_arith)
            requires
                pow2(53) == pow2(52) * 2,
        ;
    }
}

/// Scaling numerator and denominator alike leaves the rounding unchanged.
proof fn lemma_round_cancel(n: nat, d: nat, k: nat)
    requires
        d > 0,
        k > 0,
    ensures
        round_half_even(n * k, d * k) == round_half_even(n, d),
{
    let q = n / d;
    let r = n % d;
    assert(n == q * d + r && r < d) by (nonlinear_arith)
        requires
            d > 0,
            q == n / d,
            r == n % d,
    ;
    assert(n * k == q * (d * k) + r * k && r * k < d * k) by (nonlinear_arith)
        requires
            n == q * d + r,
            r < d,
            k > 0,
    ;
    vstd::arithmetic::div_mod::lemma_fundamental_div_mod_converse(
        (n * k) as int,
        (d * k) as int,
        q as int,
        (r * k) as int,
    );
    assert(2 * r > d <==> 2 * (r * k) > d * k) by (nonlinear_arith)
        requires
            k > 0,
    ;
    assert(2 * r < d <==> 2 * (r * k) < d * k) by (nonlinear_arith)
        requires
            k > 0,
    ;
}

/// Adding whole multiples of the divisor adds to the quotient and leaves the
/// remainder.
proof fn lemma_round_shift(a: nat, x: nat, d: nat)
    requires
        d > 0,
    ensures
        round_half_even(a * d + x, d) == round_at(a + x / d, x % d, d),
{
    let q = x / d;
    let r = x % d;
    assert(x == q * d + r && r < d) by (nonlinear_arith)
        requires
            d > 0,
            q == x / d,
            r == x % d,
    ;
    assert(a * d + x == (a + q) * d + r) by (nonlinear_arith)
        requires
            x == q * d + r,
    ;
    vstd::arithmetic::div_mod::lemma_fundamental_div_mod_converse(
        (a * d + x) as int,
        d as int,
        (a + q) as int,
        r as int,
    );
}

/// The scale and the rounded numerator of the binary64 value nearest to
/// `a / b`, for `a / b` below `2^53`.
pub(crate) fn nearest_up(a: u128, b: u128) -> (r: (u128, u128))
    requires
        0 < a,
        0 < b <= 1_000_000_000,
        a < pow2(53) * b,
    ensures
        ({
            let s = choose|s: nat| scaled_up(a as nat, b as nat, s);
            &&& scaled_up(a as nat, b as nat, s)
            &&& r.1 == pow2(s)
            &&& r.0 == round_half_even(a as nat * pow2(s), b as nat)
            &&& (r.0 as nat, r.1 as nat) == nearest(a as nat, b as nat)
        }),
        r.0 <= pow2(53),
        0 < r.1 < 0x8_0000_0000_0000_0000_0000,
{
    proof {
        lemma_pow2_52_53();
        lemma2_to64();
    }
    let lo: u128 = 0x10_0000_0000_0000 * b;
    let hi: u128 = 0x20_0000_0000_0000 * b;
    let mut p: u128 = 1;
    let ghost mut s: nat = 0;
    while a * p < lo
        invariant
            0 < a,
            0 < b <= 1_000_000_000,
            lo == pow2(52) * b,
            hi == pow2(53) * b,
            hi == 2 * lo,
            p == pow2(s),
            0 < p,
            a * p < hi,
        decreases hi - a * p,
    {
        assert(a * (p * 2) == 2 * (a * p)) by (nonlinear_arith);
        assert(a * p < a * (p * 2) && p <= a * p) by (nonlinear_arith)
            requires
                a > 0,
                p > 0,
        ;
        p = p * 2;
        proof {
            lemma_pow2_unfold(s + 1);
            s = s + 1;
        }
    }
    proof {
        assert(scaled_up(a as nat, b as nat, s));
        let s2 = choose|s2: nat| scaled_up(a as nat, b as nat, s2);
        lemma_scaled_up_unique(a as nat, b as nat, s, s2);
    }
    let m = round_half_even_exec(a * p, b);
    proof {
        assert(p < 0x8_0000_0000_0000_0000_0000) by (nonlinear_arith)
            requires
                a >= 1,
                a * p < hi,
                hi == pow2(53) * b,
                b <= 1_000_000_000,
                pow2(53) == 0x20_0000_0000_0000,
        ;
        assert(m <= pow2(53)) by {
            let q = (a * p) as nat / b as nat;
            assert(q < pow2(53)) by (nonlinear_arith)
                requires
                    q == (a * p) as nat / b as nat,
                    a * p < pow2(53) * b,
                    b > 0,
            ;
        }
    }
    (m, p)
}

/// The binary64 value of a whole number, `n as f64`.
pub(crate) fn whole_f64(n: u64) -> (r: (u128, u128))
    requires
        0 < n,
    ensures
        (r.0 as nat, r.1 as nat) == nearest(n as nat, 1),
        n < pow2(53) ==> {
            let s = choose|s: nat| scaled_up(n as nat, 1, s);
            &&& scaled_up(n as nat, 1, s)
            &&& r.1 == pow2(s)
            &&& r.0 == n * pow2(s)
            &&& s <= 52
        },
        n >= pow2(53) ==> {
            let t = choose|t: nat| scaled_down(n as nat, 1, t);
            &&& scaled_down(n as nat, 1, t)
            &&& t >= 1
            &&& r.1 == 1
            &&& r.0 == round_half_even(n as nat, pow2(t)) * pow2(t)
        },
        r.0 < 0x4_0000_0000_0000_0000,
        0 < r.1 < 0x8_0000_0000_0000_0000_0000,
{
    proof {
        lemma_pow2_52_53();
        lemma2_to64();
    }
    if n < 0x20_0000_0000_0000 {
        let (m, p) = nearest_up(n as u128, 1);
        proof {
            let s = choose|s: nat| scaled_up(n as nat, 1, s);
            lemma_pow2_pos(s);
            assert(round_half_even(n as nat * pow2(s), 1) == n * pow2(s)) by (nonlinear_arith);
            if s > 52 {
                lemma_pow2_le(53, s);
                assert(false) by (nonlinear_arith)
                    requires
                        n >= 1,
                        n * pow2(s) < pow2(53),
                        pow2(s) >= pow2(53),
                ;
            }
        }
        (m, p)
    } else {
        let mut p: u128 = 1;
        let ghost mut t: nat = 0;
        while 0x20_0000_0000_0000 * p <= n as u128
            invariant
                p == pow2(t),
                0 < p,
                0x10_0000_0000_0000 * p <= n,
            decreases n - 0x10_0000_0000_0000 * p,
        {
            p = p * 2;
            proof {
                lemma_pow2_unfold(t + 1);
                t = t + 1;
            }
        }
        proof {
            assert(scaled_down(n as nat, 1, t));
            let t2 = choose|t2: nat| scaled_down(n as nat, 1, t2);
            lemma_scaled_down_unique(n as nat, 1, t, t2);
            if t == 0 {
                assert(false);
            }
            assert(n as nat / p as nat <= pow2(53) - 1) by (nonlinear_arith)
                requires
                    n < pow2(53) * p,
                    p > 0,
            ;
        }
        let q = round_half_even_exec(n as u128, p);
        proof {
            let nq = n as nat / p as nat;
            assert(q * p < 0x4_0000_0000_0000_0000) by (nonlinear_arith)
                requires
                    q <= nq + 1,
                    nq == n as nat / p as nat,
                    p > 0,
                    0x10_0000_0000_0000 * p <= n,
                    n < 0x1_0000_0000_0000_0000,
            ;
        }
        (q * p, 1)
    }
}

/// `Duration::as_secs_f64` of a span of `secs` seconds and `nanos`
/// nanoseconds: the seconds as a binary64 plus the nanoseconds as a binary64
/// divided by 10^9, the quotient and the sum each rounded to binary64. A part
/// that is zero adds nothing.
pub open spec fn secs_f64(secs: nat, nanos: nat) -> (nat, nat) {
    let whole = nearest(secs, 1);
    let frac = nearest(nanos, 1_000_000_000);
    if nanos == 0 {
        whole
    } else if secs == 0 {
        frac
    } else {
        let sum = fraction_sum(whole, frac);
        nearest(sum.0, sum.1)
    }
}

proof fn lemma_round_by_one(n: nat)
    ensures
        round_half_even(n, 1) == n,
{
    assert(n / 1 == n && n % 1 == 0) by (nonlinear_arith);
}

/// The binary64 nearest to a fraction of a second stays below one.
proof fn lemma_fraction_below_one(nanos: nat, sf: nat)
    requires
        0 < nanos < 1_000_000_000,
        scaled_up(nanos, 1_000_000_000, sf),
    ensures
        round_half_even(nanos * pow2(sf), 1_000_000_000) < pow2(sf),
        pow2(sf) > 1_000_000_000,
{
    lemma_pow2_52_53();
    let pf = pow2(sf);
    let n = nanos * pf;
    assert(pf > 1_000_000_000) by (nonlinear_arith)
        requires
            pow2(52) * 1_000_000_000 <= nanos * pf,
            nanos < 1_000_000_000,
            pow2(52) == 0x10_0000_0000_0000,
    ;
    assert(n < 1_000_000_000 * (pf - 1)) by (nonlinear_arith)
        requires
            n == nanos * pf,
            nanos <= 999_999_999,
            pf > 1_000_000_000,
    ;
    let q = n / 1_000_000_000;
    assert(q < pf - 1);
}

proof fn lemma_below_power(w: nat, k: nat, s: nat)
    requires
        w * pow2(s) < pow2(53),
        k == pow2((53 - s) as nat),
        s <= 53,
    ensures
        w * pow2(s) + pow2(s) <= pow2(53),
{
    lemma_pow2_adds(s, (53 - s) as nat);
    lemma_pow2_pos(s);
    let p = pow2(s);
    assert(w < k) by (nonlinear_arith)
        requires
            w * p < p * k,
            p > 0,
    ;
    assert(w * p + p <= k * p) by (nonlinear_arith)
        requires
            w + 1 <= k,
    ;
}

/// Whole seconds below 2^53 are held exactly; adding a fraction below one
/// keeps their scale, and the sum is rounded at the scale of the seconds.
proof fn lemma_small_sum(secs: nat, nanos: nat, s: nat, sf: nat)
    requires
        0 < secs < pow2(53),
        0 < nanos < 1_000_000_000,
        scaled_up(secs, 1, s),
        scaled_up(nanos, 1_000_000_000, sf),
    ensures
        ({
            let mf = round_half_even(nanos * pow2(sf), 1_000_000_000);
            let x = mf * pow2(s);
            secs_f64(secs, nanos) == (
            round_at(secs * pow2(s) + x / pow2(sf), x % pow2(sf), pow2(sf)),
            pow2(s),
            )
        }),
{
    lemma_pow2_52_53();
    let p = pow2(s);
    let pf = pow2(sf);
    lemma_pow2_pos(sf);
    lemma_pow2_pos(s);
    let s1 = choose|u: nat| scaled_up(secs, 1, u);
    lemma_scaled_up_unique(secs, 1, s, s1);
    let sf1 = choose|u: nat| scaled_up(nanos, 1_000_000_000, u);
    lemma_scaled_up_unique(nanos, 1_000_000_000, sf, sf1);
    let w = secs * p;
    lemma_round_by_one(w);
    if s > 52 {
        lemma_pow2_le(53, s);
        assert(false) by (nonlinear_arith)
            requires
                secs >= 1,
                secs * p < pow2(53),
                p >= pow2(53),
        ;
    }
    lemma_below_power(secs, pow2((53 - s) as nat), s);
    lemma_fraction_below_one(nanos, sf);
    let mf = round_half_even(nanos * pf, 1_000_000_000);
    let a = w * pf + mf * p;
    let b = p * pf;
    assert(pow2(52) * b <= a * p && a * p < pow2(53) * b && a < pow2(53) * b) by (nonlinear_arith)
        requires
            pow2(52) <= w,
            w + p <= pow2(53),
            mf < pf,
            p >= 1,
            a == w * pf + mf * p,
            b == p * pf,
    ;
    assert(fraction_sum((w, p), (mf, pf)) == (a, b));
    assert(scaled_up(a, b, s));
    let s2 = choose|u: nat| scaled_up(a, b, u);
    lemma_scaled_up_unique(a, b, s, s2);
    assert(a * p == (w * pf + mf * p) * p && b == pf * p) by (nonlinear_arith)
        requires
            a == w * pf + mf * p,
            b == p * pf,
    ;
    lemma_round_cancel(w * pf + mf * p, pf, p);
    lemma_round_shift(w, mf * p, pf);
}

/// Whole seconds from 2^53 on are rounded to a multiple of two or more;
/// adding a fraction below one leaves that value.
proof fn lemma_large_sum(secs: nat, nanos: nat, t: nat, sf: nat)
    requires
        0 < nanos < 1_000_000_000,
        scaled_down(secs, 1, t),
        t >= 1,
        scaled_up(nanos, 1_000_000_000, sf),
    ensures
        secs_f64(secs, nanos) == (round_half_even(secs, pow2(t)) * pow2(t), 1nat),
{
    lemma_pow2_52_53();
    lemma2_to64();
    let pt = pow2(t);
    let pf = pow2(sf);
    lemma_pow2_pos(t);
    lemma_pow2_pos(sf);
    lemma_pow2_le(1, t);
    assert(secs >= pow2(53) * 1) by (nonlinear_arith)
        requires
            pow2(52) * pt * 1 <= secs,
            pt >= 2,
            pow2(53) == 2 * pow2(52),
    ;
    let t1 = choose|u: nat| scaled_down(secs, 1, u);
    lemma_scaled_down_unique(secs, 1, t, t1);
    let sf1 = choose|u: nat| scaled_up(nanos, 1_000_000_000, u);
    lemma_scaled_up_unique(nanos, 1_000_000_000, sf, sf1);
    lemma_fraction_below_one(nanos, sf);
    let mf = round_half_even(nanos * pf, 1_000_000_000);
    let q0 = secs / pt;
    assert(pow2(52) <= q0 && q0 < pow2(53)) by (nonlinear_arith)
        requires
            pow2(52) * pt * 1 <= secs,
            secs < pow2(53) * pt * 1,
            q0 == secs / pt,
            pt > 0,
    ;
    let q = round_half_even(secs, 1 * pt);
    let v = q * pt;
    let (q2, t2) = if q < pow2(53) {
        (q, t)
    } else {
        (pow2(52), t + 1)
    };
    let p2 = pow2(t2);
    lemma_pow2_unfold(t + 1);
    assert(v == q2 * p2) by (nonlinear_arith)
        requires
            v == q * pt,
            q < pow2(53) ==> q2 == q && p2 == pt,
            q >= pow2(53) ==> q == pow2(53) && q2 == pow2(52) && p2 == 2 * pt,
            pow2(53) == 2 * pow2(52),
    ;
    lemma_pow2_le(1, t2);
    let a = v * pf + mf;
    let d = pf * p2;
    assert(pow2(52) * p2 * pf <= a && a < pow2(53) * p2 * pf && a >= pow2(53) * pf && a == q2 * d
        + mf && 2 * mf < d) by (nonlinear_arith)
        requires
            pow2(52) <= q2 < pow2(53),
            v == q2 * p2,
            a == v * pf + mf,
            d == pf * p2,
            mf < pf,
            p2 >= 2,
            pow2(53) == 2 * pow2(52),
    ;
    assert(fraction_sum((v, 1nat), (mf, pf)).0 == a && fraction_sum((v, 1nat), (mf, pf)).1 == pf)
        by (nonlinear_arith)
        requires
            a == v * pf + mf,
    ;
    assert(scaled_down(a, pf, t2));
    let t3 = choose|u: nat| scaled_down(a, pf, u);
    lemma_scaled_down_unique(a, pf, t2, t3);
    lemma_round_shift(q2, mf, d);
    vstd::arithmetic::div_mod::lemma_fundamental_div_mod_converse(mf as int, d as int, 0, mf as int);
}

/// 2^53, the first whole number past the binary64 digits.
pub(crate) proof fn lemma_pow2_53()
    ensures
        pow2(53) == 0x20_0000_0000_0000,
{
    lemma_pow2_52_53();
}

/// The hundredths that `Duration::as_secs_f64` shows with two decimals, for
/// `secs` seconds and `nanos` nanoseconds.
pub(crate) fn secs_hundredths(secs: u64, nanos: u32) -> (h: u128)
    requires
        nanos < 1_000_000_000,
    ensures
        h == hundredths(secs_f64(secs as nat, nanos as nat)),
{
    proof {
        lemma_pow2_52_53();
        lemma2_to64();
    }
    if nanos == 0 {
        if secs == 0 {
            proof {
                let s = choose|s: nat| scaled_up(0, 1, s);
                lemma_pow2_pos(s);
                assert(0nat * pow2(s) == 0);
                assert(0nat / pow2(s) == 0 && 0nat % pow2(s) == 0) by (nonlinear_arith)
                    requires
                        pow2(s) > 0,
                ;
                lemma_round_by_one(0);
            }
            return 0;
        }
        let (w, p) = whole_f64(secs);
        return round_half_even_exec(w * 100, p);
    }
    let (mf, pf) = nearest_up(nanos as u128, 1_000_000_000);
    if secs == 0 {
        return round_half_even_exec(mf * 100, pf);
    }
    let (w, p) = whole_f64(secs);
    if secs < 0x20_0000_0000_0000 {
        let ghost s = choose|s: nat| scaled_up(secs as nat, 1, s);
        let ghost sf = choose|s: nat| scaled_up(nanos as nat, 1_000_000_000, s);
        proof {
            lemma_small_sum(secs as nat, nanos as nat, s, sf);
            lemma_pow2_le(s, 52);
            lemma_fraction_below_one(nanos as nat, sf);
            assert(mf * p <= 0x20_0000_0000_0000 * 0x10_0000_0000_0000 && mf * p < pf * p) by (
            nonlinear_arith)
                requires
                    mf <= 0x20_0000_0000_0000,
                    p <= 0x10_0000_0000_0000,
                    mf < pf,
                    p > 0,
            ;
        }
        let x = mf * p;
        let q = x / pf;
        let r = x % pf;
        proof {
            assert(q < p) by (nonlinear_arith)
                requires
                    q == x / pf,
                    x < pf * p,
                    pf > 0,
            ;
        }
        let base = w + q;
        let m = if 2 * r > pf || (2 * r == pf && base % 2 == 1) {
            base + 1
        } else {
            base
        };
        round_half_even_exec(m * 100, p)
    } else {
        let ghost t = choose|t: nat| scaled_down(secs as nat, 1, t);
        let ghost sf = choose|s: nat| scaled_up(nanos as nat, 1_000_000_000, s);
        proof {
            lemma_large_sum(secs as nat, nanos as nat, t, sf);
            lemma_round_by_one((w * 100) as nat);
        }
        w * 100
    }
}

/// `bytes as f64 / 1048576.0`: the count as a binary64, divided by 2^20,
/// which a binary64 division by a power of two does exactly.
pub open spec fn mebibytes_f64(bytes: nat) -> (nat, nat) {
    let w = nearest(bytes, 1);
    (w.0, w.1 * 1_048_576)
}

/// The hundredths that `bytes as f64 / 1048576.0` shows with two decimals.
pub(crate) fn mebibytes_hundredths(bytes: u64) -> (h: u128)
    ensures
        h == hundredths(mebibytes_f64(bytes as nat)),
{
    if bytes == 0 {
        proof {
            let s = choose|s: nat| scaled_up(0, 1, s);
            lemma_pow2_pos(s);
            assert(0nat * pow2(s) == 0);
            let d = pow2(s) * 1_048_576;
            assert(0nat / d == 0 && 0nat % d == 0) by (nonlinear_arith)
                requires
                    d > 0,
            ;
            lemma_round_by_one(0);
            lemma_pow2_52_53();
        }
        return 0;
    }
    let (w, p) = whole_f64(bytes);
    round_half_even_exec(w * 100, p * 1_048_576)
}

} // verus!

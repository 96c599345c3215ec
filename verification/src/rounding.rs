//! Binary64 round-to-nearest, in integers. A positive ratio `p / q` becomes
//! the nearest number with a 53-bit mantissa (ties to an even mantissa), as
//! IEEE 754 double-precision division and multiplication produce it in the
//! normal range. A number is held as a mantissa `m` and a binade `j`,
//! standing for `m * 2^(j - 128)`; the offset keeps every exponent natural.
use vstd::prelude::*;
use vstd::arithmetic::power2::{
    pow2, lemma_pow2_pos, lemma_pow2_adds, lemma_pow2_unfold, lemma_pow2_strictly_increases,
    lemma2_to64, lemma2_to64_rest,
};
use vstd::arithmetic::div_mod::{lemma_fundamental_div_mod, lemma_fundamental_div_mod_converse};

verus! {

/// Whether the mantissas of unit `2^(j - 128)` with exactly 53 bits span
/// `p / q`: `2^52 <= p / (q * 2^(j - 128)) < 2^53`.
pub open spec fn in_binade(p: nat, q: nat, j: nat) -> bool {
    &&& pow2(52) * (q * pow2(j)) <= p * pow2(128)
    &&& p * pow2(128) < pow2(53) * (q * pow2(j))
}

/// The binade of `p / q` (unique where one exists, see `lemma_binade_unique`).
pub open spec fn binade(p: nat, q: nat) -> nat {
    choose|j: nat| in_binade(p, q, j)
}

/// `n / d` rounded to the nearest integer, ties to the even one.
pub open spec fn round_half_even(n: nat, d: nat) -> nat {
    let f = n / d;
    let r = n % d;
    if 2 * r < d {
        f
    } else if 2 * r > d {
        f + 1
    } else if f % 2 == 0 {
        f
    } else {
        f + 1
    }
}

/// The mantissa of the binary64 number nearest to `p / q`, in units of
/// `2^(binade(p, q) - 128)`.
pub open spec fn nearest_mantissa(p: nat, q: nat) -> nat {
    round_half_even(p * pow2(128), q * pow2(binade(p, q)))
}

/// The floor of the binary64 number nearest to `p / q`; zero for `p == 0`.
pub open spec fn floor_of_nearest(p: nat, q: nat) -> nat {
    if p == 0 {
        0
    } else {
        nearest_mantissa(p, q) * pow2(binade(p, q)) / pow2(128)
    }
}

/// Scaling numerator and denominator by `c` scales the remainder and keeps
/// the quotient.
proof fn lemma_scaled_div_mod(n: nat, d: nat, c: nat)
    requires
        d > 0,
        c > 0,
    ensures
        (n * c) / (d * c) == n / d,
        (n * c) % (d * c) == (n % d) * c,
{
    let f = n / d;
    let r = n % d;
    lemma_fundamental_div_mod(n as int, d as int);
    assert(n == f * d + r);
    assert(n * c == f * (d * c) + r * c) by (nonlinear_arith)
        requires
            n == f * d + r,
    ;
    assert(r * c < d * c) by (nonlinear_arith)
        requires
            r < d,
            c > 0,
    ;
    assert(0 <= r * c) by (nonlinear_arith)
        requires
            0 <= r,
            c > 0,
    ;
    lemma_fundamental_div_mod_converse((n * c) as int, (d * c) as int, f as int, (r * c) as int);
}

/// Rounding is unchanged by scaling numerator and denominator alike.
proof fn lemma_round_scaled(n: nat, d: nat, c: nat)
    requires
        d > 0,
        c > 0,
    ensures
        round_half_even(n * c, d * c) == round_half_even(n, d),
{
    lemma_scaled_div_mod(n, d, c);
    let r = n % d;
    assert(2 * r < d <==> 2 * (r * c) < d * c) by (nonlinear_arith)
        requires
            c > 0,
    ;
    assert(2 * r > d <==> 2 * (r * c) > d * c) by (nonlinear_arith)
        requires
            c > 0,
    ;
}

/// `2^(a + 1 + b) >= 2 * 2^a`.
proof fn lemma_pow2_doubles_past(a: nat, b: nat)
    ensures
        pow2(a + 1 + b) >= 2 * pow2(a),
{
    lemma_pow2_adds(a + 1, b);
    lemma_pow2_unfold(a + 1);
    lemma_pow2_pos(b);
    assert(pow2((a + 1) as nat) == 2 * pow2(a));
    assert(pow2(a + 1) * pow2(b) >= pow2(a + 1)) by (nonlinear_arith)
        requires
            pow2(b) >= 1,
    ;
}

/// A ratio lies in at most one binade.
pub proof fn lemma_binade_unique(p: nat, q: nat, j1: nat, j2: nat)
    requires
        q > 0,
        in_binade(p, q, j1),
        in_binade(p, q, j2),
    ensures
        j1 == j2,
{
    if j1 != j2 {
        let (lo, hi) = if j1 < j2 {
            (j1, j2)
        } else {
            (j2, j1)
        };
        lemma_pow2_doubles_past(lo, (hi - lo - 1) as nat);
        assert(lo + 1 + (hi - lo - 1) == hi);
        lemma_pow2_unfold(53);
        let a = pow2(lo);
        let b = pow2(hi);
        assert(pow2(52) * (q * b) >= pow2(53) * (q * a)) by (nonlinear_arith)
            requires
                b >= 2 * a,
                pow2(53) == 2 * pow2(52),
                q > 0,
                pow2(52) > 0,
        ;
    }
}

/// Scaling `p` and `q` alike keeps the binade.
proof fn lemma_binade_scaled(p: nat, q: nat, c: nat, j: nat)
    requires
        c > 0,
    ensures
        in_binade(p * c, q * c, j) <==> in_binade(p, q, j),
{
    let t = pow2(128);
    let u = pow2(j);
    let lo = pow2(52);
    let hi = pow2(53);
    assert(lo * ((q * c) * u) == (lo * (q * u)) * c) by (nonlinear_arith);
    assert(hi * ((q * c) * u) == (hi * (q * u)) * c) by (nonlinear_arith);
    assert((p * c) * t == (p * t) * c) by (nonlinear_arith);
    assert(lo * (q * u) <= p * t <==> (lo * (q * u)) * c <= (p * t) * c) by (nonlinear_arith)
        requires
            c > 0,
    ;
    assert(p * t < hi * (q * u) <==> (p * t) * c < (hi * (q * u)) * c) by (nonlinear_arith)
        requires
            c > 0,
    ;
}

/// The nearest binary64 number, and so its floor, is unchanged by scaling
/// `p` and `q` alike.
pub proof fn lemma_floor_of_nearest_scaled(p: nat, q: nat, c: nat)
    requires
        q > 0,
        c > 0,
        exists|j: nat| in_binade(p, q, j),
    ensures
        floor_of_nearest(p * c, q * c) == floor_of_nearest(p, q),
{
    if p > 0 {
        let j = binade(p, q);
        assert(in_binade(p, q, j));
        lemma_binade_scaled(p, q, c, j);
        assert(in_binade(p * c, q * c, j));
        let j2 = binade(p * c, q * c);
        assert(in_binade(p * c, q * c, j2));
        lemma_binade_scaled(p, q, c, j2);
        lemma_binade_unique(p, q, j, j2);
        lemma_pow2_pos(j);
        lemma_pow2_pos(128);
        assert((p * c) * pow2(128) == (p * pow2(128)) * c) by (nonlinear_arith);
        assert((q * c) * pow2(j) == (q * pow2(j)) * c) by (nonlinear_arith);
        assert(q * pow2(j) > 0) by (nonlinear_arith)
            requires
                q > 0,
                pow2(j) > 0,
        ;
        lemma_round_scaled(p * pow2(128), q * pow2(j), c);
        assert(p * c > 0) by (nonlinear_arith)
            requires
                p > 0,
                c > 0,
        ;
    }
}

/// Rounding depends on the ratio alone, not on how it is written.
proof fn lemma_round_same_ratio(x: nat, y: nat, x2: nat, y2: nat)
    requires
        y > 0,
        y2 > 0,
        x * y2 == x2 * y,
    ensures
        round_half_even(x, y) == round_half_even(x2, y2),
{
    lemma_round_scaled(x, y, y2);
    lemma_round_scaled(x2, y2, y);
    assert(y * y2 == y2 * y) by (nonlinear_arith);
}

/// Some binade holds `p / q` when it is at least `2^-76`, found by walking
/// up from binade `j`.
proof fn lemma_binade_found_from(p: nat, q: nat, j: nat)
    requires
        q > 0,
        pow2(52) * (q * pow2(j)) <= p * pow2(128),
    ensures
        exists|k: nat| in_binade(p, q, k),
    decreases p * pow2(128) - pow2(52) * (q * pow2(j)),
{
    if !in_binade(p, q, j) {
        lemma_pow2_unfold(j + 1);
        lemma_pow2_unfold(53);
        lemma_pow2_pos(j);
        lemma_pow2_pos(52);
        assert(pow2(52) * (q * pow2(j + 1)) == pow2(53) * (q * pow2(j))) by (nonlinear_arith)
            requires
                pow2(j + 1) == 2 * pow2(j),
                pow2(53) == 2 * pow2(52),
        ;
        assert(pow2(52) * (q * pow2(j)) < pow2(53) * (q * pow2(j))) by (nonlinear_arith)
            requires
                pow2(53) == 2 * pow2(52),
                pow2(52) > 0,
                pow2(j) > 0,
                q > 0,
        ;
        lemma_binade_found_from(p, q, j + 1);
    }
}

/// Every ratio of at least `2^-76` lies in a binade.
pub proof fn lemma_binade_exists(p: nat, q: nat)
    requires
        q > 0,
        pow2(52) * q <= p * pow2(128),
    ensures
        exists|j: nat| in_binade(p, q, j),
{
    lemma2_to64();
    assert(q * pow2(0) == q);
    lemma_binade_found_from(p, q, 0);
}

/// A ratio `a / 2^e` with fewer than 54 mantissa bits is a binary64 number:
/// rounding leaves it exactly as it is.
pub proof fn lemma_nearest_exact(p: nat, q: nat, a: nat, e: nat)
    requires
        q > 0,
        0 < a < pow2(53),
        e <= 128,
        p * pow2(e) == a * q,
        exists|j: nat| in_binade(p, q, j),
    ensures
        nearest_mantissa(p, q) * pow2(binade(p, q)) * q == p * pow2(128),
{
    let j = binade(p, q);
    assert(in_binade(p, q, j));
    lemma_pow2_pos(e);
    lemma_pow2_pos(j);
    lemma_pow2_pos(52);
    lemma_pow2_unfold(53);
    if j + e > 128 {
        lemma_pow2_doubles_past(128, (j + e - 129) as nat);
        assert(128 + 1 + (j + e - 129) == j + e);
        lemma_pow2_adds(j, e);
        assert(pow2(52) * (q * pow2(j)) * pow2(e) <= p * pow2(128) * pow2(e)) by (nonlinear_arith)
            requires
                pow2(52) * (q * pow2(j)) <= p * pow2(128),
                pow2(e) > 0,
        ;
        assert(pow2(52) * pow2(j + e) * q <= a * pow2(128) * q) by (nonlinear_arith)
            requires
                pow2(52) * (q * pow2(j)) * pow2(e) <= p * pow2(128) * pow2(e),
                pow2(j + e) == pow2(j) * pow2(e),
                p * pow2(e) == a * q,
        ;
        assert(pow2(53) * pow2(128) <= a * pow2(128)) by (nonlinear_arith)
            requires
                pow2(52) * pow2(j + e) * q <= a * pow2(128) * q,
                pow2(j + e) >= 2 * pow2(128),
                pow2(53) == 2 * pow2(52),
                q > 0,
        ;
        lemma_pow2_pos(128);
        assert(pow2(53) <= a) by (nonlinear_arith)
            requires
                pow2(53) * pow2(128) <= a * pow2(128),
                pow2(128) > 0,
        ;
    }
    let t = (128 - j - e) as nat;
    lemma_pow2_adds(e, t);
    lemma_pow2_adds(e + t, j);
    assert(e + t + j == 128);
    let d = q * pow2(j);
    let n = p * pow2(128);
    let m = a * pow2(t);
    assert(n == m * d) by (nonlinear_arith)
        requires
            pow2(128) == pow2(e + t) * pow2(j),
            pow2(e + t) == pow2(e) * pow2(t),
            p * pow2(e) == a * q,
            n == p * pow2(128),
            m == a * pow2(t),
            d == q * pow2(j),
    ;
    assert(d > 0) by (nonlinear_arith)
        requires
            q > 0,
            pow2(j) > 0,
            d == q * pow2(j),
    ;
    lemma_fundamental_div_mod_converse(n as int, d as int, m as int, 0);
    assert(nearest_mantissa(p, q) == m);
    assert(m * pow2(j) * q == n) by (nonlinear_arith)
        requires
            n == m * d,
            d == q * pow2(j),
    ;
}

/// Where `p / q` equals `a / b` with `a` below `2^53`, the floor of the
/// binary64 number nearest to it is the floor of the exact ratio: rounding
/// never carries such a ratio across an integer.
pub proof fn lemma_floor_of_nearest_exact(p: nat, q: nat, a: nat, b: nat)
    requires
        p > 0,
        q > 0,
        b > 0,
        a < pow2(53),
        p * b == a * q,
        exists|j: nat| in_binade(p, q, j),
    ensures
        floor_of_nearest(p, q) == a / b,
{
    let j = binade(p, q);
    assert(in_binade(p, q, j));
    lemma_pow2_pos(j);
    lemma_pow2_pos(52);
    lemma_pow2_pos(128);
    lemma_pow2_unfold(53);
    assert(p < pow2(53) * q) by (nonlinear_arith)
        requires
            p * b == a * q,
            a < pow2(53),
            b >= 1,
            q > 0,
    ;
    if j > 128 {
        lemma_pow2_doubles_past(128, (j - 129) as nat);
        assert(128 + 1 + (j - 129) == j);
        assert(false) by (nonlinear_arith)
            requires
                pow2(52) * (q * pow2(j)) <= p * pow2(128),
                pow2(j) >= 2 * pow2(128),
                p < pow2(53) * q,
                pow2(53) == 2 * pow2(52),
                pow2(128) > 0,
                pow2(52) > 0,
        ;
    }
    let s = (128 - j) as nat;
    let u = pow2(s);
    let w = pow2(j);
    lemma_pow2_adds(s, j);
    assert(s + j == 128);
    lemma_pow2_pos(s);
    // The mantissa, written over `b`.
    assert(p * pow2(128) == (p * u) * w) by (nonlinear_arith)
        requires
            pow2(128) == u * w,
    ;
    lemma_round_scaled(p * u, q, w);
    assert(q * w == q * pow2(j));
    assert((p * u) * b == (a * u) * q) by (nonlinear_arith)
        requires
            p * b == a * q,
    ;
    lemma_round_same_ratio(p * u, q, a * u, b);
    let m = round_half_even(a * u, b);
    assert(nearest_mantissa(p, q) == m);
    // The floor, as `m / u`.
    lemma_scaled_div_mod(m, u, w);
    assert(m * pow2(j) == m * w);
    assert(floor_of_nearest(p, q) == m / u);
    // The binade, written over `b`.
    assert(pow2(52) * b <= a * u) by (nonlinear_arith)
        requires
            pow2(52) * (q * w) <= p * pow2(128),
            pow2(128) == u * w,
            p * b == a * q,
            w > 0,
            q > 0,
            b > 0,
    ;
    let x = a * u;
    lemma_fundamental_div_mod(x as int, b as int);
    let f = x / b;
    let r = x % b;
    vstd::arithmetic::div_mod::lemma_div_denominator(x as int, b as int, u as int);
    lemma_scaled_div_mod(a, b, u);
    assert(b * u == u * b) by (nonlinear_arith);
    assert(f / u == a / b);
    if m != f {
        assert(m == f + 1);
        assert(2 * r >= b);
        lemma_fundamental_div_mod(f as int, u as int);
        let d = f / u;
        let e = f % u;
        if e + 1 < u {
            lemma_fundamental_div_mod_converse((f + 1) as int, u as int, d as int, (e + 1) as int);
        } else {
            // Here `f + 1` is a multiple of `u`, which forces `a` past 53 bits.
            assert(f + 1 == (d + 1) * u) by (nonlinear_arith)
                requires
                    f == u * d + e,
                    e + 1 == u,
            ;
            assert(r > 0);
            assert(u * ((d + 1) * b - a) == b - r) by (nonlinear_arith)
                requires
                    x == b * f + r,
                    x == a * u,
                    f + 1 == (d + 1) * u,
            ;
            let k: int = (d + 1) * b - a;
            assert(k >= 1) by (nonlinear_arith)
                requires
                    u * k == b - r,
                    r < b,
                    u > 0,
            ;
            assert(u <= u * k) by (nonlinear_arith)
                requires
                    k >= 1,
                    u > 0,
            ;
            assert(2 * u <= b);
            assert(false) by (nonlinear_arith)
                requires
                    2 * u <= b,
                    pow2(52) * b <= a * u,
                    a < pow2(53),
                    pow2(53) == 2 * pow2(52),
                    u > 0,
                    pow2(52) > 0,
            ;
        }
    }
}

/// Rounding to nearest is off by at most half the denominator.
proof fn lemma_round_error(n: nat, d: nat)
    requires
        d > 0,
    ensures
        2 * round_half_even(n, d) * d <= 2 * n + d,
        2 * n <= 2 * round_half_even(n, d) * d + d,
{
    lemma_fundamental_div_mod(n as int, d as int);
    let f = n / d;
    let r = n % d;
    let m = round_half_even(n, d);
    assert(m == f || (m == f + 1 && 2 * r >= d));
    if m == f {
        assert(2 * r <= d);
        assert(m * d == f * d) by (nonlinear_arith)
            requires
                m == f,
        ;
    } else {
        assert(m * d == f * d + d) by (nonlinear_arith)
            requires
                m == f + 1,
        ;
    }
    assert(f * d == d * f) by (nonlinear_arith);
    assert(2 * m * d == 2 * (m * d)) by (nonlinear_arith);
    assert(n == d * f + r);
    if m == f {
        assert(2 * (m * d) <= 2 * n + d);
        assert(2 * n <= 2 * (m * d) + d);
    } else {
        assert(2 * (m * d) <= 2 * n + d);
        assert(2 * n <= 2 * (m * d) + d);
    }
}

/// The binary64 number nearest to `p / q` is within a relative `2^-53` of
/// it: with `v` its value times `2^128`,
/// `(2^53 - 1) * p * 2^128 <= 2^53 * v * q <= (2^53 + 1) * p * 2^128`.
pub proof fn lemma_nearest_error(p: nat, q: nat)
    requires
        q > 0,
        exists|j: nat| in_binade(p, q, j),
    ensures
        pow2(53) * (nearest_mantissa(p, q) * pow2(binade(p, q)) * q) <= (pow2(53) + 1) * (p
            * pow2(128)),
        (pow2(53) - 1) * (p * pow2(128)) <= pow2(53) * (nearest_mantissa(p, q) * pow2(
            binade(p, q),
        ) * q),
{
    let j = binade(p, q);
    assert(in_binade(p, q, j));
    lemma_pow2_pos(j);
    lemma_pow2_unfold(53);
    let d = q * pow2(j);
    let n = p * pow2(128);
    let m = nearest_mantissa(p, q);
    assert(d > 0) by (nonlinear_arith)
        requires
            q > 0,
            pow2(j) > 0,
            d == q * pow2(j),
    ;
    lemma_round_error(n, d);
    assert(m * pow2(j) * q == m * d) by (nonlinear_arith)
        requires
            d == q * pow2(j),
    ;
    assert(pow2(53) * (m * d) <= (pow2(53) + 1) * n) by (nonlinear_arith)
        requires
            2 * m * d <= 2 * n + d,
            pow2(52) * d <= n,
            pow2(53) == 2 * pow2(52),
    ;
    assert((pow2(53) - 1) * n <= pow2(53) * (m * d)) by (nonlinear_arith)
        requires
            2 * n <= 2 * m * d + d,
            pow2(52) * d <= n,
            pow2(53) == 2 * pow2(52),
    ;
}

/// `2^52`, the least 53-bit mantissa.
pub const TWO_POW_52: u128 = 0x10_0000_0000_0000;

/// The powers of two that bound the arguments below.
proof fn lemma_powers()
    ensures
        pow2(52) == 0x10_0000_0000_0000,
        pow2(53) == 0x20_0000_0000_0000,
        pow2(68) == 0x10_0000_0000_0000_0000,
        pow2(120) == 0x100_0000_0000_0000_0000_0000_0000_0000,
        pow2(128) > 0,
        pow2(0) == 1,
{
    lemma2_to64();
    lemma2_to64_rest();
    lemma_pow2_adds(64, 4);
    lemma_pow2_adds(64, 56);
    lemma_pow2_pos(128);
}

/// `2^a <= 2^b` only where `a <= b`.
proof fn lemma_pow2_le_inv(a: nat, b: nat)
    requires
        pow2(a) <= pow2(b),
    ensures
        a <= b,
{
    if a > b {
        lemma_pow2_strictly_increases(b, a);
    }
}

/// The binade index of a result of `nearest`: `128 + e` above the offset,
/// `128 - e` below it.
pub open spec fn binade_index(up: bool, e: u32) -> nat {
    if up {
        (128 + e) as nat
    } else {
        (128 - e) as nat
    }
}

/// `n / d` rounded to the nearest integer, ties to even.
fn round_div(n: u128, d: u128) -> (r: u128)
    requires
        d > 0,
        n < 0x8000_0000_0000_0000_0000_0000_0000_0000,
        d < 0x8000_0000_0000_0000_0000_0000_0000_0000,
    ensures
        r == round_half_even(n as nat, d as nat),
{
    let f = n / d;
    let rem = n % d;
    if 2 * rem < d {
        f
    } else if 2 * rem > d {
        f + 1
    } else if f % 2 == 0 {
        f
    } else {
        f + 1
    }
}

/// The quotient of `n` by `d` has 53 bits where `n` lies between `2^52 d`
/// and `2^53 d`, so its rounding is a 53-bit mantissa or `2^53`.
proof fn lemma_mantissa_range(n: nat, d: nat)
    requires
        d > 0,
        pow2(52) * d <= n,
        n < pow2(53) * d,
    ensures
        pow2(52) <= round_half_even(n, d) <= pow2(53),
{
    lemma_fundamental_div_mod(n as int, d as int);
    let f = n / d;
    let r = n % d;
    let a = pow2(52);
    let b = pow2(53);
    assert(a <= f && f < b) by (nonlinear_arith)
        requires
            n == d * f + r,
            0 <= r < d,
            a * d <= n,
            n < b * d,
            d > 0,
    ;
}

/// The binary64 number nearest to `p / q`: its mantissa `m`, whether its
/// binade lies at or above the offset (`up`), the distance `e` of the binade
/// from the offset, and `2^e`.
pub fn nearest(p: u128, q: u128) -> (r: (u128, bool, u32, u128))
    requires
        0 < p < pow2(120),
        0 < q < pow2(68),
        pow2(52) * q <= p * pow2(128),
    ensures
        in_binade(p as nat, q as nat, binade_index(r.1, r.2)),
        binade(p as nat, q as nat) == binade_index(r.1, r.2),
        r.0 == nearest_mantissa(p as nat, q as nat),
        pow2(52) <= r.0 <= pow2(53),
        r.3 == pow2(r.2 as nat),
        r.1 <==> q * pow2(52) <= p,
        r.1 ==> r.2 <= 68,
        !r.1 ==> 0 < r.2 <= 128,
        !r.1 ==> p * r.3 < q * pow2(53),
{
    proof {
        lemma_powers();
    }
    if q * TWO_POW_52 <= p {
        let mut k: u32 = 0;
        let mut sc: u128 = 1;
        let mut d: u128 = q * TWO_POW_52;
        while d <= p - d
            invariant
                0 < q < pow2(68),
                p < pow2(120),
                sc == pow2(k as nat),
                d == q * TWO_POW_52 * sc,
                d <= p,
                0 < sc <= d,
                k <= 68,
                pow2(52) == TWO_POW_52,
                pow2(68) == 0x10_0000_0000_0000_0000,
                pow2(120) == 0x100_0000_0000_0000_0000_0000_0000_0000,
            decreases p - d,
        {
            proof {
                lemma_pow2_unfold((k + 1) as nat);
                assert(pow2((k + 1) as nat) <= pow2(68)) by (nonlinear_arith)
                    requires
                        pow2((k + 1) as nat) == 2 * sc,
                        q * TWO_POW_52 * sc <= p - q * TWO_POW_52 * sc,
                        p < 0x100_0000_0000_0000_0000_0000_0000_0000,
                        q >= 1,
                        TWO_POW_52 == 0x10_0000_0000_0000,
                        pow2(68) == 0x10_0000_0000_0000_0000,
                ;
                lemma_pow2_le_inv((k + 1) as nat, 68);
            }
            assert(q * TWO_POW_52 * (2 * sc) == 2 * d) by (nonlinear_arith)
                requires
                    d == q * TWO_POW_52 * sc,
            ;
            d = 2 * d;
            sc = 2 * sc;
            k = k + 1;
        }
        assert(q * sc <= d) by (nonlinear_arith)
            requires
                d == q * TWO_POW_52 * sc,
                sc > 0,
                q > 0,
        ;
        let dq = q * sc;
        assert(dq > 0) by (nonlinear_arith)
            requires
                dq == q * sc,
                sc > 0,
                q > 0,
        ;
        let m = round_div(p, dq);
        proof {
            let j = (128 + k) as nat;
            lemma_pow2_adds(k as nat, 128);
            let t = pow2(128);
            assert(pow2(j) == sc * t);
            assert(pow2(52) * (q * pow2(j)) == (q * TWO_POW_52 * sc) * t) by (nonlinear_arith)
                requires
                    pow2(j) == sc * t,
                    pow2(52) == TWO_POW_52,
            ;
            lemma_pow2_unfold(53);
            assert(pow2(53) * (q * pow2(j)) == (2 * d) * t) by (nonlinear_arith)
                requires
                    pow2(j) == sc * t,
                    pow2(53) == 2 * pow2(52),
                    pow2(52) == TWO_POW_52,
                    d == q * TWO_POW_52 * sc,
            ;
            assert(d * t <= p * t) by (nonlinear_arith)
                requires
                    d <= p,
                    t > 0,
            ;
            assert(p * t < (2 * d) * t) by (nonlinear_arith)
                requires
                    p < 2 * d,
                    t > 0,
            ;
            assert(in_binade(p as nat, q as nat, j));
            lemma_binade_unique(p as nat, q as nat, j, binade(p as nat, q as nat));
            assert(q * pow2(j) == dq * t) by (nonlinear_arith)
                requires
                    pow2(j) == sc * t,
                    dq == q * sc,
            ;
            lemma_round_scaled(p as nat, dq as nat, t);
            assert(pow2(52) * dq <= p && p < pow2(53) * dq) by (nonlinear_arith)
                requires
                    d == q * TWO_POW_52 * sc,
                    dq == q * sc,
                    pow2(52) == TWO_POW_52,
                    pow2(53) == 2 * pow2(52),
                    d <= p,
                    p < 2 * d,
            ;
            lemma_mantissa_range(p as nat, dq as nat);
        }
        (m, true, k, sc)
    } else {
        let mut s: u32 = 0;
        let mut sc: u128 = 1;
        let mut n: u128 = p;
        while n < q * TWO_POW_52
            invariant
                0 < q < pow2(68),
                0 < p,
                sc == pow2(s as nat),
                n == p * sc,
                0 < sc <= n,
                n < q * TWO_POW_52 * 2,
                s <= 128,
                pow2(52) * q <= p * pow2(128),
                pow2(52) == TWO_POW_52,
                pow2(68) == 0x10_0000_0000_0000_0000,
            decreases 128 - s,
        {
            proof {
                if s == 128 {
                    assert(false);
                }
            }
            assert(p * (2 * sc) == 2 * n) by (nonlinear_arith)
                requires
                    n == p * sc,
            ;
            n = 2 * n;
            sc = 2 * sc;
            s = s + 1;
            proof {
                lemma_pow2_unfold(s as nat);
            }
        }
        let m = round_div(n, q);
        proof {
            let j = (128 - s) as nat;
            let t2 = pow2(j);
            lemma_pow2_adds(s as nat, j);
            assert(s as nat + j == 128);
            lemma_pow2_pos(j);
            lemma_pow2_unfold(53);
            assert(p * pow2(128) == n * t2) by (nonlinear_arith)
                requires
                    pow2(128) == sc * t2,
                    n == p * sc,
            ;
            assert(pow2(52) * (q * t2) <= n * t2) by (nonlinear_arith)
                requires
                    q * TWO_POW_52 <= n,
                    pow2(52) == TWO_POW_52,
                    t2 > 0,
            ;
            assert(n * t2 < pow2(53) * (q * t2)) by (nonlinear_arith)
                requires
                    n < q * TWO_POW_52 * 2,
                    pow2(52) == TWO_POW_52,
                    pow2(53) == 2 * pow2(52),
                    t2 > 0,
            ;
            assert(in_binade(p as nat, q as nat, j));
            lemma_binade_unique(p as nat, q as nat, j, binade(p as nat, q as nat));
            lemma_round_scaled(n as nat, q as nat, t2);
            assert(q * t2 == t2 * q) by (nonlinear_arith);
            lemma_mantissa_range(n as nat, q as nat);
        }
        (m, false, s, sc)
    }
}

/// The floor of the binary64 number nearest to `p / q`.
pub fn floor_nearest(p: u128, q: u128) -> (r: u128)
    requires
        0 < p < pow2(120),
        0 < q < pow2(68),
        pow2(52) * q <= p * pow2(128),
    ensures
        r == floor_of_nearest(p as nat, q as nat),
        in_binade(p as nat, q as nat, binade(p as nat, q as nat)),
{
    let (m, up, e, sc) = nearest(p, q);
    proof {
        lemma_powers();
        lemma_pow2_pos(e as nat);
    }
    if up {
        proof {
            lemma_pow2_adds(e as nat, 128);
            if e < 68 {
                lemma_pow2_strictly_increases(e as nat, 68);
            }
            let t = pow2(128);
            let ms: nat = (m * sc) as nat;
            vstd::arithmetic::div_mod::lemma_div_by_multiple(ms as int, t as int);
            assert(m * pow2((128 + e) as nat) == ms * t) by (nonlinear_arith)
                requires
                    pow2((128 + e) as nat) == sc * t,
                    ms == m * sc,
            ;
            assert(m * sc < 0x8000_0000_0000_0000_0000_0000_0000_0000) by (nonlinear_arith)
                requires
                    m <= 0x20_0000_0000_0000,
                    sc <= 0x10_0000_0000_0000_0000,
            ;
        }
        m * sc
    } else {
        proof {
            let j = (128 - e) as nat;
            lemma_pow2_adds(e as nat, j);
            assert(e as nat + j == 128);
            lemma_pow2_pos(j);
            lemma_scaled_div_mod(m as nat, sc as nat, pow2(j));
        }
        m / sc
    }
}

} // verus!

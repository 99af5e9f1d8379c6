//! The speed of a velocity, in whole grid steps, and the cap on it.
use vstd::prelude::*;
use crate::vector::{abs, lemma_quot_range, quot, Vector};

verus! {

/// `s` is the least natural number whose square is at least `n`: the square
/// root of `n`, rounded up.
pub open spec fn is_ceil_sqrt(n: int, s: int) -> bool {
    &&& s >= 0
    &&& s * s >= n
    &&& s > 0 ==> (s - 1) * (s - 1) < n
}

/// The square root of `n`, rounded up.
pub open spec fn ceil_sqrt(n: int) -> int {
    choose|s: int| is_ceil_sqrt(n, s)
}

/// The length of `v`, rounded up to whole steps.
pub open spec fn speed(v: Vector) -> int {
    ceil_sqrt(v.norm_sq())
}

/// `v` under a speed cap of `limit`: unchanged while its length is at most
/// `limit`, else shortened by the factor `limit / speed(v)`, each component
/// rounded toward zero.
pub open spec fn limited(v: Vector, limit: int) -> Vector {
    if v.norm_sq() > limit * limit {
        v.scaled(limit, speed(v))
    } else {
        v
    }
}

/// At most one number is the rounded-up square root of `n`.
pub proof fn lemma_ceil_sqrt_unique(n: int, a: int, b: int)
    requires
        is_ceil_sqrt(n, a),
        is_ceil_sqrt(n, b),
    ensures
        a == b,
{
    if a < b {
        assert(a * a <= (b - 1) * (b - 1)) by (nonlinear_arith)
            requires
                0 <= a <= b - 1,
        ;
    }
    if b < a {
        assert(b * b <= (a - 1) * (a - 1)) by (nonlinear_arith)
            requires
                0 <= b <= a - 1,
        ;
    }
}

/// A number that is the rounded-up square root of `n` is `ceil_sqrt(n)`.
pub proof fn lemma_ceil_sqrt_is(n: int, s: int)
    requires
        is_ceil_sqrt(n, s),
    ensures
        ceil_sqrt(n) == s,
{
    lemma_ceil_sqrt_unique(n, s, ceil_sqrt(n));
}

/// The square root of `n`, rounded up.
pub fn ceil_sqrt_u128(n: u128) -> (s: u128)
    ensures
        s == ceil_sqrt(n as int),
        is_ceil_sqrt(n as int, s as int),
        s <= 0x1_0000_0000_0000_0000,
{
    if n == 0 {
        proof {
            lemma_ceil_sqrt_is(0, 0);
        }
        return 0;
    }
    let mut low: u128 = 0;
    let mut high: u128 = 0x1_0000_0000_0000_0000;
    assert(high * high >= n) by (nonlinear_arith)
        requires
            high == 0x1_0000_0000_0000_0000,
            n <= u128::MAX,
    ;
    while high - low > 1
        invariant
            low < high <= 0x1_0000_0000_0000_0000,
            low * low < n <= high * high,
        decreases high - low,
    {
        let mid: u128 = low + (high - low) / 2;
        assert(mid * mid <= 0xffff_ffff_ffff_ffff * 0xffff_ffff_ffff_ffff) by (nonlinear_arith)
            requires
                mid <= 0xffff_ffff_ffff_ffff,
        ;
        if mid * mid >= n {
            high = mid;
        } else {
            low = mid;
        }
    }
    proof {
        lemma_ceil_sqrt_is(n as int, high as int);
    }
    high
}

/// Shortening by `limit / s` with `s * s >= v.norm_sq()` leaves a vector no
/// longer than `limit`.
pub proof fn lemma_scaled_is_capped(v: Vector, limit: int, s: int)
    requires
        limit >= 0,
        s > 0,
        s * s >= v.norm_sq(),
    ensures
        v.scaled(limit, s).norm_sq() <= limit * limit,
        v.scaled(limit, s).within(limit),
{
    let a = abs(quot(v.x * limit, s));
    let b = abs(quot(v.y * limit, s));
    let mx = abs(v.x);
    let my = abs(v.y);
    lemma_quot_range(v.x * limit, s);
    lemma_quot_range(v.y * limit, s);
    assert(abs(v.x * limit) == mx * limit && abs(v.y * limit) == my * limit) by (nonlinear_arith)
        requires
            limit >= 0,
            mx == abs(v.x),
            my == abs(v.y),
    ;
    assert(a * s <= mx * limit && b * s <= my * limit) by (nonlinear_arith)
        requires
            s > 0,
            mx * limit >= 0,
            my * limit >= 0,
            a == (mx * limit) / s,
            b == (my * limit) / s,
    ;
    assert(s * s > 0 && limit * limit >= 0) by (nonlinear_arith)
        requires
            s > 0,
    ;
    assert((a * s) * (a * s) <= (mx * limit) * (mx * limit)) by (nonlinear_arith)
        requires
            0 <= a * s <= mx * limit,
    ;
    assert((b * s) * (b * s) <= (my * limit) * (my * limit)) by (nonlinear_arith)
        requires
            0 <= b * s <= my * limit,
    ;
    assert(mx * mx == v.x * v.x && my * my == v.y * v.y) by (nonlinear_arith)
        requires
            mx == abs(v.x),
            my == abs(v.y),
    ;
    let ss = s * s;
    let ll = limit * limit;
    let len = mx * mx + my * my;
    assert((a * s) * (a * s) == (a * a) * ss && (b * s) * (b * s) == (b * b) * ss)
        by (nonlinear_arith)
        requires
            ss == s * s,
    ;
    assert((mx * limit) * (mx * limit) == (mx * mx) * ll && (my * limit) * (my * limit) == (my
        * my) * ll) by (nonlinear_arith)
        requires
            ll == limit * limit,
    ;
    assert((a * a) * ss + (b * b) * ss == (a * a + b * b) * ss) by (nonlinear_arith);
    assert((mx * mx) * ll + (my * my) * ll == len * ll) by (nonlinear_arith)
        requires
            len == mx * mx + my * my,
    ;
    assert(len * ll <= ss * ll) by (nonlinear_arith)
        requires
            len <= ss,
            ll >= 0,
    ;
    assert(a * a + b * b <= ll) by (nonlinear_arith)
        requires
            (a * a + b * b) * ss <= ll * ss,
            ss > 0,
    ;
    let w = v.scaled(limit, s);
    assert(w.x * w.x == a * a && w.y * w.y == b * b) by (nonlinear_arith)
        requires
            a == abs(w.x),
            b == abs(w.y),
    ;
    assert(a <= limit && b <= limit) by (nonlinear_arith)
        requires
            a * a + b * b <= limit * limit,
            a >= 0,
            b >= 0,
            limit >= 0,
    ;
}

/// Every integer has a rounded-up square root.
pub proof fn lemma_ceil_sqrt_exists(n: int)
    ensures
        is_ceil_sqrt(n, ceil_sqrt(n)),
    decreases n,
{
    if n <= 0 {
        assert(is_ceil_sqrt(n, 0));
    } else {
        lemma_ceil_sqrt_exists(n - 1);
        let t = ceil_sqrt(n - 1);
        if t * t >= n {
            assert(is_ceil_sqrt(n, t));
        } else {
            assert((t + 1) * (t + 1) >= n && (t + 1 - 1) * (t + 1 - 1) < n) by (nonlinear_arith)
                requires
                    t >= 0,
                    t * t >= n - 1,
                    t * t < n,
            ;
            assert(is_ceil_sqrt(n, t + 1));
        }
    }
}

/// The speed cap holds of every capped velocity, and of each of its
/// components.
pub proof fn lemma_limited_is_capped(v: Vector, limit: int)
    requires
        limit >= 0,
    ensures
        limited(v, limit).norm_sq() <= limit * limit,
        limited(v, limit).within(limit),
{
    let n = v.norm_sq();
    if n > limit * limit {
        let s = speed(v);
        lemma_ceil_sqrt_exists(n);
        assert(s > 0) by (nonlinear_arith)
            requires
                s >= 0,
                s * s >= n,
                n > limit * limit,
        ;
        lemma_scaled_is_capped(v, limit, s);
    } else {
        assert(-limit <= v.x <= limit && -limit <= v.y <= limit) by (nonlinear_arith)
            requires
                v.x * v.x + v.y * v.y <= limit * limit,
                limit >= 0,
        ;
    }
}

/// Two naturals whose successors have squares that sum to more than `k * k`
/// have squares that sum to at least `(k - 2) * (k - 2)`.
proof fn lemma_one_step_back(a: int, b: int, k: int)
    requires
        a >= 0,
        b >= 0,
        k >= 2,
        (a + 1) * (a + 1) + (b + 1) * (b + 1) > k * k,
    ensures
        a * a + b * b >= (k - 2) * (k - 2),
{
    if a * a + b * b < (k - 2) * (k - 2) {
        assert(a < k - 2 && b < k - 2) by (nonlinear_arith)
            requires
                a >= 0,
                b >= 0,
                k - 2 >= 0,
                a * a + b * b < (k - 2) * (k - 2),
        ;
        assert((a + 1) * (a + 1) + (b + 1) * (b + 1) == a * a + b * b + 2 * a + 2 * b + 2 && (k
            - 2) * (k - 2) == k * k - 4 * k + 4) by (nonlinear_arith);
        assert(false);
    }
}

/// The cap loses at most three steps of length: a velocity longer than
/// `limit` is capped to a length of at least `limit - 3`.
pub proof fn lemma_capped_length(v: Vector, limit: int)
    requires
        limit >= 3,
        v.norm_sq() > limit * limit,
    ensures
        (limit - 3) * (limit - 3) <= limited(v, limit).norm_sq(),
{
    let n = v.norm_sq();
    let s = speed(v);
    let w = v.scaled(limit, s);
    lemma_ceil_sqrt_exists(n);
    assert(s > limit) by (nonlinear_arith)
        requires
            s >= 0,
            limit >= 0,
            s * s >= n,
            n > limit * limit,
    ;
    let mx = abs(v.x);
    let my = abs(v.y);
    let a = abs(w.x);
    let b = abs(w.y);
    lemma_quot_range(v.x * limit, s);
    lemma_quot_range(v.y * limit, s);
    assert(abs(v.x * limit) == mx * limit && abs(v.y * limit) == my * limit && mx * limit >= 0
        && my * limit >= 0) by (nonlinear_arith)
        requires
            limit >= 0,
            mx == abs(v.x),
            my == abs(v.y),
    ;
    let p = a + 1;
    let q = b + 1;
    assert(p * s > mx * limit && q * s > my * limit) by (nonlinear_arith)
        requires
            s > 0,
            mx * limit >= 0,
            my * limit >= 0,
            p == (mx * limit) / s + 1,
            q == (my * limit) / s + 1,
    ;
    assert((p * s) * (p * s) > (mx * limit) * (mx * limit)) by (nonlinear_arith)
        requires
            p * s > mx * limit,
            mx * limit >= 0,
    ;
    assert((q * s) * (q * s) > (my * limit) * (my * limit)) by (nonlinear_arith)
        requires
            q * s > my * limit,
            my * limit >= 0,
    ;
    let ss = s * s;
    let ll = limit * limit;
    assert((p * s) * (p * s) == (p * p) * ss && (q * s) * (q * s) == (q * q) * ss)
        by (nonlinear_arith)
        requires
            ss == s * s,
    ;
    assert((mx * limit) * (mx * limit) == (mx * mx) * ll && (my * limit) * (my * limit) == (my
        * my) * ll) by (nonlinear_arith)
        requires
            ll == limit * limit,
    ;
    assert(mx * mx == v.x * v.x && my * my == v.y * v.y) by (nonlinear_arith)
        requires
            mx == abs(v.x),
            my == abs(v.y),
    ;
    assert((p * p) * ss + (q * q) * ss == (p * p + q * q) * ss) by (nonlinear_arith);
    assert((mx * mx) * ll + (my * my) * ll == n * ll) by (nonlinear_arith)
        requires
            n == mx * mx + my * my,
    ;
    // so far: (p * p + q * q) * ss > n * ll
    let r = (s - 1) * (s - 1);
    assert(n * ll >= r * ll) by (nonlinear_arith)
        requires
            n >= r,
            ll == limit * limit,
    ;
    let low = (limit - 1) * s;
    let high = limit * (s - 1);
    assert(0 <= low <= high) by (nonlinear_arith)
        requires
            low == (limit - 1) * s,
            high == limit * (s - 1),
            s > limit,
            limit >= 1,
    ;
    assert(low * low <= high * high) by (nonlinear_arith)
        requires
            0 <= low <= high,
    ;
    assert(high * high == r * ll) by (nonlinear_arith)
        requires
            high == limit * (s - 1),
            r == (s - 1) * (s - 1),
            ll == limit * limit,
    ;
    let kk = (limit - 1) * (limit - 1);
    assert(low * low == kk * ss) by (nonlinear_arith)
        requires
            low == (limit - 1) * s,
            kk == (limit - 1) * (limit - 1),
            ss == s * s,
    ;
    assert(p * p + q * q > kk) by (nonlinear_arith)
        requires
            (p * p + q * q) * ss > kk * ss,
            ss > 0,
    ;
    lemma_one_step_back(a, b, limit - 1);
    assert(w.x * w.x == a * a && w.y * w.y == b * b) by (nonlinear_arith)
        requires
            a == abs(w.x),
            b == abs(w.y),
    ;
}

} // verus!

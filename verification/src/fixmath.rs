//! Fixed-point arithmetic for the enemies' movement-intent vectors. One unit
//! of continuous direction is `FP`; the conceptually real-valued intent
//! bookkeeping (normalising, the super-exponential wander factor, the
//! Bresenham-like residual accumulation) is all done in these scaled integers.

use vstd::prelude::*;

verus! {

/// The fixed-point scale: the continuous value 1.0 is stored as `FP`.
pub const FP: i64 = 1000;

/// The square of the wander growth base (about 2.17), in fixed point: each
/// unit of `stay_count` multiplies the wander factor by about 4.709.
pub const WANDER_BASE_FP: i64 = 4709;

/// Where the wander factor saturates. The factor exists to shake a stuck
/// enemy loose, so capping its super-exponential growth loses nothing and
/// keeps every later product inside `i64`.
pub const WANDER_CAP_FP: i64 = 1_000_000_000;

/// The sign of an integer: -1, 0 or 1.
pub open spec fn sgn(v: int) -> int {
    if v > 0 {
        1
    } else if v < 0 {
        -1
    } else {
        0
    }
}

/// The integer square root, floor(sqrt(n)).
pub open spec fn isqrt_spec(n: nat) -> nat
    decreases n,
{
    if n == 0 {
        0
    } else {
        let r = isqrt_spec((n - 1) as nat);
        if (r + 1) * (r + 1) <= n {
            r + 1
        } else {
            r
        }
    }
}

/// `isqrt_spec(n)` squares to at most n, and is the largest such value.
pub proof fn lemma_isqrt_bounds(n: nat)
    ensures
        isqrt_spec(n) * isqrt_spec(n) <= n,
        n < (isqrt_spec(n) + 1) * (isqrt_spec(n) + 1),
    decreases n,
{
    if n == 0 {
        assert(isqrt_spec(n) == 0);
        assert(isqrt_spec(n) * isqrt_spec(n) <= n);
        assert(n < (isqrt_spec(n) + 1) * (isqrt_spec(n) + 1)) by (nonlinear_arith)
            requires n == 0, isqrt_spec(n) == 0;
    } else {
        lemma_isqrt_bounds((n - 1) as nat);
        let r = isqrt_spec((n - 1) as nat);
        assert(r * r <= n - 1);
        assert(n - 1 < (r + 1) * (r + 1));
        if (r + 1) * (r + 1) <= n {
            assert(isqrt_spec(n) == r + 1);
            assert(n < (r + 2) * (r + 2)) by (nonlinear_arith)
                requires n <= (r + 1) * (r + 1), r >= 0;
            assert(isqrt_spec(n) * isqrt_spec(n) <= n);
            assert(n < (isqrt_spec(n) + 1) * (isqrt_spec(n) + 1));
        } else {
            assert(isqrt_spec(n) == r);
            assert(isqrt_spec(n) * isqrt_spec(n) <= n);
            assert(n < (isqrt_spec(n) + 1) * (isqrt_spec(n) + 1));
        }
    }
}

/// Any r with r * r <= n < (r + 1) * (r + 1) is the integer square root.
pub proof fn lemma_isqrt_unique(n: nat, r: nat)
    requires
        r * r <= n,
        n < (r + 1) * (r + 1),
    ensures
        r == isqrt_spec(n),
{
    let s = isqrt_spec(n);
    lemma_isqrt_bounds(n);
    if r < s {
        assert((r + 1) * (r + 1) <= s * s) by (nonlinear_arith)
            requires r + 1 <= s;
    }
    if s < r {
        assert((s + 1) * (s + 1) <= r * r) by (nonlinear_arith)
            requires s + 1 <= r;
    }
}

/// The integer square root is monotone.
pub proof fn lemma_isqrt_monotone(a: nat, b: nat)
    requires
        a <= b,
    ensures
        isqrt_spec(a) <= isqrt_spec(b),
{
    lemma_isqrt_bounds(a);
    lemma_isqrt_bounds(b);
    let ra = isqrt_spec(a);
    let rb = isqrt_spec(b);
    if rb < ra {
        assert((rb + 1) * (rb + 1) <= ra * ra) by (nonlinear_arith)
            requires rb + 1 <= ra;
    }
}

/// The integer square root of a perfect square.
pub proof fn lemma_isqrt_square(v: nat)
    ensures
        isqrt_spec(v * v) == v,
{
    assert(v * v < (v + 1) * (v + 1)) by (nonlinear_arith);
    lemma_isqrt_unique(v * v, v);
}

/// The integer square root, by binary search.
pub fn isqrt(n: u64) -> (r: u64)
    ensures
        r as nat == isqrt_spec(n as nat),
        r * r <= n,
{
    let mut lo: u64 = 0;
    let mut hi: u64 = 0x1_0000_0000;
    proof {
        assert((0x1_0000_0000 as int) * (0x1_0000_0000 as int) > u64::MAX as int)
            by (nonlinear_arith);
    }
    while lo + 1 < hi
        invariant
            lo < hi <= 0x1_0000_0000,
            (lo as int) * (lo as int) <= n as int,
            (n as int) < (hi as int) * (hi as int),
        decreases hi - lo,
    {
        let mid = lo + (hi - lo) / 2;
        proof {
            assert((mid as int) * (mid as int) < 0x1_0000_0000_0000_0000) by (nonlinear_arith)
                requires mid < 0x1_0000_0000;
        }
        if mid * mid <= n {
            lo = mid;
        } else {
            hi = mid;
        }
    }
    proof {
        lemma_isqrt_unique(n as nat, lo as nat);
    }
    lo
}

/// a * |b| / d with the sign of b put back; the fixed-point product used for
/// the wander perturbation. Works on magnitudes so that rounding is always
/// toward zero, whatever the sign.
pub open spec fn mul_div_toward_zero(a: int, b: int, d: int) -> int
    recommends
        a >= 0,
        d > 0,
{
    sgn(b) * ((a * (if b >= 0 { b } else { -b })) / d)
}

/// A normalised fixed-point vector: (x, y) scaled so its length is about
/// `FP`, rounding each component toward zero; the zero vector stays zero.
pub open spec fn normalize_spec(x: int, y: int) -> (int, int) {
    let l = isqrt_spec((x * x + y * y) as nat) as int;
    if l == 0 {
        (0, 0)
    } else {
        (mul_div_toward_zero(FP as int, x, l), mul_div_toward_zero(FP as int, y, l))
    }
}

/// Each component of a normalised vector has magnitude at most `FP`.
pub proof fn lemma_normalize_bounds(x: int, y: int)
    ensures
        -FP <= normalize_spec(x, y).0 <= FP,
        -FP <= normalize_spec(x, y).1 <= FP,
{
    let ax = if x >= 0 {
        x
    } else {
        -x
    };
    let ay = if y >= 0 {
        y
    } else {
        -y
    };
    assert(x * x == ax * ax) by (nonlinear_arith)
        requires ax == x || ax == -x;
    assert(y * y == ay * ay) by (nonlinear_arith)
        requires ay == y || ay == -y;
    assert(ax * ax >= 0 && ay * ay >= 0) by (nonlinear_arith)
        requires ax >= 0, ay >= 0;
    let n = (x * x + y * y) as nat;
    let l = isqrt_spec(n) as int;
    if l != 0 {
        lemma_component_in_unit_range(x, ax, ay, n, l);
        lemma_component_in_unit_range(y, ay, ax, n, l);
    }
}

/// One component of a normalised vector lies in [-FP, FP]: helper for
/// `lemma_normalize_bounds`, with `av` the component's magnitude and `ao`
/// the other component's magnitude.
proof fn lemma_component_in_unit_range(v: int, av: int, ao: int, n: nat, l: int)
    requires
        av >= 0,
        ao >= 0,
        av == v || av == -v,
        n == av * av + ao * ao,
        l == isqrt_spec(n) as int,
        l > 0,
    ensures
        -FP <= sgn(v) * ((FP as int * av) / l) <= FP,
{
    assert(ao * ao >= 0) by (nonlinear_arith)
        requires ao >= 0;
    lemma_isqrt_square(av as nat);
    lemma_isqrt_monotone((av * av) as nat, n);
    assert(av <= l);
    let q = (FP as int * av) / l;
    assert(FP as int * av <= FP as int * l) by (nonlinear_arith)
        requires av <= l, (FP as int) > 0;
    vstd::arithmetic::div_mod::lemma_div_is_ordered(FP as int * av, FP as int * l, l);
    vstd::arithmetic::div_mod::lemma_div_multiples_vanish(FP as int, l);
    assert(FP as int * l == l * (FP as int)) by (nonlinear_arith);
    assert(q <= FP);
    assert(FP as int * av >= 0) by (nonlinear_arith)
        requires av >= 0, (FP as int) > 0;
    vstd::arithmetic::div_mod::lemma_div_pos_is_pos(FP as int * av, l);
    assert(-FP <= sgn(v) * q <= FP) by (nonlinear_arith)
        requires 0 <= q <= FP, -1 <= sgn(v) <= 1;
}

/// Divide two non-negative i64 values, as u64 division.
fn div_nonneg(a: i64, d: i64) -> (r: i64)
    requires
        a >= 0,
        d > 0,
    ensures
        r == a as int / d as int,
{
    let q = (a as u64) / (d as u64);
    proof {
        assert(q <= a as u64);
    }
    q as i64
}

/// One normalised component: FP * v / l with the sign of v put back.
fn normalize_component(v: i64, l: i64) -> (r: i64)
    requires
        l > 0,
        -1_100_000_000 <= v <= 1_100_000_000,
    ensures
        r == mul_div_toward_zero(FP as int, v as int, l as int),
{
    let av: i64 = if v >= 0 {
        v
    } else {
        -v
    };
    proof {
        assert(0 <= FP * av <= 1_100_000_000_000) by (nonlinear_arith)
            requires 0 <= av <= 1_100_000_000;
    }
    let q = div_nonneg(FP * av, l);
    if v < 0 {
        proof {
            assert(FP * av >= 0) by (nonlinear_arith)
                requires av >= 0;
            vstd::arithmetic::div_mod::lemma_div_pos_is_pos(FP as int * av as int, l as int);
        }
        -q
    } else {
        q
    }
}

/// Normalise a fixed-point vector whose components are at most 10^9 in
/// magnitude; the zero vector stays zero, everything else gets length
/// about `FP`.
pub fn normalize_fp(x: i64, y: i64) -> (r: (i64, i64))
    requires
        -1_100_000_000 <= x <= 1_100_000_000,
        -1_100_000_000 <= y <= 1_100_000_000,
    ensures
        (r.0 as int, r.1 as int) == normalize_spec(x as int, y as int),
        -FP <= r.0 <= FP,
        -FP <= r.1 <= FP,
{
    proof {
        lemma_square_sum_bound(x as int, y as int, 1_100_000_000);
    }
    let sq: u64 = (x * x) as u64 + (y * y) as u64;
    let l = isqrt(sq);
    proof {
        lemma_normalize_bounds(x as int, y as int);
    }
    if l == 0 {
        (0, 0)
    } else {
        proof {
            assert(l < 0x1_0000_0000) by (nonlinear_arith)
                requires (l as int) * (l as int) <= 2_420_000_000_000_000_000;
        }
        let li = l as i64;
        (normalize_component(x, li), normalize_component(y, li))
    }
}

/// x^2 + y^2 is at most 2 b^2 when both coordinates are bounded by b.
pub proof fn lemma_square_sum_bound(x: int, y: int, b: int)
    requires
        -b <= x <= b,
        -b <= y <= b,
        b >= 0,
    ensures
        0 <= x * x <= b * b,
        0 <= y * y <= b * b,
        0 <= x * x + y * y <= 2 * (b * b),
{
    assert(0 <= x * x <= b * b) by (nonlinear_arith)
        requires -b <= x <= b;
    assert(0 <= y * y <= b * b) by (nonlinear_arith)
        requires -b <= y <= b;
}

/// The wander growth factor 4.709^s in fixed point, saturating at the cap.
pub open spec fn wander_pow_spec(s: nat) -> int
    decreases s,
{
    if s == 0 {
        FP as int
    } else {
        let p = wander_pow_spec((s - 1) as nat) * (WANDER_BASE_FP as int) / (FP as int);
        if p > WANDER_CAP_FP {
            WANDER_CAP_FP as int
        } else {
            p
        }
    }
}

/// The wander perturbation scale for a given stay count: about
/// 2.17^(2 s) - 1 in fixed point, zero while the enemy is not stuck, and
/// saturating at the cap.
pub open spec fn wander_scale_spec(s: nat) -> int {
    wander_pow_spec(s) - FP
}

/// The growth factor stays between `FP` and the cap.
pub proof fn lemma_wander_pow_bounds(s: nat)
    ensures
        FP <= wander_pow_spec(s) <= WANDER_CAP_FP,
    decreases s,
{
    if s > 0 {
        lemma_wander_pow_bounds((s - 1) as nat);
        let p = wander_pow_spec((s - 1) as nat);
        assert(p * WANDER_BASE_FP >= p * FP) by (nonlinear_arith)
            requires p >= 0, WANDER_BASE_FP >= FP;
        assert(p * (FP as int) / (FP as int) == p) by {
            vstd::arithmetic::div_mod::lemma_div_multiples_vanish(p, FP as int);
        }
        vstd::arithmetic::div_mod::lemma_div_is_ordered(p * FP, p * WANDER_BASE_FP, FP as int);
    }
}

/// Once the growth factor has reached the cap it stays there.
pub proof fn lemma_wander_pow_sticks(i: nat, s: nat)
    requires
        i <= s,
        wander_pow_spec(i) == WANDER_CAP_FP,
    ensures
        wander_pow_spec(s) == WANDER_CAP_FP,
    decreases s - i,
{
    if s > i {
        lemma_wander_pow_sticks(i, (s - 1) as nat);
        assert((WANDER_CAP_FP as int) * (WANDER_BASE_FP as int) / (FP as int)
            > WANDER_CAP_FP) by (nonlinear_arith);
    }
}

/// The wander scale at run time.
pub fn wander_scale(s: u32) -> (w: i64)
    ensures
        w == wander_scale_spec(s as nat),
        0 <= w <= WANDER_CAP_FP,
{
    let mut p: i64 = FP;
    let mut i: u32 = 0;
    while i < s
        invariant
            i <= s,
            p == wander_pow_spec(i as nat),
            FP <= p <= WANDER_CAP_FP,
        decreases s - i,
    {
        if p >= WANDER_CAP_FP {
            proof {
                lemma_wander_pow_sticks(i as nat, s as nat);
            }
            return WANDER_CAP_FP - FP;
        }
        proof {
            lemma_wander_pow_bounds((i + 1) as nat);
            assert(p * WANDER_BASE_FP <= WANDER_CAP_FP * WANDER_BASE_FP) by (nonlinear_arith)
                requires 0 <= p <= WANDER_CAP_FP, WANDER_BASE_FP > 0;
            assert(p * WANDER_BASE_FP >= 0) by (nonlinear_arith)
                requires p >= 0;
        }
        let q = div_nonneg(p * WANDER_BASE_FP, FP);
        p = if q > WANDER_CAP_FP {
            WANDER_CAP_FP
        } else {
            q
        };
        i = i + 1;
    }
    proof {
        lemma_wander_pow_bounds(s as nat);
    }
    p - FP
}

/// The wander perturbation itself: scale * (r - FP/2) / FP, where r is a
/// random draw in [0, FP]; zero whenever the scale is zero.
pub open spec fn wander_term_spec(scale: int, r: int) -> int {
    mul_div_toward_zero(scale, r - FP / 2, FP as int)
}

/// The wander perturbation at run time.
pub fn wander_term(scale: i64, r: i64) -> (t: i64)
    requires
        0 <= scale <= WANDER_CAP_FP,
        0 <= r <= FP,
    ensures
        t == wander_term_spec(scale as int, r as int),
        -WANDER_CAP_FP <= t <= WANDER_CAP_FP,
{
    let b: i64 = r - FP / 2;
    let ab: i64 = if b >= 0 {
        b
    } else {
        -b
    };
    proof {
        assert(0 <= scale * ab <= WANDER_CAP_FP * (FP / 2)) by (nonlinear_arith)
            requires 0 <= scale <= WANDER_CAP_FP, 0 <= ab <= FP / 2;
    }
    let q = div_nonneg(scale * ab, FP);
    proof {
        vstd::arithmetic::div_mod::lemma_div_pos_is_pos(scale as int * ab as int, FP as int);
        vstd::arithmetic::div_mod::lemma_div_is_ordered(
            scale as int * ab as int,
            500_000_000_000,
            FP as int,
        );
    }
    let t: i64 = if b < 0 {
        -q
    } else {
        q
    };
    proof {
        let m = scale as int * ab as int / FP as int;
        if b < 0 {
            assert(sgn(b as int) == -1);
            assert(-1 * m == -m) by (nonlinear_arith);
        } else if b == 0 {
            assert(sgn(b as int) == 0);
            assert(scale as int * ab as int == 0) by (nonlinear_arith)
                requires ab as int == 0;
            assert(0 * m == 0) by (nonlinear_arith);
        } else {
            assert(sgn(b as int) == 1);
            assert(1 * m == m) by (nonlinear_arith);
        }
    }
    t
}

} // verus!

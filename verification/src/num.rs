//! Integer scalar utilities: absolute value, rounded-down square root and
//! floor division, the building blocks of the fixed-point geometry.

use vstd::prelude::*;

verus! {

/// The rounded-down square root of a non-negative integer, as a spec-level
/// function.
pub open spec fn fsqrt(n: nat) -> nat
    decreases n,
{
    if n == 0 {
        0
    } else {
        let r = fsqrt((n - 1) as nat);
        if (r + 1) * (r + 1) <= n {
            r + 1
        } else {
            r
        }
    }
}

/// `fsqrt(n)` is the unique integer whose square brackets `n`.
pub proof fn lemma_fsqrt(n: nat)
    ensures
        (fsqrt(n) as int) * (fsqrt(n) as int) <= n as int,
        (n as int) < (fsqrt(n) as int + 1) * (fsqrt(n) as int + 1),
    decreases n,
{
    if n == 0 {
        assert(fsqrt(0) == 0);
    } else {
        lemma_fsqrt((n - 1) as nat);
        let r = fsqrt((n - 1) as nat);
        assert(fsqrt(n) == if (r + 1) * (r + 1) <= n { r + 1 } else { r });
        if (r + 1) * (r + 1) <= n {
            assert(fsqrt(n) == r + 1);
            assert(n < (r + 2) * (r + 2)) by (nonlinear_arith)
                requires
                    n - 1 < (r + 1) * (r + 1),
                    r >= 0,
            {}
            assert(n < (fsqrt(n) + 1) * (fsqrt(n) + 1));
        } else {
            assert(fsqrt(n) == r);
            assert(n < (fsqrt(n) + 1) * (fsqrt(n) + 1));
        }
    }
}

/// Any integer whose square brackets `n` equals `fsqrt(n)`.
pub proof fn lemma_fsqrt_unique(n: nat, r: nat)
    requires
        r * r <= n,
        n < (r + 1) * (r + 1),
    ensures
        r == fsqrt(n),
{
    lemma_fsqrt(n);
    let f = fsqrt(n);
    assert(r == f) by (nonlinear_arith)
        requires
            r * r <= n,
            n < (r + 1) * (r + 1),
            f * f <= n,
            n < (f + 1) * (f + 1),
    {}
}

/// Bound on a product from bounds on its factors.
pub proof fn lemma_mul_bound(a: int, b: int, x: int, y: int)
    requires
        -x <= a <= x,
        -y <= b <= y,
    ensures
        -(x * y) <= a * b <= x * y,
{
    assert(-(x * y) <= a * b <= x * y) by (nonlinear_arith)
        requires
            -x <= a <= x,
            -y <= b <= y,
    {}
}

/// Rounded-down integer square root.
pub fn isqrt(x: u128) -> (r: u64)
    ensures
        r == fsqrt(x as nat),
        (r as int) * (r as int) <= x as int,
        (x as int) < (r as int + 1) * (r as int + 1),
{
    let mut lo: u128 = 0;
    let mut hi: u128 = 0x10000000000000000u128;
    while lo + 1 < hi
        invariant
            lo < hi,
            hi <= 0x10000000000000000u128,
            (lo as int) * (lo as int) <= x as int,
            (x as int) < (hi as int) * (hi as int),
        decreases hi - lo,
    {
        let mid = lo + (hi - lo) / 2;
        assert(lo < mid < hi);
        assert((mid as int) * (mid as int) < 0x100000000000000000000000000000000int) by (nonlinear_arith)
            requires
                mid < 0x10000000000000000,
        {}
        if mid * mid <= x {
            lo = mid;
        } else {
            hi = mid;
        }
    }
    assert((x as int) < (lo as int + 1) * (lo as int + 1));
    proof {
        lemma_fsqrt_unique(x as nat, lo as nat);
    }
    lo as u64
}

/// Floor division by a positive divisor (Euclidean division, as `/` means in
/// contracts).
pub fn div_floor(a: i128, b: i128) -> (r: i128)
    requires
        1 <= b,
        i128::MIN < a,
    ensures
        r == (a as int) / (b as int),
{
    if a >= 0 {
        let q = (a as u128) / (b as u128);
        assert(q == (a as int) / (b as int));
        q as i128
    } else {
        let m = (-a) as u128;
        let bu = b as u128;
        let q = (m - 1) / bu + 1;
        proof {
            lemma_neg_div(m as int, b as int);
            assert((m as int - 1) / (b as int) + 1 <= m as int) by (nonlinear_arith)
                requires
                    1 <= b as int,
                    1 <= m as int,
            {}
        }
        -(q as i128)
    }
}

/// For `m >= 1` and `b >= 1`: `(-m) / b == -((m - 1) / b + 1)` under Euclidean
/// division.
proof fn lemma_neg_div(m: int, b: int)
    requires
        1 <= m,
        1 <= b,
    ensures
        (-m) / b == -((m - 1) / b + 1),
{
    let q = (m - 1) / b;
    let r = (m - 1) % b;
    vstd::arithmetic::div_mod::lemma_fundamental_div_mod(m - 1, b);
    assert(m - 1 == b * q + r);
    assert(0 <= r < b) by {
        vstd::arithmetic::div_mod::lemma_mod_bound(m - 1, b);
    }
    assert(-m == b * (-(q + 1)) + (b - 1 - r)) by (nonlinear_arith)
        requires
            m - 1 == b * q + r,
    {}
    assert(0 <= b - 1 - r < b);
    vstd::arithmetic::div_mod::lemma_fundamental_div_mod_converse_div(
        -m,
        b,
        -(q + 1),
        b - 1 - r,
    );
}

/// Rounded-down quotient for a divisor of either sign: the denominator's
/// sign is moved into the numerator first, so the result is the floor of the
/// exact quotient.
pub open spec fn div_q(n: int, d: int) -> int {
    if d > 0 {
        n / d
    } else {
        (-n) / (-d)
    }
}

/// Rounded-down signed division.
pub fn div_round(n: i128, d: i128) -> (r: i128)
    requires
        d != 0,
        i128::MIN < n,
        i128::MIN < d,
    ensures
        r == div_q(n as int, d as int),
        -vstd::math::abs(n as int) <= r <= vstd::math::abs(n as int),
{
    if d > 0 {
        proof {
            lemma_div_bounds(n as int, d as int);
        }
        div_floor(n, d)
    } else {
        proof {
            lemma_div_bounds(-n as int, -d as int);
        }
        div_floor(-n, -d)
    }
}

/// A rounded-down quotient by a positive divisor lies between zero and the
/// numerator.
pub proof fn lemma_div_bounds(n: int, d: int)
    requires
        1 <= d,
    ensures
        0 <= n ==> 0 <= n / d <= n,
        n < 0 ==> n <= n / d <= 0,
{
    if 0 <= n {
        vstd::arithmetic::div_mod::lemma_div_pos_is_pos(n, d);
        vstd::arithmetic::div_mod::lemma_div_nonincreasing(n, d);
    } else {
        let q = n / d;
        let r = n % d;
        vstd::arithmetic::div_mod::lemma_fundamental_div_mod(n, d);
        vstd::arithmetic::div_mod::lemma_mod_bound(n, d);
        assert(n <= q <= 0) by (nonlinear_arith)
            requires
                n == d * q + r,
                0 <= r < d,
                1 <= d,
                n < 0,
        {}
    }
}

/// Discriminant of the quadratic `a*x^2 + b*x + c`.
pub open spec fn quad_disc(a: int, b: int, c: int) -> int {
    b * b - 4 * a * c
}

/// The smaller real root of the quadratic, rounded down (the coefficients
/// are first normalized so the leading one is positive, which leaves the
/// roots unchanged).
pub open spec fn quad_root_low(a: int, b: int, c: int) -> int {
    let na = if a < 0 {
        -a
    } else {
        a
    };
    let nb = if a < 0 {
        -b
    } else {
        b
    };
    (-nb - fsqrt(quad_disc(a, b, c) as nat)) / (2 * na)
}

/// The larger real root of the quadratic, rounded down.
pub open spec fn quad_root_high(a: int, b: int, c: int) -> int {
    let na = if a < 0 {
        -a
    } else {
        a
    };
    let nb = if a < 0 {
        -b
    } else {
        b
    };
    (-nb + fsqrt(quad_disc(a, b, c) as nat)) / (2 * na)
}

/// Real roots of `a*x^2 + b*x + c`, in ascending order, rounded down.
/// A vanishing leading coefficient is a degenerate case that callers must
/// rule out themselves; it yields no roots here.
pub fn second_deg_eq(a: i128, b: i128, c: i128) -> (roots: Vec<i128>)
    requires
        -0x2000000000000000 <= a <= 0x2000000000000000,
        -0x2000000000000000 <= b <= 0x2000000000000000,
        -0x2000000000000000 <= c <= 0x2000000000000000,
    ensures
        a == 0 ==> roots.len() == 0,
        a != 0 && quad_disc(a as int, b as int, c as int) < 0 ==> roots.len() == 0,
        a != 0 && quad_disc(a as int, b as int, c as int) == 0 ==> roots.len() == 1
            && roots[0] == quad_root_low(a as int, b as int, c as int),
        a != 0 && quad_disc(a as int, b as int, c as int) > 0 ==> roots.len() == 2
            && roots[0] == quad_root_low(a as int, b as int, c as int)
            && roots[1] == quad_root_high(a as int, b as int, c as int)
            && roots[0] <= roots[1],
{
    let mut roots: Vec<i128> = Vec::new();
    if a == 0 {
        return roots;
    }
    proof {
        lemma_mul_bound(b as int, b as int, 0x2000000000000000, 0x2000000000000000);
        lemma_mul_bound(a as int, c as int, 0x2000000000000000, 0x2000000000000000);
        lemma_mul_bound(
            4 * a as int,
            c as int,
            0x8000000000000000,
            0x2000000000000000,
        );
        assert(b as int * b as int >= 0) by (nonlinear_arith) {}
        assert(4 * a as int * c as int == 4 * (a as int * c as int)) by (nonlinear_arith) {}
    }
    let disc = b * b - 4 * a * c;
    if disc < 0 {
        return roots;
    }
    let sd = isqrt(disc as u128) as i128;
    let na = if a < 0 {
        -a
    } else {
        a
    };
    let nb = if a < 0 {
        -b
    } else {
        b
    };
    let lo = div_floor(-nb - sd, 2 * na);
    if disc == 0 {
        roots.push(lo);
    } else {
        let hi = div_floor(-nb + sd, 2 * na);
        proof {
            vstd::arithmetic::div_mod::lemma_div_is_ordered(
                -nb as int - sd as int,
                -nb as int + sd as int,
                2 * na as int,
            );
        }
        roots.push(lo);
        roots.push(hi);
    }
    roots
}

/// Halves all three coefficients of a quadratic until they fit the solver's
/// range, up to `fuel` times.  Halving all coefficients together keeps the
/// roots, up to the rounding of each halving.
pub open spec fn reduce3_spec(a: int, b: int, c: int, fuel: nat) -> (int, int, int)
    decreases fuel,
{
    if fuel == 0 || (-0x2000000000000000 <= a <= 0x2000000000000000 && -0x2000000000000000 <= b
        <= 0x2000000000000000 && -0x2000000000000000 <= c <= 0x2000000000000000) {
        (a, b, c)
    } else {
        reduce3_spec(a / 2, b / 2, c / 2, (fuel - 1) as nat)
    }
}

/// Runs the quadratic-coefficient reduction.
pub fn reduce3(a: i128, b: i128, c: i128, fuel: u32) -> (r: (i128, i128, i128))
    requires
        i128::MIN < a,
        i128::MIN < b,
        i128::MIN < c,
    ensures
        (r.0 as int, r.1 as int, r.2 as int) == reduce3_spec(
            a as int,
            b as int,
            c as int,
            fuel as nat,
        ),
        i128::MIN < r.0,
        i128::MIN < r.1,
        i128::MIN < r.2,
    decreases fuel,
{
    let bound: i128 = 0x2000000000000000;
    if fuel == 0 || (-bound <= a && a <= bound && -bound <= b && b <= bound && -bound <= c && c
        <= bound) {
        (a, b, c)
    } else {
        proof {
            lemma_div_bounds(a as int, 2);
            lemma_div_bounds(b as int, 2);
            lemma_div_bounds(c as int, 2);
        }
        reduce3(div_round(a, 2), div_round(b, 2), div_round(c, 2), fuel - 1)
    }
}

} // verus!

use vstd::prelude::*;
use crate::num::floor_div_i128;
use vstd::arithmetic::div_mod::{
    lemma_div_is_ordered,
    lemma_div_multiples_vanish,
    lemma_fundamental_div_mod,
    lemma_fundamental_div_mod_converse_div,
};

verus! {

/// The largest magnitude of a curve parameter's numerator and denominator, so that
/// evaluating stays within 128-bit intermediates.
pub const PARAM_DEN_MAX: i64 = 0x100_0000_0000;

/// A curve parameter `num / den`.
#[derive(Clone, Copy, Debug, PartialEq, Eq, Structural)]
pub struct Param {
    pub num: i64,
    pub den: i64,
}

impl Param {
    /// A parameter with a positive denominator, numerator and denominator small
    /// enough to evaluate with; it may lie outside `[0, 1]`.
    pub open spec fn wf(self) -> bool {
        0 < self.den <= PARAM_DEN_MAX && -PARAM_DEN_MAX <= self.num <= PARAM_DEN_MAX
    }
}

/// The numerator of the point at `n / d` between `a` and `b` (denominator `d`).
pub open spec fn lerp_num(a: int, b: int, n: int, d: int) -> int {
    (d - n) * a + n * b
}

/// The numerator of the quadratic with control values `a, b, c` at `n / d`
/// (denominator `d * d`).
pub open spec fn quad_num(a: int, b: int, c: int, n: int, d: int) -> int {
    (d - n) * (d - n) * a + 2 * n * (d - n) * b + n * n * c
}

/// The point at `n / d` between `a` and `b`, rounded down.
pub open spec fn lerp_at(a: int, b: int, n: int, d: int) -> int {
    lerp_num(a, b, n, d) / d
}

/// The quadratic with control values `a, b, c` at `n / d`, rounded down.
pub open spec fn quad_at(a: int, b: int, c: int, n: int, d: int) -> int {
    quad_num(a, b, c, n, d) / (d * d)
}

/// Whether `y` lies between `x` and `z`, whichever is larger.
pub open spec fn between(x: int, y: int, z: int) -> bool {
    (x <= y <= z) || (z <= y <= x)
}

/// Where the quadratic with control values `a, b, c` turns back on its axis, as
/// `(num, den)` with `0 < num < den`; none where `b` lies between `a` and `c`.
pub open spec fn turn_of(a: int, b: int, c: int) -> Option<(int, int)> {
    if between(a, b, c) {
        None
    } else if a - 2 * b + c < 0 {
        Some((b - a, 2 * b - a - c))
    } else {
        Some((a - b, a - 2 * b + c))
    }
}

pub proof fn lemma_turn_bounds(a: int, b: int, c: int)
    requires
        turn_of(a, b, c) is Some,
    ensures
        0 < (turn_of(a, b, c)->0).0 < (turn_of(a, b, c)->0).1,
        (turn_of(a, b, c)->0).1 * (a - b) == (turn_of(a, b, c)->0).0 * (a - 2 * b + c),
{
    if a - 2 * b + c < 0 {
        assert((2 * b - a - c) * (a - b) == (b - a) * (a - 2 * b + c)) by (nonlinear_arith);
    } else {
        assert((a - 2 * b + c) * (a - b) == (a - b) * (a - 2 * b + c)) by (nonlinear_arith);
    }
}

proof fn lemma_div_exact(a: int, d: int)
    requires
        d > 0,
    ensures
        (a * d) / d == a,
{
    lemma_div_multiples_vanish(a, d);
    assert(a * d == d * a) by (nonlinear_arith);
}

/// Dividing by `d` rounds down exactly as multiplying by `d` and dividing by `d * d`.
proof fn lemma_div_scale(x: int, d: int)
    requires
        d > 0,
    ensures
        (x * d) / (d * d) == x / d,
{
    lemma_fundamental_div_mod(x, d);
    assert(0 <= x % d < d);
    let q = x / d;
    let r = x % d;
    assert(x * d == q * (d * d) + r * d && 0 <= r * d < d * d) by (nonlinear_arith)
        requires
            x == d * q + r,
            0 <= r < d,
    ;
    lemma_fundamental_div_mod_converse_div(x * d, d * d, q, r * d);
}

proof fn lemma_quad_is_lerp_of_lerps(a: int, b: int, c: int, n: int, d: int)
    ensures
        quad_num(a, b, c, n, d) == (d - n) * lerp_num(a, b, n, d) + n * lerp_num(b, c, n, d),
{
    let u = d - n;
    assert(u * (u * a + n * b) == u * u * a + u * n * b) by (nonlinear_arith);
    assert(n * (u * b + n * c) == n * u * b + n * n * c) by (nonlinear_arith);
    assert(u * n * b == n * u * b) by (nonlinear_arith);
    assert(2 * n * u * b == n * u * b + n * u * b) by (nonlinear_arith);
    assert((d - n) * (d - n) * a == u * u * a);
    assert(2 * n * (d - n) * b == 2 * n * u * b);
}

/// A lerp lies between its two ends.
pub proof fn lemma_lerp_between(a: int, b: int, n: int, d: int)
    requires
        0 <= n <= d,
        d > 0,
    ensures
        between(a, lerp_at(a, b, n, d), b),
{
    let x = lerp_num(a, b, n, d);
    if a <= b {
        assert(a * d <= x <= b * d) by (nonlinear_arith)
            requires
                x == (d - n) * a + n * b,
                0 <= n <= d,
                a <= b,
        ;
        lemma_div_is_ordered(a * d, x, d);
        lemma_div_is_ordered(x, b * d, d);
    } else {
        assert(b * d <= x <= a * d) by (nonlinear_arith)
            requires
                x == (d - n) * a + n * b,
                0 <= n <= d,
                b < a,
        ;
        lemma_div_is_ordered(b * d, x, d);
        lemma_div_is_ordered(x, a * d, d);
    }
    lemma_div_exact(a, d);
    lemma_div_exact(b, d);
}

/// The quadratic's value is the lerp of the two lerps, so it lies between them.
pub proof fn lemma_quad_between(a: int, b: int, c: int, n: int, d: int)
    requires
        0 <= n <= d,
        d > 0,
    ensures
        between(lerp_at(a, b, n, d), quad_at(a, b, c, n, d), lerp_at(b, c, n, d)),
{
    let n0 = lerp_num(a, b, n, d);
    let n1 = lerp_num(b, c, n, d);
    let nm = quad_num(a, b, c, n, d);
    lemma_quad_is_lerp_of_lerps(a, b, c, n, d);
    lemma_div_scale(n0, d);
    lemma_div_scale(n1, d);
    assert(d * d > 0) by (nonlinear_arith)
        requires
            d > 0,
    ;
    if n0 <= n1 {
        assert(n0 * d <= nm <= n1 * d) by (nonlinear_arith)
            requires
                nm == (d - n) * n0 + n * n1,
                0 <= n <= d,
                n0 <= n1,
        ;
        lemma_div_is_ordered(n0 * d, nm, d * d);
        lemma_div_is_ordered(nm, n1 * d, d * d);
    } else {
        assert(n1 * d <= nm <= n0 * d) by (nonlinear_arith)
            requires
                nm == (d - n) * n0 + n * n1,
                0 <= n <= d,
                n1 < n0,
        ;
        lemma_div_is_ordered(n1 * d, nm, d * d);
        lemma_div_is_ordered(nm, n0 * d, d * d);
    }
    lemma_lerp_between(a, b, n, d);
    lemma_lerp_between(b, c, n, d);
}

/// Splitting an axis on which the quadratic does not turn back leaves both pieces
/// without a turn: `a, q0, m` and `m, q1, c` are each in order.
pub proof fn lemma_split_monotone_axis(a: int, b: int, c: int, n: int, d: int)
    requires
        between(a, b, c),
        0 <= n <= d,
        d > 0,
    ensures
        between(a, lerp_at(a, b, n, d), quad_at(a, b, c, n, d)),
        between(quad_at(a, b, c, n, d), lerp_at(b, c, n, d), c),
{
    let n0 = lerp_num(a, b, n, d);
    let n1 = lerp_num(b, c, n, d);
    let nm = quad_num(a, b, c, n, d);
    lemma_quad_is_lerp_of_lerps(a, b, c, n, d);
    lemma_div_scale(n0, d);
    lemma_div_scale(n1, d);
    lemma_div_exact(a, d);
    lemma_div_exact(c, d);
    assert(d * d > 0) by (nonlinear_arith)
        requires
            d > 0,
    ;
    if a <= b && b <= c {
        assert(a * d <= n0 <= n1 <= c * d) by (nonlinear_arith)
            requires
                n0 == (d - n) * a + n * b,
                n1 == (d - n) * b + n * c,
                0 <= n <= d,
                a <= b <= c,
        ;
        assert(n0 * d <= nm <= n1 * d) by (nonlinear_arith)
            requires
                nm == (d - n) * n0 + n * n1,
                0 <= n <= d,
                n0 <= n1,
        ;
        lemma_div_is_ordered(a * d, n0, d);
        lemma_div_is_ordered(n1, c * d, d);
        lemma_div_is_ordered(n0 * d, nm, d * d);
        lemma_div_is_ordered(nm, n1 * d, d * d);
    } else {
        assert(c * d <= n1 <= n0 <= a * d) by (nonlinear_arith)
            requires
                n0 == (d - n) * a + n * b,
                n1 == (d - n) * b + n * c,
                0 <= n <= d,
                c <= b <= a,
        ;
        assert(n1 * d <= nm <= n0 * d) by (nonlinear_arith)
            requires
                nm == (d - n) * n0 + n * n1,
                0 <= n <= d,
                n1 <= n0,
        ;
        lemma_div_is_ordered(n0, a * d, d);
        lemma_div_is_ordered(c * d, n1, d);
        lemma_div_is_ordered(n1 * d, nm, d * d);
        lemma_div_is_ordered(nm, n0 * d, d * d);
    }
}

/// Splitting an axis exactly where it turns back gives one value for the two new
/// control values and the split point.
pub proof fn lemma_split_at_turn(a: int, b: int, c: int, n: int, d: int)
    requires
        n * (a - 2 * b + c) == d * (a - b),
        d > 0,
    ensures
        lerp_at(a, b, n, d) == quad_at(a, b, c, n, d),
        lerp_at(b, c, n, d) == quad_at(a, b, c, n, d),
{
    let n0 = lerp_num(a, b, n, d);
    let n1 = lerp_num(b, c, n, d);
    lemma_quad_is_lerp_of_lerps(a, b, c, n, d);
    assert(n1 - n0 == d * (b - a) + n * (a - 2 * b + c)) by (nonlinear_arith)
        requires
            n0 == (d - n) * a + n * b,
            n1 == (d - n) * b + n * c,
    ;
    assert(d * (b - a) == -(d * (a - b))) by (nonlinear_arith);
    assert(n0 == n1);
    assert((d - n) * n0 + n * n1 == n0 * d) by (nonlinear_arith)
        requires
            n0 == n1,
    ;
    lemma_div_scale(n0, d);
}

/// Splitting before an axis turns back leaves the first piece without a turn on
/// that axis.
pub proof fn lemma_split_before_turn(a: int, b: int, c: int, n: int, d: int)
    requires
        turn_of(a, b, c) is Some,
        n * (turn_of(a, b, c)->0).1 <= (turn_of(a, b, c)->0).0 * d,
        0 <= n <= d,
        d > 0,
    ensures
        between(a, lerp_at(a, b, n, d), quad_at(a, b, c, n, d)),
{
    let n0 = lerp_num(a, b, n, d);
    let n1 = lerp_num(b, c, n, d);
    let nm = quad_num(a, b, c, n, d);
    let s = b - a;
    let e = a - 2 * b + c;
    lemma_quad_is_lerp_of_lerps(a, b, c, n, d);
    assert(n0 - a * d == n * s) by (nonlinear_arith)
        requires
            n0 == (d - n) * a + n * b,
            s == b - a,
    ;
    assert(n1 - n0 == d * s + n * e) by (nonlinear_arith)
        requires
            n0 == (d - n) * a + n * b,
            n1 == (d - n) * b + n * c,
            s == b - a,
            e == a - 2 * b + c,
    ;
    assert(nm - n0 * d == n * (n1 - n0)) by (nonlinear_arith)
        requires
            nm == (d - n) * n0 + n * n1,
    ;
    lemma_div_scale(n0, d);
    lemma_div_exact(a, d);
    assert(d * d > 0) by (nonlinear_arith)
        requires
            d > 0,
    ;
    if e < 0 {
        assert(n * (-e) <= s * d);
        assert(s > 0);
        assert(d * s + n * e >= 0) by (nonlinear_arith)
            requires
                n * (-e) <= s * d,
        ;
        assert(n * s >= 0 && n * (d * s + n * e) >= 0) by (nonlinear_arith)
            requires
                n >= 0,
                s > 0,
                d * s + n * e >= 0,
        ;
        lemma_div_is_ordered(a * d, n0, d);
        lemma_div_is_ordered(n0 * d, nm, d * d);
    } else {
        assert(n * e <= (-s) * d);
        assert(s < 0);
        assert(d * s + n * e <= 0) by (nonlinear_arith)
            requires
                n * e <= (-s) * d,
        ;
        assert(n * s <= 0 && n * (d * s + n * e) <= 0) by (nonlinear_arith)
            requires
                n >= 0,
                s < 0,
                d * s + n * e <= 0,
        ;
        lemma_div_is_ordered(n0, a * d, d);
        lemma_div_is_ordered(nm, n0 * d, d * d);
    }
}

proof fn lemma_product_bound(x: int, y: int, bx: int, by: int)
    requires
        -bx <= x <= bx,
        -by <= y <= by,
    ensures
        -(bx * by) <= x * y <= bx * by,
{
    assert(-(bx * by) <= x * y <= bx * by) by (nonlinear_arith)
        requires
            -bx <= x <= bx,
            -by <= y <= by,
    ;
}

/// The point at `n / d` between `a` and `b`, rounded down.
pub fn lerp_i32(a: i32, b: i32, n: i64, d: i64) -> (r: i32)
    requires
        -PARAM_DEN_MAX <= n <= PARAM_DEN_MAX,
        0 < d <= PARAM_DEN_MAX,
        i32::MIN <= lerp_at(a as int, b as int, n as int, d as int) <= i32::MAX,
    ensures
        r == lerp_at(a as int, b as int, n as int, d as int),
{
    let m: i128 = d as i128 - n as i128;
    proof {
        lemma_product_bound(m as int, a as int, 0x200_0000_0000, 0x8000_0000);
        lemma_product_bound(n as int, b as int, 0x200_0000_0000, 0x8000_0000);
    }
    let x: i128 = m * a as i128 + n as i128 * b as i128;
    let q = floor_div_i128(x, d as i128);
    q as i32
}

/// The quadratic with control values `a, b, c` at `n / d`, rounded down.
pub fn quad_i32(a: i32, b: i32, c: i32, n: i64, d: i64) -> (r: i32)
    requires
        -PARAM_DEN_MAX <= n <= PARAM_DEN_MAX,
        0 < d <= PARAM_DEN_MAX,
        i32::MIN <= quad_at(a as int, b as int, c as int, n as int, d as int) <= i32::MAX,
    ensures
        r == quad_at(a as int, b as int, c as int, n as int, d as int),
{
    let m: i128 = d as i128 - n as i128;
    let n2: i128 = n as i128;
    let d2: i128 = d as i128;
    proof {
        let big = 0x200_0000_0000int;
        lemma_product_bound(m as int, m as int, big, big);
        lemma_product_bound(n2 as int, m as int, big, big);
        lemma_product_bound(n2 as int, n2 as int, big, big);
        lemma_product_bound(d2 as int, d2 as int, big, big);
        lemma_product_bound(m * m, a as int, big * big, 0x8000_0000);
        lemma_product_bound(n2 * m, b as int, big * big, 0x8000_0000);
        lemma_product_bound(n2 * n2, c as int, big * big, 0x8000_0000);
        assert(d2 * d2 > 0) by (nonlinear_arith)
            requires
                d2 > 0,
        ;
    }
    let x: i128 = m * m * a as i128 + 2 * (n2 * m * b as i128) + n2 * n2 * c as i128;
    proof {
        assert(x == quad_num(a as int, b as int, c as int, n as int, d as int)) by (nonlinear_arith)
            requires
                x == m * m * a + 2 * (n2 * m * b) + n2 * n2 * c,
                m == d - n,
                n2 == n,
        ;
    }
    let q = floor_div_i128(x, d2 * d2);
    q as i32
}

} // verus!

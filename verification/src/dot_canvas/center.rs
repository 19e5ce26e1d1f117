//! The centre of an arc is the centre of a circle through its two ends:
//! within a few ticks, it is as far from each end as the radius is long.
use vstd::prelude::*;
use crate::dot_canvas::arc::{
    center_of, chord_sq, is_scaled_root_floor, representable, scaled_root_floor,
};
use crate::dot_canvas::root::lemma_square_monotonic;

verus! {

/// The size of a number.
pub open spec fn abs(a: int) -> int {
    if a >= 0 {
        a
    } else {
        -a
    }
}

/// A rounded root is no larger than the root of `m`, where `w * w <= d`.
proof fn lemma_root_size(s: int, w: int, m: int, d: int, r: int)
    requires
        is_scaled_root_floor(s, w, m, d),
        d > 0,
        0 <= m <= 4 * r * r,
        r >= 0,
        w * w <= d,
    ensures
        abs(s) <= 2 * r,
{
    if w >= 0 {
        if s >= 1 {
            assert(s * s * d <= d * m) by (nonlinear_arith)
                requires
                    s * s * d <= w * w * m,
                    w * w <= d,
                    m >= 0,
            ;
            assert(s * s <= m) by (nonlinear_arith)
                requires
                    s * s * d <= d * m,
                    d > 0,
            ;
            assert((2 * r) * (2 * r) == 4 * r * r) by (nonlinear_arith);
            if s > 2 * r {
                lemma_square_monotonic(2 * r + 1, s);
                assert((2 * r + 1) * (2 * r + 1) > 4 * r * r) by (nonlinear_arith)
                    requires
                        r >= 0,
                ;
            }
        }
    } else {
        if s <= -1 {
            let c = -s - 1;
            assert((s + 1) * (s + 1) == c * c) by (nonlinear_arith)
                requires
                    c == -s - 1,
            ;
            assert(c * c * d < d * m) by (nonlinear_arith)
                requires
                    c * c * d < w * w * m,
                    w * w <= d,
                    m >= 0,
            ;
            assert(c * c < m) by (nonlinear_arith)
                requires
                    c * c * d < d * m,
                    d > 0,
            ;
            assert((2 * r) * (2 * r) == 4 * r * r) by (nonlinear_arith);
            if c >= 2 * r {
                lemma_square_monotonic(2 * r, c);
            }
        }
    }
}

/// The square of a rounded root is near the square of the root.
proof fn lemma_root_square(s: int, w: int, m: int, d: int)
    requires
        is_scaled_root_floor(s, w, m, d),
        d > 0,
        m >= 0,
    ensures
        -(2 * abs(s) + 1) * d < s * s * d - w * w * m < (2 * abs(s) + 1) * d,
{
    let n = w * w * m;
    let a = abs(s);
    assert(n >= 0) by (nonlinear_arith)
        requires
            n == w * w * m,
            m >= 0,
    ;
    assert(a * a == s * s) by (nonlinear_arith)
        requires
            a == s || a == -s,
    ;
    assert((a + 1) * (a + 1) * d == a * a * d + (2 * a + 1) * d) by (nonlinear_arith);
    assert((2 * a + 1) * d > 0) by (nonlinear_arith)
        requires
            a >= 0,
            d > 0,
    ;
    assert(-(2 * a + 1) * d == -((2 * a + 1) * d)) by (nonlinear_arith);
    if w >= 0 {
        assert((s + 1) * (s + 1) == (a + 1) * (a + 1));
    } else if s != 0 {
        assert((s + 1) * (s + 1) == (a - 1) * (a - 1)) by (nonlinear_arith)
            requires
                a == -s,
        ;
        assert((a - 1) * (a - 1) * d == a * a * d - (2 * a - 1) * d) by (nonlinear_arith);
        assert((2 * a - 1) * d < (2 * a + 1) * d) by (nonlinear_arith)
            requires
                d > 0,
        ;
    }
}

/// Of two numbers that are not negative, the one whose square is not the
/// larger one is not the larger one.
proof fn lemma_no_larger_square(p: int, q: int)
    requires
        0 <= q,
        p * p <= q * q,
    ensures
        p <= q,
{
    if p > q {
        lemma_square_monotonic(q + 1, p);
        assert((q + 1) * (q + 1) > q * q) by (nonlinear_arith)
            requires
                q >= 0,
        ;
    }
}

/// What both ways of rounding have in common, in sizes: the size `a` of the
/// rounded root of a number of size `b` is less than one off the root.
spec fn within_one(a: int, b: int, m: int, d: int) -> bool {
    &&& a >= 0
    &&& b >= 0
    &&& (a == 0 || (a - 1) * (a - 1) * d <= b * b * m)
    &&& b * b * m <= (a + 1) * (a + 1) * d
}

/// Rounded either way, a root is less than one off.
proof fn lemma_within_one(s: int, w: int, m: int, d: int)
    requires
        is_scaled_root_floor(s, w, m, d),
        d > 0,
        m >= 0,
    ensures
        within_one(abs(s), abs(w), m, d),
        w >= 0 ==> s >= 0,
        w < 0 ==> s <= 0,
{
    let a = abs(s);
    let b = abs(w);
    assert(a * a == s * s) by (nonlinear_arith)
        requires
            a == s || a == -s,
    ;
    assert(b * b == w * w) by (nonlinear_arith)
        requires
            b == w || b == -w,
    ;
    assert(b * b * m == w * w * m);
    assert(a * a * d == s * s * d);
    assert((a + 1) * (a + 1) * d >= a * a * d) by (nonlinear_arith)
        requires
            a >= 0,
            d > 0,
    ;
    if a > 0 {
        assert((a - 1) * (a - 1) * d <= a * a * d) by (nonlinear_arith)
            requires
                a >= 1,
                d > 0,
        ;
    }
    if w >= 0 {
        assert((s + 1) * (s + 1) * d == (a + 1) * (a + 1) * d);
    } else if s != 0 {
        assert((s + 1) * (s + 1) == (a - 1) * (a - 1)) by (nonlinear_arith)
            requires
                a == -s,
        ;
        assert((s + 1) * (s + 1) * d == (a - 1) * (a - 1) * d);
    }
}

/// The rounded roots of two numbers keep the ratio of the numbers but for
/// the rounding: `b2 * a1` and `b1 * a2` differ by at most `b1 + b2`.
proof fn lemma_sizes_cross(a1: int, b1: int, a2: int, b2: int, m: int, d: int)
    requires
        within_one(a1, b1, m, d),
        within_one(a2, b2, m, d),
        d > 0,
        m >= 0,
    ensures
        b2 * a1 - b1 * a2 <= b1 + b2,
{
    if a1 > 0 {
        let p = b2 * (a1 - 1);
        let q = b1 * (a2 + 1);
        assert(p >= 0 && q >= 0) by (nonlinear_arith)
            requires
                p == b2 * (a1 - 1),
                q == b1 * (a2 + 1),
                b1 >= 0,
                b2 >= 0,
                a1 >= 1,
                a2 >= 0,
        ;
        assert(p * p * d <= b2 * b2 * (b1 * b1 * m)) by (nonlinear_arith)
            requires
                p == b2 * (a1 - 1),
                (a1 - 1) * (a1 - 1) * d <= b1 * b1 * m,
        ;
        assert(b1 * b1 * (b2 * b2 * m) <= q * q * d) by (nonlinear_arith)
            requires
                q == b1 * (a2 + 1),
                b2 * b2 * m <= (a2 + 1) * (a2 + 1) * d,
        ;
        assert(b2 * b2 * (b1 * b1 * m) == b1 * b1 * (b2 * b2 * m)) by (nonlinear_arith);
        assert(p * p <= q * q) by (nonlinear_arith)
            requires
                p * p * d <= q * q * d,
                d > 0,
        ;
        lemma_no_larger_square(p, q);
        assert(b2 * a1 - b1 * a2 - (b1 + b2) == p - q) by (nonlinear_arith)
            requires
                p == b2 * (a1 - 1),
                q == b1 * (a2 + 1),
        ;
    } else {
        assert(b2 * a1 == 0) by (nonlinear_arith)
            requires
                a1 == 0,
        ;
        assert(b1 * a2 >= 0) by (nonlinear_arith)
            requires
                b1 >= 0,
                a2 >= 0,
        ;
    }
}

/// The rounded roots for two numbers keep the ratio of the numbers but for
/// the rounding.
proof fn lemma_roots_cross(sx: int, wx: int, sy: int, wy: int, m: int, d: int)
    requires
        is_scaled_root_floor(sx, wx, m, d),
        is_scaled_root_floor(sy, wy, m, d),
        d > 0,
        m >= 0,
    ensures
        -(abs(wx) + abs(wy)) <= wy * sx - wx * sy <= abs(wx) + abs(wy),
{
    let a1 = abs(sx);
    let b1 = abs(wx);
    let a2 = abs(sy);
    let b2 = abs(wy);
    lemma_within_one(sx, wx, m, d);
    lemma_within_one(sy, wy, m, d);
    lemma_sizes_cross(a1, b1, a2, b2, m, d);
    lemma_sizes_cross(a2, b2, a1, b1, m, d);
    let g = b2 * a1 - b1 * a2;
    assert(wy * sx - wx * sy == g || wy * sx - wx * sy == -g) by (nonlinear_arith)
        requires
            g == b2 * a1 - b1 * a2,
            (wx >= 0 && b1 == wx && a1 == sx) || (wx < 0 && b1 == -wx && a1 == -sx),
            (wy >= 0 && b2 == wy && a2 == sy) || (wy < 0 && b2 == -wy && a2 == -sy),
    ;
}

/// From any number whose square times `d` does not exceed `n`, the search
/// upwards finds the largest such number.
proof fn lemma_floor_exists(n: int, d: int, s: int) -> (f: int)
    requires
        d > 0,
        s >= 0,
        s * s * d <= n,
    ensures
        f >= s,
        f * f * d <= n < (f + 1) * (f + 1) * d,
    decreases n - s * s * d,
{
    if (s + 1) * (s + 1) * d > n {
        s
    } else {
        assert((s + 1) * (s + 1) * d > s * s * d) by (nonlinear_arith)
            requires
                s >= 0,
                d > 0,
        ;
        lemma_floor_exists(n, d, s + 1)
    }
}

/// There is a rounded root: `w * sqrt(m / d)` rounded down is a number.
pub proof fn lemma_scaled_root_exists(w: int, m: int, d: int)
    requires
        d > 0,
        m >= 0,
    ensures
        is_scaled_root_floor(scaled_root_floor(w, m, d), w, m, d),
{
    let n = w * w * m;
    assert(n >= 0) by (nonlinear_arith)
        requires
            n == w * w * m,
            m >= 0,
    ;
    assert(0 * 0 * d == 0) by (nonlinear_arith);
    let f = lemma_floor_exists(n, d, 0);
    if w >= 0 {
        assert(is_scaled_root_floor(f, w, m, d));
    } else {
        let c = if f * f * d == n {
            f
        } else {
            f + 1
        };
        let s = -c;
        assert(s * s == c * c) by (nonlinear_arith)
            requires
                s == -c,
        ;
        assert((s + 1) * (s + 1) == (c - 1) * (c - 1)) by (nonlinear_arith)
            requires
                s == -c,
        ;
        if c == f && f > 0 {
            assert((f - 1) * (f - 1) * d < f * f * d) by (nonlinear_arith)
                requires
                    f >= 1,
                    d > 0,
            ;
        }
        assert(is_scaled_root_floor(s, w, m, d));
    }
}

/// Whether `c` is, within the rounding of a centre, as far from `(x, y)` as
/// `r` is long: the square of the distance differs from the square of `r`
/// by at most `8 * r`, so that the distance itself differs from `r` by at
/// most 8 ticks.
pub open spec fn at_radius(c: (int, int), x: int, y: int, r: int) -> bool {
    let d2 = (c.0 - x) * (c.0 - x) + (c.1 - y) * (c.1 - y);
    -8 * r <= d2 - r * r <= 8 * r
}

/// Twice the vector from one end of the chord to the rounded centre: the
/// chord `(u, v)`, taken forwards or backwards, plus the rounded roots,
/// less what rounding the halves down took off. Its squared length is near
/// `4 * r * r`.
proof fn lemma_doubled_radius(
    u: int,
    v: int,
    sx: int,
    sy: int,
    ex: int,
    ey: int,
    wx: int,
    wy: int,
    m: int,
    d: int,
    r: int,
)
    requires
        d == u * u + v * v,
        d > 0,
        m == 4 * r * r - d,
        m >= 0,
        r >= 0,
        (wx == -v && wy == u) || (wx == v && wy == -u),
        is_scaled_root_floor(sx, wx, m, d),
        is_scaled_root_floor(sy, wy, m, d),
        0 <= ex <= 1,
        0 <= ey <= 1,
    ensures
        -(32 * r + 3) <= (u + sx - ex) * (u + sx - ex) + (v + sy - ey) * (v + sy - ey) - 4 * r
            * r <= 32 * r + 3,
        -(32 * r + 3) <= (-u + sx - ex) * (-u + sx - ex) + (-v + sy - ey) * (-v + sy - ey) - 4
            * r * r <= 32 * r + 3,
{
    let a = abs(sx);
    let b = abs(sy);
    assert(wx * wx + wy * wy == d) by (nonlinear_arith)
        requires
            d == u * u + v * v,
            (wx == -v && wy == u) || (wx == v && wy == -u),
    ;
    assert(0 <= wx * wx <= d && 0 <= wy * wy <= d && 0 <= u * u <= d && 0 <= v * v <= d)
        by (nonlinear_arith)
        requires
            d == u * u + v * v,
            wx * wx + wy * wy == d,
    ;
    assert(m <= 4 * r * r);
    lemma_root_size(sx, wx, m, d, r);
    lemma_root_size(sy, wy, m, d, r);
    // The chord is no longer than the diameter.
    assert((2 * r) * (2 * r) == 4 * r * r) by (nonlinear_arith);
    let au = abs(u);
    let av = abs(v);
    assert(au * au == u * u && av * av == v * v) by (nonlinear_arith)
        requires
            au == u || au == -u,
            av == v || av == -v,
    ;
    lemma_no_larger_square(au, 2 * r);
    lemma_no_larger_square(av, 2 * r);
    // The squares of the rounded roots add up to `m`, nearly.
    lemma_root_square(sx, wx, m, d);
    lemma_root_square(sy, wy, m, d);
    let gap = sx * sx + sy * sy - m;
    assert(gap * d == (sx * sx * d - wx * wx * m) + (sy * sy * d - wy * wy * m))
        by (nonlinear_arith)
        requires
            gap == sx * sx + sy * sy - m,
            wx * wx + wy * wy == d,
    ;
    assert(-(2 * a + 2 * b + 2) * d < gap * d < (2 * a + 2 * b + 2) * d) by (nonlinear_arith)
        requires
            gap * d == (sx * sx * d - wx * wx * m) + (sy * sy * d - wy * wy * m),
            -(2 * a + 1) * d < sx * sx * d - wx * wx * m < (2 * a + 1) * d,
            -(2 * b + 1) * d < sy * sy * d - wy * wy * m < (2 * b + 1) * d,
    ;
    assert(-(2 * a + 2 * b + 2) < gap < 2 * a + 2 * b + 2) by (nonlinear_arith)
        requires
            -(2 * a + 2 * b + 2) * d < gap * d < (2 * a + 2 * b + 2) * d,
            d > 0,
    ;
    // The rounded roots stand at right angles to the chord, nearly.
    lemma_roots_cross(sx, wx, sy, wy, m, d);
    let cross = u * sx + v * sy;
    assert(cross == wy * sx - wx * sy || cross == -(wy * sx - wx * sy)) by (nonlinear_arith)
        requires
            cross == u * sx + v * sy,
            (wx == -v && wy == u) || (wx == v && wy == -u),
    ;
    assert(abs(wx) + abs(wy) == au + av);
    assert(-(au + av) <= cross <= au + av);
    // What rounding the halves down took off.
    let off = sx * ex + sy * ey;
    assert(-(a + b) <= off <= a + b) by (nonlinear_arith)
        requires
            off == sx * ex + sy * ey,
            -a <= sx <= a,
            -b <= sy <= b,
            0 <= ex <= 1,
            0 <= ey <= 1,
    ;
    let lost = u * ex + v * ey;
    assert(-(au + av) <= lost <= au + av) by (nonlinear_arith)
        requires
            lost == u * ex + v * ey,
            -au <= u <= au,
            -av <= v <= av,
            0 <= ex <= 1,
            0 <= ey <= 1,
    ;
    let round = ex * ex + ey * ey;
    assert(0 <= round <= 2) by (nonlinear_arith)
        requires
            round == ex * ex + ey * ey,
            0 <= ex <= 1,
            0 <= ey <= 1,
    ;
    assert((u + sx - ex) * (u + sx - ex) + (v + sy - ey) * (v + sy - ey) - 4 * r * r == gap - 2
        * off + round + 2 * cross - 2 * lost) by (nonlinear_arith)
        requires
            gap == sx * sx + sy * sy - m,
            m == 4 * r * r - d,
            d == u * u + v * v,
            off == sx * ex + sy * ey,
            round == ex * ex + ey * ey,
            cross == u * sx + v * sy,
            lost == u * ex + v * ey,
    ;
    assert((-u + sx - ex) * (-u + sx - ex) + (-v + sy - ey) * (-v + sy - ey) - 4 * r * r == gap
        - 2 * off + round - 2 * cross + 2 * lost) by (nonlinear_arith)
        requires
            gap == sx * sx + sy * sy - m,
            m == 4 * r * r - d,
            d == u * u + v * v,
            off == sx * ex + sy * ey,
            round == ex * ex + ey * ey,
            cross == u * sx + v * sy,
            lost == u * ex + v * ey,
    ;
    // Each part is small, and so is their sum.
    assert(a <= 2 * r && b <= 2 * r && au <= 2 * r && av <= 2 * r);
    assert(-(8 * r + 1) <= gap <= 8 * r + 1);
    assert(-(4 * r) <= off <= 4 * r);
    assert(-(4 * r) <= cross <= 4 * r);
    assert(-(4 * r) <= lost <= 4 * r);
    assert(-(32 * r + 3) <= gap - 2 * off + round + 2 * cross - 2 * lost <= 32 * r + 3);
    assert(-(32 * r + 3) <= gap - 2 * off + round - 2 * cross + 2 * lost <= 32 * r + 3);
}

/// The centre of an arc is, within its rounding, as far from each of the
/// two ends as the radius is long.
pub proof fn lemma_center_is_at_radius(
    x1: int,
    y1: int,
    x2: int,
    y2: int,
    radius: int,
    sweep_flag: bool,
)
    requires
        representable(x1, y1, x2, y2, radius),
        chord_sq(x1, y1, x2, y2) != 0,
    ensures
        center_of(x1, y1, x2, y2, radius, sweep_flag).is_some(),
        at_radius(center_of(x1, y1, x2, y2, radius, sweep_flag).unwrap(), x1, y1, radius),
        at_radius(center_of(x1, y1, x2, y2, radius, sweep_flag).unwrap(), x2, y2, radius),
{
    let u = x2 - x1;
    let v = y2 - y1;
    let d = chord_sq(x1, y1, x2, y2);
    let m = 4 * radius * radius - d;
    let sign: int = if sweep_flag {
        1
    } else {
        -1
    };
    let wx = sign * (y1 - y2);
    let wy = sign * (x2 - x1);
    assert((wx == -v && wy == u) || (wx == v && wy == -u)) by (nonlinear_arith)
        requires
            wx == sign * (y1 - y2),
            wy == sign * (x2 - x1),
            sign == 1 || sign == -1,
            u == x2 - x1,
            v == y2 - y1,
    ;
    assert(d >= 0) by (nonlinear_arith)
        requires
            d == (x2 - x1) * (x2 - x1) + (y2 - y1) * (y2 - y1),
    ;
    let sx = scaled_root_floor(wx, m, d);
    let sy = scaled_root_floor(wy, m, d);
    lemma_scaled_root_exists(wx, m, d);
    lemma_scaled_root_exists(wy, m, d);
    let c = center_of(x1, y1, x2, y2, radius, sweep_flag).unwrap();
    let ex = (x1 + x2 + sx) % 2;
    let ey = (y1 + y2 + sy) % 2;
    assert(2 * c.0 == x1 + x2 + sx - ex);
    assert(2 * c.1 == y1 + y2 + sy - ey);
    lemma_doubled_radius(u, v, sx, sy, ex, ey, wx, wy, m, d, radius);
    let p = c.0 - x1;
    let q = c.1 - y1;
    assert(4 * (p * p + q * q) == (u + sx - ex) * (u + sx - ex) + (v + sy - ey) * (v + sy - ey))
        by (nonlinear_arith)
        requires
            2 * p == u + sx - ex,
            2 * q == v + sy - ey,
    ;
    let p2 = c.0 - x2;
    let q2 = c.1 - y2;
    assert(4 * (p2 * p2 + q2 * q2) == (-u + sx - ex) * (-u + sx - ex) + (-v + sy - ey) * (-v
        + sy - ey)) by (nonlinear_arith)
        requires
            2 * p2 == -u + sx - ex,
            2 * q2 == -v + sy - ey,
    ;
    let rr = radius * radius;
    let d1 = p * p + q * q;
    let d2 = p2 * p2 + q2 * q2;
    assert(4 * radius * radius == 4 * rr) by (nonlinear_arith)
        requires
            rr == radius * radius,
    ;
    assert(-(32 * radius + 3) <= 4 * d1 - 4 * rr <= 32 * radius + 3);
    assert(-(32 * radius + 3) <= 4 * d2 - 4 * rr <= 32 * radius + 3);
    assert(-8 * radius <= d1 - rr <= 8 * radius);
    assert(-8 * radius <= d2 - rr <= 8 * radius);
}

} // verus!

//! Arcs: part of a circle between two points on it.
use vstd::prelude::*;
use crate::dot_canvas::circle::{
    lemma_sweep_points_near, lemma_sweep_within_circle, near_circle, sweep, sweep_points, Circle,
};
use crate::dot_canvas::center::{at_radius, lemma_center_is_at_radius};
use crate::dot_canvas::root::{isqrt, lemma_square_monotonic};
use crate::dot_canvas::shape::{as_ints, option_as_ints, point_as_ints, Point, PointCursor};

verus! {

/// Why an arc cannot be made.
#[derive(Clone, Copy, Debug, PartialEq, Eq, Structural)]
pub enum ArcError {
    /// The radius is less than half the distance between the two end points,
    /// so no circle of that radius passes through both.
    RadiusTooSmall,
}

/// An arc from `(x1, y1)` to `(x2, y2)` on a circle of the given radius. Of
/// the two circles of that radius through both points, `sweep_flag` picks one.
#[derive(Clone, Copy, Debug)]
pub struct Arc {
    x1: i32,
    y1: i32,
    x2: i32,
    y2: i32,
    radius: i32,
    sweep_flag: bool,
}

/// The square of the distance between two points.
pub open spec fn chord_sq(x1: int, y1: int, x2: int, y2: int) -> int {
    (x2 - x1) * (x2 - x1) + (y2 - y1) * (y2 - y1)
}

/// Whether a circle of the given radius passes through both points: the
/// radius is at least half their distance.
pub open spec fn representable(x1: int, y1: int, x2: int, y2: int, radius: int) -> bool {
    radius >= 0 && 4 * radius * radius >= chord_sq(x1, y1, x2, y2)
}

/// Whether `s` is `w * sqrt(m / d)` rounded down to a whole number, for
/// `m >= 0` and `d > 0`. Stated without roots: for `w >= 0`, the square of
/// `s` times `d` does not exceed `w * w * m`, and that of `s + 1` does; for
/// `w < 0`, the same with the signs turned.
pub open spec fn is_scaled_root_floor(s: int, w: int, m: int, d: int) -> bool {
    if w >= 0 {
        s >= 0 && s * s * d <= w * w * m < (s + 1) * (s + 1) * d
    } else {
        s <= 0 && s * s * d >= w * w * m && (s == 0 || (s + 1) * (s + 1) * d < w * w * m)
    }
}

/// `w * sqrt(m / d)` rounded down to a whole number.
pub open spec fn scaled_root_floor(w: int, m: int, d: int) -> int {
    choose|s: int| is_scaled_root_floor(s, w, m, d)
}

/// The centre of the circle of an arc, each coordinate rounded down to a
/// whole tick; none where the two end points are the same.
///
/// With `q` the distance of the end points and `h = sqrt(radius^2 - (q/2)^2)`,
/// the exact centre is the midpoint of the end points plus (with the sweep
/// flag) or minus (without it) the vector `(h (y1 - y2) / q, h (x2 - x1) / q)`.
/// Twice that vector is `((y1 - y2) sqrt(m / d), (x2 - x1) sqrt(m / d))` with
/// `d = q^2` and `m = 4 radius^2 - d`.
pub open spec fn center_of(
    x1: int,
    y1: int,
    x2: int,
    y2: int,
    radius: int,
    sweep_flag: bool,
) -> Option<(int, int)> {
    let d = chord_sq(x1, y1, x2, y2);
    let m = 4 * radius * radius - d;
    let sign: int = if sweep_flag {
        1
    } else {
        -1
    };
    if d == 0 {
        None
    } else {
        Some(
            (
                (x1 + x2 + scaled_root_floor(sign * (y1 - y2), m, d)) / 2,
                (y1 + y2 + scaled_root_floor(sign * (x2 - x1), m, d)) / 2,
            ),
        )
    }
}

/// The octant, from 0 to 7, in which `(x2, y2)` lies as seen from `(x1, y1)`.
/// The vertical distance counts twice, since a dot is twice as high as it
/// is wide, and upwards on the screen is positive. A direction below the
/// horizontal is turned by half a turn (octants 4 to 7), one to the left of
/// the vertical by a quarter turn (2 more), and what then lies above the
/// diagonal is the upper octant of its quarter (1 more).
pub open spec fn octant_of(x1: int, y1: int, x2: int, y2: int) -> int {
    let dx = x2 - x1;
    let dy = -(2 * y2 - 2 * y1);
    let half: int = if dy < 0 {
        4
    } else {
        0
    };
    let dx1 = if dy < 0 {
        -dx
    } else {
        dx
    };
    let dy1 = if dy < 0 {
        -dy
    } else {
        dy
    };
    let quarter: int = if dx1 < 0 {
        2
    } else {
        0
    };
    let dx2 = if dx1 < 0 {
        dy1
    } else {
        dx1
    };
    let dy2 = if dx1 < 0 {
        -dx1
    } else {
        dy1
    };
    let eighth: int = if dx2 < dy2 {
        1
    } else {
        0
    };
    half + quarter + eighth
}

/// At most one number is `w * sqrt(m / d)` rounded down.
pub proof fn lemma_scaled_root_floor_unique(s1: int, s2: int, w: int, m: int, d: int)
    requires
        d > 0,
        is_scaled_root_floor(s1, w, m, d),
        is_scaled_root_floor(s2, w, m, d),
    ensures
        s1 == s2,
{
    let n = w * w * m;
    if w >= 0 {
        if s1 < s2 {
            lemma_square_monotonic(s1 + 1, s2);
            assert((s1 + 1) * (s1 + 1) * d <= s2 * s2 * d) by (nonlinear_arith)
                requires
                    (s1 + 1) * (s1 + 1) <= s2 * s2,
                    d > 0,
            ;
        } else if s2 < s1 {
            lemma_square_monotonic(s2 + 1, s1);
            assert((s2 + 1) * (s2 + 1) * d <= s1 * s1 * d) by (nonlinear_arith)
                requires
                    (s2 + 1) * (s2 + 1) <= s1 * s1,
                    d > 0,
            ;
        }
    } else {
        if s1 < s2 {
            // -s1 > -s2 >= 0, so (s1 + 1)^2 >= s2^2
            lemma_square_monotonic(-s2, -(s1 + 1));
            assert(s2 * s2 == (-s2) * (-s2)) by (nonlinear_arith);
            assert((s1 + 1) * (s1 + 1) == (-(s1 + 1)) * (-(s1 + 1))) by (nonlinear_arith);
            assert(s2 * s2 * d <= (s1 + 1) * (s1 + 1) * d) by (nonlinear_arith)
                requires
                    s2 * s2 <= (s1 + 1) * (s1 + 1),
                    d > 0,
            ;
        } else if s2 < s1 {
            lemma_square_monotonic(-s1, -(s2 + 1));
            assert(s1 * s1 == (-s1) * (-s1)) by (nonlinear_arith);
            assert((s2 + 1) * (s2 + 1) == (-(s2 + 1)) * (-(s2 + 1))) by (nonlinear_arith);
            assert(s1 * s1 * d <= (s2 + 1) * (s2 + 1) * d) by (nonlinear_arith)
                requires
                    s1 * s1 <= (s2 + 1) * (s2 + 1),
                    d > 0,
            ;
        }
    }
}

/// `w * sqrt(m / d)` rounded down, for `w * w <= d`, which keeps the result
/// between `-sqrt(m)` and `sqrt(m)`.
fn scaled_root(w: i64, m: u64, d: u64) -> (s: i64)
    requires
        d > 0,
        -0x1_0000_0000 < w < 0x1_0000_0000,
        w * w <= d,
    ensures
        is_scaled_root_floor(s as int, w as int, m as int, d as int),
        s == scaled_root_floor(w as int, m as int, d as int),
        -0x1_0000_0000 <= s <= 0x1_0000_0000,
{
    let a: u64 = if w >= 0 {
        w as u64
    } else {
        (-w) as u64
    };
    assert(a * a == w * w) by (nonlinear_arith)
        requires
            a == w || a == -w,
    ;
    let aa: u128 = (a as u128) * (a as u128);
    assert(aa * m <= 0xffff_ffff_ffff_ffff * 0xffff_ffff_ffff_ffff) by (nonlinear_arith)
        requires
            0 <= aa <= 0xffff_ffff_ffff_ffff,
            0 <= m <= 0xffff_ffff_ffff_ffff,
    ;
    let n: u128 = aa * (m as u128);
    let q: u128 = n / (d as u128);
    let rem: u128 = n % (d as u128);
    let ghost gn = n as int;
    let ghost gd = d as int;
    let ghost gq = q as int;
    assert(gn == gq * gd + rem && 0 <= rem < gd) by {
        vstd::arithmetic::div_mod::lemma_fundamental_div_mod(gn, gd);
    }
    assert(gn <= gd * m) by (nonlinear_arith)
        requires
            gn == aa * m,
            0 <= aa <= gd,
            0 <= m,
    ;
    assert(gq <= m) by (nonlinear_arith)
        requires
            gq * gd <= gd * m,
            gd > 0,
    ;
    let s: i64 = if w >= 0 {
        let r = isqrt(q as u64);
        let ghost gr = r as int;
        assert(gr * gr * gd <= gn) by (nonlinear_arith)
            requires
                gr * gr <= gq,
                gq * gd <= gn,
                gd > 0,
        ;
        assert(gn < (gr + 1) * (gr + 1) * gd) by (nonlinear_arith)
            requires
                gq + 1 <= (gr + 1) * (gr + 1),
                gn < gq * gd + gd,
                gd > 0,
        ;
        r as i64
    } else {
        let k: u64 = if rem == 0 {
            q as u64
        } else {
            assert(gq < m) by (nonlinear_arith)
                requires
                    gn == gq * gd + rem,
                    rem > 0,
                    gn <= gd * m,
                    gd > 0,
            ;
            (q + 1) as u64
        };
        let ghost gk = k as int;
        // k is n / d rounded up.
        assert(gk * gd >= gn) by (nonlinear_arith)
            requires
                gn == gq * gd + rem,
                0 <= rem < gd,
                gk == if rem == 0 {
                    gq
                } else {
                    gq + 1
                },
        ;
        assert(gk == 0 || (gk - 1) * gd < gn) by (nonlinear_arith)
            requires
                gn == gq * gd + rem,
                0 <= rem < gd,
                gq >= 0,
                gk == if rem == 0 {
                    gq
                } else {
                    gq + 1
                },
        ;
        let r = isqrt(k);
        let c: u64 = if r * r == k {
            r
        } else {
            r + 1
        };
        let ghost gc = c as int;
        assert(gc == 0 || (gc - 1) * (gc - 1) < gk) by {
            if r * r == k {
                if gc > 0 {
                    assert((gc - 1) * (gc - 1) < gc * gc) by (nonlinear_arith)
                        requires
                            gc > 0,
                    ;
                }
            }
        }
        assert(gc * gc * gd >= gn) by (nonlinear_arith)
            requires
                gc * gc >= gk,
                gk * gd >= gn,
                gd > 0,
        ;
        assert(gc == 0 || (gc - 1) * (gc - 1) * gd < gn) by {
            if gc > 0 {
                assert((gc - 1) * (gc - 1) * gd < gn) by (nonlinear_arith)
                    requires
                        (gc - 1) * (gc - 1) <= gk - 1,
                        (gk - 1) * gd < gn,
                        gd > 0,
                ;
            }
        }
        let s0 = -(c as i64);
        assert(s0 * s0 == gc * gc) by (nonlinear_arith)
            requires
                s0 == -gc,
        ;
        assert((s0 + 1) * (s0 + 1) == (gc - 1) * (gc - 1)) by (nonlinear_arith)
            requires
                s0 == -gc,
        ;
        s0
    };
    proof {
        let t = scaled_root_floor(w as int, m as int, d as int);
        assert(is_scaled_root_floor(s as int, w as int, m as int, d as int));
        lemma_scaled_root_floor_unique(s as int, t, w as int, m as int, d as int);
    }
    s
}

/// Half of `v`, rounded down.
fn half_floor(v: i64) -> (h: i64)
    requires
        -0x100_0000_0000 <= v <= 0x100_0000_0000,
    ensures
        h == v as int / 2,
{
    if v >= 0 {
        v / 2
    } else {
        -((1 - v) / 2)
    }
}

/// The octant, from 0 to 7, in which `(x2, y2)` lies as seen from `(x1, y1)`.
pub fn line_octant(x1: i64, y1: i64, x2: i64, y2: i64) -> (octant: u8)
    ensures
        octant == octant_of(x1 as int, y1 as int, x2 as int, y2 as int),
        octant < 8,
{
    let mut dx: i128 = x2 as i128 - x1 as i128;
    let mut dy: i128 = -(2 * (y2 as i128) - 2 * (y1 as i128));
    let mut octant: u8 = 0;
    if dy < 0 {
        dx = -dx;
        dy = -dy;
        octant = octant + 4;
    }
    if dx < 0 {
        let tmp = dx;
        dx = dy;
        dy = -tmp;
        octant = octant + 2;
    }
    if dx < dy {
        octant = octant + 1;
    }
    octant
}

/// The points that an arc iterates over.
pub type ArcIterator = PointCursor;

impl Arc {
    /// Every arc is one that a circle of its radius passes through.
    #[verifier::type_invariant]
    spec fn well_formed(self) -> bool {
        representable(
            self.x1 as int,
            self.y1 as int,
            self.x2 as int,
            self.y2 as int,
            self.radius as int,
        )
    }

    /// The x coordinate of the first end.
    pub closed spec fn spec_x1(&self) -> i32 {
        self.x1
    }

    /// The y coordinate of the first end.
    pub closed spec fn spec_y1(&self) -> i32 {
        self.y1
    }

    /// The x coordinate of the second end.
    pub closed spec fn spec_x2(&self) -> i32 {
        self.x2
    }

    /// The y coordinate of the second end.
    pub closed spec fn spec_y2(&self) -> i32 {
        self.y2
    }

    /// The radius.
    pub closed spec fn spec_radius(&self) -> i32 {
        self.radius
    }

    /// Which of the two circles through both ends the arc lies on.
    pub closed spec fn spec_sweep_flag(&self) -> bool {
        self.sweep_flag
    }

    /// An arc from `(x1, y1)` to `(x2, y2)`, if a circle of the given radius
    /// passes through both points.
    pub fn new(x1: i32, y1: i32, x2: i32, y2: i32, radius: i32, sweep_flag: bool) -> (r: Result<
        Arc,
        ArcError,
    >)
        ensures
            r.is_ok() <==> representable(
                x1 as int,
                y1 as int,
                x2 as int,
                y2 as int,
                radius as int,
            ),
            r.is_err() ==> r == Err::<Arc, ArcError>(ArcError::RadiusTooSmall),
            r.is_ok() ==> r.unwrap().x1() == x1 && r.unwrap().y1() == y1,
            r.is_ok() ==> r.unwrap().x2() == x2 && r.unwrap().y2() == y2,
            r.is_ok() ==> r.unwrap().radius() == radius && r.unwrap().sweep_flag() == sweep_flag,
    {
        if radius < 0 {
            return Err(ArcError::RadiusTooSmall);
        }
        let dx: i64 = x2 as i64 - x1 as i64;
        let dy: i64 = y2 as i64 - y1 as i64;
        let r: i64 = radius as i64;
        assert(dx * dx <= 0xffff_ffff * 0xffff_ffff) by (nonlinear_arith)
            requires
                -0xffff_ffff <= dx <= 0xffff_ffff,
        ;
        assert(dy * dy <= 0xffff_ffff * 0xffff_ffff) by (nonlinear_arith)
            requires
                -0xffff_ffff <= dy <= 0xffff_ffff,
        ;
        assert(0 <= dx * dx && 0 <= dy * dy && 0 <= r * r) by (nonlinear_arith);
        assert(r * r <= 0x7fff_ffff * 0x7fff_ffff) by (nonlinear_arith)
            requires
                0 <= r <= 0x7fff_ffff,
        ;
        let d: i128 = (dx as i128) * (dx as i128) + (dy as i128) * (dy as i128);
        let rr4: i128 = 4 * ((r as i128) * (r as i128));
        assert(rr4 == 4 * radius * radius) by (nonlinear_arith)
            requires
                rr4 == 4 * (r * r),
                r == radius,
        ;
        if rr4 < d {
            Err(ArcError::RadiusTooSmall)
        } else {
            Ok(Arc { x1, y1, x2, y2, radius, sweep_flag })
        }
    }

    /// The x coordinate of the first end.
    #[verifier::when_used_as_spec(spec_x1)]
    pub fn x1(&self) -> (v: i32)
        ensures
            v == self.spec_x1(),
    {
        self.x1
    }

    /// The y coordinate of the first end.
    #[verifier::when_used_as_spec(spec_y1)]
    pub fn y1(&self) -> (v: i32)
        ensures
            v == self.spec_y1(),
    {
        self.y1
    }

    /// The x coordinate of the second end.
    #[verifier::when_used_as_spec(spec_x2)]
    pub fn x2(&self) -> (v: i32)
        ensures
            v == self.spec_x2(),
    {
        self.x2
    }

    /// The y coordinate of the second end.
    #[verifier::when_used_as_spec(spec_y2)]
    pub fn y2(&self) -> (v: i32)
        ensures
            v == self.spec_y2(),
    {
        self.y2
    }

    /// The radius.
    #[verifier::when_used_as_spec(spec_radius)]
    pub fn radius(&self) -> (v: i32)
        ensures
            v == self.spec_radius(),
    {
        self.radius
    }

    /// Which of the two circles through both ends the arc lies on.
    #[verifier::when_used_as_spec(spec_sweep_flag)]
    pub fn sweep_flag(&self) -> (v: bool)
        ensures
            v == self.spec_sweep_flag(),
    {
        self.sweep_flag
    }

    /// The centre of the arc's circle, rounded down to whole ticks; none
    /// where the end points are the same.
    pub open spec fn spec_center(self) -> Option<(int, int)> {
        center_of(
            self.x1() as int,
            self.y1() as int,
            self.x2() as int,
            self.y2() as int,
            self.radius() as int,
            self.sweep_flag(),
        )
    }

    /// The first and the last octant of the arc, as seen from `center`: the
    /// one after that of the first end point, and that of the second.
    pub open spec fn spec_octant(self, center: (int, int)) -> (int, int) {
        (
            octant_of(center.0, center.1, self.x1() as int, self.y1() as int) + 1,
            octant_of(center.0, center.1, self.x2() as int, self.y2() as int),
        )
    }

    /// The points of the arc: those of the circle round the centre that lie
    /// in an octant from the first to the last, both included. There are
    /// none where the first octant comes after the last, and none where the
    /// end points are the same.
    pub open spec fn spec_points(self) -> Seq<(int, int)> {
        match self.spec_center() {
            None => Seq::empty(),
            Some(c) => sweep(
                c.0,
                c.1,
                self.radius() as int,
                0,
                0,
                self.spec_octant(c).0,
                self.spec_octant(c).1,
            ),
        }
    }

    /// The centre of the arc's circle, rounded down to whole ticks; none
    /// where the end points are the same.
    pub fn center(&self) -> (c: Option<Point>)
        ensures
            self.spec_center() == option_as_ints(c),
            c.is_some() ==> -0x1_0000_0000 <= c.unwrap().0 <= 0x1_0000_0000 && -0x1_0000_0000
                <= c.unwrap().1 <= 0x1_0000_0000,
            c.is_some() ==> at_radius(
                point_as_ints(c.unwrap()),
                self.x1() as int,
                self.y1() as int,
                self.radius() as int,
            ) && at_radius(
                point_as_ints(c.unwrap()),
                self.x2() as int,
                self.y2() as int,
                self.radius() as int,
            ),
    {
        proof {
            use_type_invariant(self);
            if chord_sq(self.x1 as int, self.y1 as int, self.x2 as int, self.y2 as int) != 0 {
                lemma_center_is_at_radius(
                    self.x1 as int,
                    self.y1 as int,
                    self.x2 as int,
                    self.y2 as int,
                    self.radius as int,
                    self.sweep_flag,
                );
            }
        }
        let dx: i64 = self.x2 as i64 - self.x1 as i64;
        let dy: i64 = self.y2 as i64 - self.y1 as i64;
        let r: i64 = self.radius as i64;
        assert(0 <= dx * dx <= 0xffff_ffff * 0xffff_ffff) by (nonlinear_arith)
            requires
                -0xffff_ffff <= dx <= 0xffff_ffff,
        ;
        assert(0 <= dy * dy <= 0xffff_ffff * 0xffff_ffff) by (nonlinear_arith)
            requires
                -0xffff_ffff <= dy <= 0xffff_ffff,
        ;
        assert(0 <= r * r <= 0x7fff_ffff * 0x7fff_ffff) by (nonlinear_arith)
            requires
                0 <= r <= 0x7fff_ffff,
        ;
        let d: i128 = (dx as i128) * (dx as i128) + (dy as i128) * (dy as i128);
        let rr4: i128 = 4 * ((r as i128) * (r as i128));
        assert(rr4 == 4 * self.radius * self.radius) by (nonlinear_arith)
            requires
                rr4 == 4 * (r * r),
                r == self.radius,
        ;
        if d == 0 {
            return None;
        }
        let m: u64 = (rr4 - d) as u64;
        let d64: u64 = d as u64;
        let wx: i64 = if self.sweep_flag {
            -dy
        } else {
            dy
        };
        let wy: i64 = if self.sweep_flag {
            dx
        } else {
            -dx
        };
        assert(wx * wx == dy * dy) by (nonlinear_arith)
            requires
                wx == dy || wx == -dy,
        ;
        assert(wy * wy == dx * dx) by (nonlinear_arith)
            requires
                wy == dx || wy == -dx,
        ;
        let sx = scaled_root(wx, m, d64);
        let sy = scaled_root(wy, m, d64);
        let cx = half_floor(self.x1 as i64 + self.x2 as i64 + sx);
        let cy = half_floor(self.y1 as i64 + self.y2 as i64 + sy);
        proof {
            let sign: int = if self.sweep_flag {
                1
            } else {
                -1
            };
            assert(wx == sign * (self.y1 - self.y2)) by (nonlinear_arith)
                requires
                    wx == if self.sweep_flag {
                        -dy
                    } else {
                        dy as int
                    },
                    dy == self.y2 - self.y1,
                    sign == if self.sweep_flag {
                        1int
                    } else {
                        -1int
                    },
            ;
            assert(wy == sign * (self.x2 - self.x1)) by (nonlinear_arith)
                requires
                    wy == if self.sweep_flag {
                        dx as int
                    } else {
                        -dx
                    },
                    dx == self.x2 - self.x1,
                    sign == if self.sweep_flag {
                        1int
                    } else {
                        -1int
                    },
            ;
        }
        Some((cx, cy))
    }

    /// The first and the last octant of the arc; none where it has no centre.
    pub fn octant(&self) -> (o: Option<(u8, u8)>)
        ensures
            o.is_some() == self.spec_center().is_some(),
            o.is_some() ==> (o.unwrap().0 as int, o.unwrap().1 as int) == self.spec_octant(
                self.spec_center().unwrap(),
            ),
    {
        match self.center() {
            None => None,
            Some(c) => {
                let o1 = line_octant(c.0, c.1, self.x1 as i64, self.y1 as i64);
                let o2 = line_octant(c.0, c.1, self.x2 as i64, self.y2 as i64);
                Some((o1 + 1, o2))
            },
        }
    }

    /// The points of the arc.
    pub fn points(&self) -> (points: Vec<Point>)
        ensures
            as_ints(points@) == self.spec_points(),
    {
        match self.center() {
            None => {
                let points: Vec<Point> = Vec::new();
                points
            },
            Some(c) => {
                let o1 = line_octant(c.0, c.1, self.x1 as i64, self.y1 as i64);
                let o2 = line_octant(c.0, c.1, self.x2 as i64, self.y2 as i64);
                sweep_points(c.0, c.1, self.radius, o1 + 1, o2)
            },
        }
    }

    /// A cursor over the points of the arc.
    pub fn into_iter(&self) -> (iter: ArcIterator)
        ensures
            as_ints(iter.all()) == self.spec_points(),
            iter.remaining() == iter.all(),
    {
        PointCursor::new(self.points())
    }
}

/// An arc has a centre where it has points, and every point of it lies near
/// the circle of its radius round that centre.
pub proof fn lemma_arc_points_near(arc: Arc, p: (int, int))
    requires
        arc.spec_points().contains(p),
    ensures
        arc.spec_center().is_some(),
        near_circle(
            arc.spec_center().unwrap().0,
            arc.spec_center().unwrap().1,
            arc.radius() as int,
            p,
        ),
{
    match arc.spec_center() {
        None => {},
        Some(c) => {
            lemma_sweep_points_near(
                c.0,
                c.1,
                arc.radius() as int,
                arc.spec_octant(c).0,
                arc.spec_octant(c).1,
                p,
            );
        },
    }
}

/// An arc is part of its circle: each of its points is a point of the
/// circle of its radius round its centre.
pub proof fn lemma_arc_within_circle(arc: Arc, circle: Circle, p: (int, int))
    requires
        arc.spec_points().contains(p),
        arc.spec_center() == Some((circle.x as int, circle.y as int)),
        circle.radius == arc.radius(),
    ensures
        circle.spec_points().contains(p),
{
    let c = arc.spec_center().unwrap();
    lemma_sweep_within_circle(
        c.0,
        c.1,
        arc.radius() as int,
        0,
        0,
        arc.spec_octant(c).0,
        arc.spec_octant(c).1,
        p,
    );
}

} // verus!

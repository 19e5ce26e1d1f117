//! Circles, and the stepping that circles and arcs share.
use vstd::prelude::*;
use crate::dot_canvas::shape::{as_ints, lemma_as_ints_push, Point, PointCursor, STEP};

verus! {

/// The point of octant `k` that belongs to the offset `(x, y)` from the
/// centre `(cx, cy)`. Octant 0 lies just above the positive x axis on the
/// screen (where y grows downwards), and the numbers go round from there.
pub open spec fn octant_point(cx: int, cy: int, x: int, y: int, k: int) -> (int, int) {
    if k == 7 {
        (cx + x, cy + y)
    } else if k == 6 {
        (cx + y, cy + x)
    } else if k == 5 {
        (cx - y, cy + x)
    } else if k == 4 {
        (cx - x, cy + y)
    } else if k == 3 {
        (cx - x, cy - y)
    } else if k == 2 {
        (cx - y, cy - x)
    } else if k == 1 {
        (cx + y, cy - x)
    } else {
        (cx + x, cy - y)
    }
}

/// The points that one offset contributes: those of the octants `k`, `k - 1`,
/// down to 0, in that order, leaving out each octant outside `lo..=hi`.
pub open spec fn ring(cx: int, cy: int, x: int, y: int, lo: int, hi: int, k: int) -> Seq<
    (int, int),
>
    decreases k + 1,
{
    if k < 0 {
        Seq::empty()
    } else {
        let head = if lo <= k <= hi {
            seq![octant_point(cx, cy, x, y, k)]
        } else {
            Seq::empty()
        };
        head + ring(cx, cy, x, y, lo, hi, k - 1)
    }
}

/// One step of the midpoint rule on the state `(x, y, err)`: where the error
/// is not positive, `y` advances; where it then is positive, `x` retreats.
/// Both may happen in one step.
pub open spec fn step(x: int, y: int, err: int) -> (int, int, int) {
    let y1 = if err <= 0 {
        y + STEP
    } else {
        y
    };
    let e1 = if err <= 0 {
        err + 2 * y1 + STEP
    } else {
        err
    };
    let x1 = if e1 > 0 {
        x - STEP
    } else {
        x
    };
    let e2 = if e1 > 0 {
        e1 - (2 * x1 + STEP)
    } else {
        e1
    };
    (x1, y1, e2)
}

/// All points produced from the state `(x, y, err)` on: the ring of the
/// current offset, then those of the following states, as long as `x >= y`.
pub open spec fn sweep(cx: int, cy: int, x: int, y: int, err: int, lo: int, hi: int) -> Seq<
    (int, int),
>
    decreases x - y + 2 * STEP,
{
    if x < y {
        Seq::empty()
    } else {
        ring(cx, cy, x, y, lo, hi, 7) + sweep(
            cx,
            cy,
            step(x, y, err).0,
            step(x, y, err).1,
            step(x, y, err).2,
            lo,
            hi,
        )
    }
}

/// Largest distance of a centre from the origin, on either axis, for which
/// `sweep_points` computes without overflow: two to the power 40.
pub(crate) const CENTER_LIMIT: i64 = 0x100_0000_0000;

/// Appends to `points` the points of the octants in `lo..=hi` for one offset.
fn push_ring(points: &mut Vec<Point>, cx: i64, cy: i64, x: i64, y: i64, lo: u8, hi: u8)
    requires
        -CENTER_LIMIT <= cx <= CENTER_LIMIT,
        -CENTER_LIMIT <= cy <= CENTER_LIMIT,
        -CENTER_LIMIT <= x <= CENTER_LIMIT,
        -CENTER_LIMIT <= y <= CENTER_LIMIT,
    ensures
        as_ints(final(points)@) == as_ints(old(points)@) + ring(
            cx as int,
            cy as int,
            x as int,
            y as int,
            lo as int,
            hi as int,
            7,
        ),
{
    let ghost before = as_ints(points@);
    let mut k: u8 = 8;
    while k > 0
        invariant
            k <= 8,
            -CENTER_LIMIT <= cx <= CENTER_LIMIT,
            -CENTER_LIMIT <= cy <= CENTER_LIMIT,
            -CENTER_LIMIT <= x <= CENTER_LIMIT,
            -CENTER_LIMIT <= y <= CENTER_LIMIT,
            as_ints(points@) + ring(
                cx as int,
                cy as int,
                x as int,
                y as int,
                lo as int,
                hi as int,
                k as int - 1,
            ) == before + ring(cx as int, cy as int, x as int, y as int, lo as int, hi as int, 7),
        decreases k,
    {
        k = k - 1;
        if lo <= k && k <= hi {
            let p: Point = if k == 7 {
                (cx + x, cy + y)
            } else if k == 6 {
                (cx + y, cy + x)
            } else if k == 5 {
                (cx - y, cy + x)
            } else if k == 4 {
                (cx - x, cy + y)
            } else if k == 3 {
                (cx - x, cy - y)
            } else if k == 2 {
                (cx - y, cy - x)
            } else if k == 1 {
                (cx + y, cy - x)
            } else {
                (cx + x, cy - y)
            };
            proof {
                lemma_as_ints_push(points@, p);
            }
            points.push(p);
        }
    }
}

/// The points of the octants in `lo..=hi` of the circle of the given radius
/// round `(cx, cy)`, in the order in which the midpoint rule finds them.
pub(crate) fn sweep_points(cx: i64, cy: i64, radius: i32, lo: u8, hi: u8) -> (points: Vec<Point>)
    requires
        -CENTER_LIMIT <= cx <= CENTER_LIMIT,
        -CENTER_LIMIT <= cy <= CENTER_LIMIT,
    ensures
        as_ints(points@) == sweep(cx as int, cy as int, radius as int, 0, 0, lo as int, hi as int),
{
    let mut points: Vec<Point> = Vec::new();
    let r: i64 = radius as i64;
    let mut x: i64 = r;
    let mut y: i64 = 0;
    let mut err: i64 = 0;
    while x >= y
        invariant
            r == radius,
            -CENTER_LIMIT <= cx <= CENTER_LIMIT,
            -CENTER_LIMIT <= cy <= CENTER_LIMIT,
            x <= r,
            y == 0 || y >= STEP,
            y == 0 ==> err <= 0,
            x >= y ==> y <= r,
            x >= y ==> -(2 * r + 4 * STEP) <= err <= 2 * r + 4 * STEP,
            as_ints(points@) + sweep(
                cx as int,
                cy as int,
                x as int,
                y as int,
                err as int,
                lo as int,
                hi as int,
            ) == sweep(cx as int, cy as int, radius as int, 0, 0, lo as int, hi as int),
        decreases x - y + 2 * STEP,
    {
        let ghost before = as_ints(points@);
        let ghost next = step(x as int, y as int, err as int);
        let ghost tail = sweep(
            cx as int,
            cy as int,
            next.0,
            next.1,
            next.2,
            lo as int,
            hi as int,
        );
        push_ring(&mut points, cx, cy, x, y, lo, hi);
        if err <= 0 {
            y = y + STEP;
            err = err + (2 * y + STEP);
        }
        if err > 0 {
            x = x - STEP;
            err = err - (2 * x + STEP);
        }
    }
    points
}

/// A circle round `(x, y)`.
#[derive(Clone, Copy, Debug, PartialEq, Eq, Structural)]
pub struct Circle {
    pub x: i32,
    pub y: i32,
    pub radius: i32,
}

impl Circle {
    /// The circle of the given radius round `(x, y)`.
    pub fn new(x: i32, y: i32, radius: i32) -> (c: Circle)
        ensures
            c.x == x,
            c.y == y,
            c.radius == radius,
    {
        Circle { x, y, radius }
    }

    /// The points of the circle: the midpoint rule started at the offset
    /// `(radius, 0)` with no error, all eight octants kept. A circle of
    /// negative radius has no points.
    pub open spec fn spec_points(self) -> Seq<(int, int)> {
        sweep(self.x as int, self.y as int, self.radius as int, 0, 0, 0, 7)
    }

    /// The points of the circle.
    pub fn points(&self) -> (points: Vec<Point>)
        ensures
            as_ints(points@) == self.spec_points(),
    {
        sweep_points(self.x as i64, self.y as i64, self.radius, 0, 7)
    }

    /// A cursor over the points of the circle.
    pub fn into_iter(&self) -> (iter: CircleIterator)
        ensures
            as_ints(iter.all()) == self.spec_points(),
            iter.remaining() == iter.all(),
    {
        PointCursor::new(self.points())
    }
}

/// The points that a circle iterates over.
pub type CircleIterator = PointCursor;

/// Whether `points` holds every image of `p` under the eight symmetries of
/// the square round `(cx, cy)`: with `p` at the offset `(a, b)` from the
/// centre, the points at `(a, b)`, `(b, a)`, `(-b, a)`, `(-a, b)`, `(-a, -b)`,
/// `(-b, -a)`, `(b, -a)` and `(a, -b)`.
pub open spec fn has_all_reflections(
    points: Seq<(int, int)>,
    cx: int,
    cy: int,
    p: (int, int),
) -> bool {
    let a = p.0 - cx;
    let b = p.1 - cy;
    &&& points.contains((cx + a, cy + b))
    &&& points.contains((cx + b, cy + a))
    &&& points.contains((cx - b, cy + a))
    &&& points.contains((cx - a, cy + b))
    &&& points.contains((cx - a, cy - b))
    &&& points.contains((cx - b, cy - a))
    &&& points.contains((cx + b, cy - a))
    &&& points.contains((cx + a, cy - b))
}

/// With every octant kept, the ring of an offset is its eight points, from
/// octant 7 down to octant 0.
pub proof fn lemma_full_ring(cx: int, cy: int, x: int, y: int)
    ensures
        ring(cx, cy, x, y, 0, 7, 7) == seq![
            octant_point(cx, cy, x, y, 7),
            octant_point(cx, cy, x, y, 6),
            octant_point(cx, cy, x, y, 5),
            octant_point(cx, cy, x, y, 4),
            octant_point(cx, cy, x, y, 3),
            octant_point(cx, cy, x, y, 2),
            octant_point(cx, cy, x, y, 1),
            octant_point(cx, cy, x, y, 0),
        ],
{
    reveal_with_fuel(ring, 9);
}

/// A full ring holds every image of each of its points.
proof fn lemma_ring_symmetric(cx: int, cy: int, x: int, y: int, p: (int, int))
    requires
        ring(cx, cy, x, y, 0, 7, 7).contains(p),
    ensures
        has_all_reflections(ring(cx, cy, x, y, 0, 7, 7), cx, cy, p),
{
    lemma_full_ring(cx, cy, x, y);
    let r = ring(cx, cy, x, y, 0, 7, 7);
    let i = choose|i: int| 0 <= i < r.len() && r[i] == p;
}

/// A sweep over all octants holds every image of each of its points.
proof fn lemma_sweep_symmetric(cx: int, cy: int, x: int, y: int, err: int, p: (int, int))
    requires
        sweep(cx, cy, x, y, err, 0, 7).contains(p),
    ensures
        has_all_reflections(sweep(cx, cy, x, y, err, 0, 7), cx, cy, p),
    decreases x - y + 2 * STEP,
{
    if x >= y {
        let head = ring(cx, cy, x, y, 0, 7, 7);
        let next = step(x, y, err);
        let tail = sweep(cx, cy, next.0, next.1, next.2, 0, 7);
        let all = sweep(cx, cy, x, y, err, 0, 7);
        assert forall|q: (int, int)| head.contains(q) implies all.contains(q) by {
            let i = choose|i: int| 0 <= i < head.len() && head[i] == q;
            assert(all[i] == q);
        }
        assert forall|q: (int, int)| tail.contains(q) implies all.contains(q) by {
            let i = choose|i: int| 0 <= i < tail.len() && tail[i] == q;
            assert(all[head.len() + i] == q);
        }
        let i = choose|i: int| 0 <= i < all.len() && all[i] == p;
        if i < head.len() {
            lemma_ring_symmetric(cx, cy, x, y, p);
        } else {
            lemma_sweep_symmetric(cx, cy, next.0, next.1, next.2, p);
        }
    }
}

/// The points of a circle are symmetric under the eight symmetries of the
/// square round its centre: with each point, all its images are points of
/// the circle too.
pub proof fn lemma_circle_symmetric(c: Circle, p: (int, int))
    requires
        c.spec_points().contains(p),
    ensures
        has_all_reflections(c.spec_points(), c.x as int, c.y as int, p),
{
    lemma_sweep_symmetric(c.x as int, c.y as int, c.radius as int, 0, 0, p);
}

/// A step of the midpoint rule moves the offset by one step upwards, or one
/// step inwards, or both, and by no more: the points of a circle follow one
/// another without a gap.
pub proof fn lemma_step_is_one_step(x: int, y: int, err: int)
    ensures
        step(x, y, err).0 == x || step(x, y, err).0 == x - STEP,
        step(x, y, err).1 == y || step(x, y, err).1 == y + STEP,
        step(x, y, err).0 != x || step(x, y, err).1 != y,
{
}

/// The walk round an octant ends at the diagonal: the last offset before
/// `x` falls below `y` lies less than two steps from it, so that the eight
/// octants of a circle meet.
pub proof fn lemma_sweep_ends_at_diagonal(x: int, y: int, err: int)
    requires
        x >= y,
        step(x, y, err).0 < step(x, y, err).1,
    ensures
        x - y < 2 * STEP,
{
}

/// Whether `p` lies near the circle of radius `r` round `(cx, cy)`: the
/// square of its distance from the centre differs from the square of the
/// radius by at most `4 * STEP * (r + STEP)`, which keeps the distance itself
/// within a few steps of the radius.
pub open spec fn near_circle(cx: int, cy: int, r: int, p: (int, int)) -> bool {
    let d2 = (p.0 - cx) * (p.0 - cx) + (p.1 - cy) * (p.1 - cy);
    -4 * STEP * (r + STEP) <= d2 - r * r <= 4 * STEP * (r + STEP)
}

/// What the midpoint rule keeps true of its state on the way round a circle
/// of radius `r`: the error, in steps, is by how much the next offset
/// upwards would lie outside the circle.
spec fn on_track(x: int, y: int, err: int, r: int) -> bool {
    &&& x <= r
    &&& (y == 0 || y >= STEP)
    &&& (y == 0 ==> err <= 0)
    &&& err * STEP == x * x + (y + STEP) * (y + STEP) - STEP * STEP - r * r
    &&& (x >= y ==> y <= r && -(2 * r + 4 * STEP) <= err <= 2 * r + 4 * STEP)
}

/// A step keeps the state on track.
proof fn lemma_step_stays_on_track(x: int, y: int, err: int, r: int)
    requires
        on_track(x, y, err, r),
        x >= y,
    ensures
        on_track(step(x, y, err).0, step(x, y, err).1, step(x, y, err).2, r),
{
    let s: int = STEP as int;
    let y1 = if err <= 0 {
        y + s
    } else {
        y
    };
    let e1 = if err <= 0 {
        err + 2 * y1 + s
    } else {
        err
    };
    assert(e1 * s == x * x + (y1 + s) * (y1 + s) - s * s - r * r) by (nonlinear_arith)
        requires
            err * s == x * x + (y + s) * (y + s) - s * s - r * r,
            (y1 == y + s && e1 == err + 2 * y1 + s) || (y1 == y && e1 == err),
    ;
    let x1 = if e1 > 0 {
        x - s
    } else {
        x
    };
    let e2 = if e1 > 0 {
        e1 - (2 * x1 + s)
    } else {
        e1
    };
    assert(e2 * s == x1 * x1 + (y1 + s) * (y1 + s) - s * s - r * r) by (nonlinear_arith)
        requires
            e1 * s == x * x + (y1 + s) * (y1 + s) - s * s - r * r,
            (x1 == x - s && e2 == e1 - (2 * x1 + s)) || (x1 == x && e2 == e1),
    ;
}

/// The points of one ring are as far from the centre as its offset is long.
proof fn lemma_ring_distance(
    cx: int,
    cy: int,
    x: int,
    y: int,
    lo: int,
    hi: int,
    k: int,
    p: (int, int),
)
    requires
        ring(cx, cy, x, y, lo, hi, k).contains(p),
    ensures
        (p.0 - cx) * (p.0 - cx) + (p.1 - cy) * (p.1 - cy) == x * x + y * y,
    decreases k + 1,
{
    if k >= 0 {
        let head = if lo <= k <= hi {
            seq![octant_point(cx, cy, x, y, k)]
        } else {
            Seq::empty()
        };
        let tail = ring(cx, cy, x, y, lo, hi, k - 1);
        let all = ring(cx, cy, x, y, lo, hi, k);
        let i = choose|i: int| 0 <= i < all.len() && all[i] == p;
        if i < head.len() {
            let a = p.0 - cx;
            let b = p.1 - cy;
            assert(a * a + b * b == x * x + y * y) by (nonlinear_arith)
                requires
                    (a == x || a == -x) && (b == y || b == -y) || (a == y || a == -y) && (b == x
                        || b == -x),
            ;
        } else {
            lemma_ring_distance(cx, cy, x, y, lo, hi, k - 1, p);
        }
    }
}

/// From a state on track, every point still to come lies near the circle.
proof fn lemma_sweep_near(
    cx: int,
    cy: int,
    x: int,
    y: int,
    err: int,
    lo: int,
    hi: int,
    r: int,
    p: (int, int),
)
    requires
        on_track(x, y, err, r),
        sweep(cx, cy, x, y, err, lo, hi).contains(p),
    ensures
        near_circle(cx, cy, r, p),
    decreases x - y + 2 * STEP,
{
    if x >= y {
        let head = ring(cx, cy, x, y, lo, hi, 7);
        let next = step(x, y, err);
        let tail = sweep(cx, cy, next.0, next.1, next.2, lo, hi);
        let all = sweep(cx, cy, x, y, err, lo, hi);
        let i = choose|i: int| 0 <= i < all.len() && all[i] == p;
        if i < head.len() {
            lemma_ring_distance(cx, cy, x, y, lo, hi, 7, p);
            let s: int = STEP as int;
            assert(x * x + y * y - r * r == err * s - 2 * y * s) by (nonlinear_arith)
                requires
                    err * s == x * x + (y + s) * (y + s) - s * s - r * r,
            ;
            let d2 = (p.0 - cx) * (p.0 - cx) + (p.1 - cy) * (p.1 - cy);
            assert(-4 * s * (r + s) <= d2 - r * r <= 4 * s * (r + s)) by (nonlinear_arith)
                requires
                    d2 - r * r == err * s - 2 * y * s,
                    -(2 * r + 4 * s) * s <= err * s <= (2 * r + 4 * s) * s,
                    0 <= 2 * y * s <= 2 * r * s,
                    r >= 0,
                    s > 0,
            ;
        } else {
            lemma_step_stays_on_track(x, y, err, r);
            lemma_sweep_near(cx, cy, next.0, next.1, next.2, lo, hi, r, p);
        }
    }
}

/// Every point that the midpoint rule finds for a circle of radius `r`
/// round `(cx, cy)`, whichever octants are kept, lies near that circle.
pub proof fn lemma_sweep_points_near(cx: int, cy: int, r: int, lo: int, hi: int, p: (int, int))
    requires
        sweep(cx, cy, r, 0, 0, lo, hi).contains(p),
    ensures
        r >= 0,
        near_circle(cx, cy, r, p),
{
    lemma_sweep_near(cx, cy, r, 0, 0, lo, hi, r, p);
}

/// Every point of a circle lies near the circle.
pub proof fn lemma_circle_points_near(c: Circle, p: (int, int))
    requires
        c.spec_points().contains(p),
    ensures
        near_circle(c.x as int, c.y as int, c.radius as int, p),
{
    lemma_sweep_points_near(c.x as int, c.y as int, c.radius as int, 0, 7, p);
}

/// A ring with some octants left out holds no point that the full ring
/// does not hold.
proof fn lemma_ring_within_full(
    cx: int,
    cy: int,
    x: int,
    y: int,
    lo: int,
    hi: int,
    k: int,
    p: (int, int),
)
    requires
        ring(cx, cy, x, y, lo, hi, k).contains(p),
    ensures
        ring(cx, cy, x, y, 0, 7, k).contains(p),
        0 <= k,
    decreases k + 1,
{
    if k >= 0 {
        let part = ring(cx, cy, x, y, lo, hi, k);
        let full = ring(cx, cy, x, y, 0, 7, k);
        let i = choose|i: int| 0 <= i < part.len() && part[i] == p;
        if lo <= k <= hi && i == 0 {
            if 0 <= k <= 7 {
                assert(full[0] == p);
            } else {
                // Octants beyond 7 repeat octant 0, which every full ring holds.
                lemma_ring_holds_octant_0(cx, cy, x, y, k);
            }
        } else {
            let rest = ring(cx, cy, x, y, lo, hi, k - 1);
            let shift: int = if lo <= k <= hi {
                1
            } else {
                0
            };
            lemma_ring_within_full(cx, cy, x, y, lo, hi, k - 1, p);
            let full_rest = ring(cx, cy, x, y, 0, 7, k - 1);
            let j = choose|j: int| 0 <= j < full_rest.len() && full_rest[j] == p;
            let full_shift: int = if 0 <= k <= 7 {
                1
            } else {
                0
            };
            assert(full[j + full_shift] == p);
        }
    }
}

/// A full ring from octant `k` down holds the point of octant 0.
proof fn lemma_ring_holds_octant_0(cx: int, cy: int, x: int, y: int, k: int)
    requires
        k >= 0,
    ensures
        ring(cx, cy, x, y, 0, 7, k).contains(octant_point(cx, cy, x, y, 0)),
    decreases k,
{
    let full = ring(cx, cy, x, y, 0, 7, k);
    if k == 0 {
        assert(full[0] == octant_point(cx, cy, x, y, 0));
    } else {
        lemma_ring_holds_octant_0(cx, cy, x, y, k - 1);
        let rest = ring(cx, cy, x, y, 0, 7, k - 1);
        let j = choose|j: int| 0 <= j < rest.len() && rest[j] == octant_point(cx, cy, x, y, 0);
        let shift: int = if k <= 7 {
            1
        } else {
            0
        };
        assert(full[j + shift] == rest[j]);
    }
}

/// With some octants left out, a sweep finds no point that the sweep over
/// all octants does not find: an arc is part of its circle.
pub proof fn lemma_sweep_within_circle(
    cx: int,
    cy: int,
    x: int,
    y: int,
    err: int,
    lo: int,
    hi: int,
    p: (int, int),
)
    requires
        sweep(cx, cy, x, y, err, lo, hi).contains(p),
    ensures
        sweep(cx, cy, x, y, err, 0, 7).contains(p),
    decreases x - y + 2 * STEP,
{
    if x >= y {
        let next = step(x, y, err);
        let head = ring(cx, cy, x, y, lo, hi, 7);
        let all = sweep(cx, cy, x, y, err, lo, hi);
        let full_head = ring(cx, cy, x, y, 0, 7, 7);
        let full_tail = sweep(cx, cy, next.0, next.1, next.2, 0, 7);
        let full = sweep(cx, cy, x, y, err, 0, 7);
        let i = choose|i: int| 0 <= i < all.len() && all[i] == p;
        if i < head.len() {
            lemma_ring_within_full(cx, cy, x, y, lo, hi, 7, p);
            let j = choose|j: int| 0 <= j < full_head.len() && full_head[j] == p;
            assert(full[j] == p);
        } else {
            lemma_sweep_within_circle(cx, cy, next.0, next.1, next.2, lo, hi, p);
            let j = choose|j: int| 0 <= j < full_tail.len() && full_tail[j] == p;
            assert(full[full_head.len() + j] == p);
        }
    }
}

} // verus!

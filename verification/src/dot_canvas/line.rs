//! Straight lines, sampled every quarter of a unit along their longer axis.
use vstd::prelude::*;
use vstd::arithmetic::div_mod::{lemma_fundamental_div_mod, lemma_fundamental_div_mod_converse};
use crate::dot_canvas::shape::{as_ints, lemma_as_ints_push, point_as_ints, Point, STEP};

verus! {

/// A line from `(x1, y1)` to `(x2, y2)`.
#[derive(Clone, Copy, Debug, PartialEq, Eq, Structural)]
pub struct Line {
    pub x1: i32,
    pub y1: i32,
    pub x2: i32,
    pub y2: i32,
}

/// The distance between two coordinates.
pub open spec fn span(a: int, b: int) -> int {
    if a <= b {
        b - a
    } else {
        a - b
    }
}

/// The coordinate reached after `t` ticks of a walk from `from` to `to` that
/// covers `end` ticks on the longer axis in the same time: the exact
/// position, `t * span(from, to) / end` from `from` towards `to`, rounded
/// down to a whole tick.
pub open spec fn walk(from: int, to: int, t: int, end: int) -> int {
    if from <= to {
        from + (t * span(from, to)) / end
    } else {
        from + (-(t * span(from, to))) / end
    }
}

/// Largest value of a position along a line: two to the power 32.
pub(crate) const SPAN_LIMIT: i64 = 0x1_0000_0000;

impl Line {
    /// The line from `(x1, y1)` to `(x2, y2)`.
    pub fn new(x1: i32, y1: i32, x2: i32, y2: i32) -> (l: Line)
        ensures
            l.x1 == x1,
            l.y1 == y1,
            l.x2 == x2,
            l.y2 == y2,
    {
        Line { x1, y1, x2, y2 }
    }

    /// Length of the line along its longer axis.
    pub open spec fn end(self) -> int {
        let dx = span(self.x1 as int, self.x2 as int);
        let dy = span(self.y1 as int, self.y2 as int);
        if dx >= dy {
            dx
        } else {
            dy
        }
    }

    /// Number of points: one for each multiple of `STEP` from 0 that is less
    /// than `end()`; one for a line of no length.
    pub open spec fn count(self) -> int {
        if self.end() == 0 {
            1
        } else {
            (self.end() + STEP - 1) / (STEP as int)
        }
    }

    /// The point `k` steps from the start. A line of no length has its start
    /// as its only point.
    pub open spec fn point_at(self, k: int) -> (int, int) {
        if self.end() == 0 {
            (self.x1 as int, self.y1 as int)
        } else {
            (
                walk(self.x1 as int, self.x2 as int, k * STEP, self.end()),
                walk(self.y1 as int, self.y2 as int, k * STEP, self.end()),
            )
        }
    }

    /// The points of the line from the `k`-th on.
    pub open spec fn points_from(self, k: int) -> Seq<(int, int)> {
        if 0 <= k <= self.count() {
            Seq::new((self.count() - k) as nat, |i: int| self.point_at(k + i))
        } else {
            Seq::empty()
        }
    }

    /// The points of the line. The first is the start; the end itself is
    /// not among them, but for a line of no length.
    pub open spec fn spec_points(self) -> Seq<(int, int)> {
        self.points_from(0)
    }

    /// A cursor at the start of the line.
    pub fn into_iter(&self) -> (iter: LineIterator)
        ensures
            iter.remaining() == self.spec_points(),
            iter.line() == *self,
    {
        LineIterator { line: *self, current: 0 }
    }

    /// The points of the line.
    pub fn points(&self) -> (points: Vec<Point>)
        ensures
            as_ints(points@) == self.spec_points(),
    {
        let mut iter = self.into_iter();
        let mut points: Vec<Point> = Vec::new();
        loop
            invariant
                iter.line() == *self,
                as_ints(points@) + iter.remaining() == self.spec_points(),
            ensures
                as_ints(points@) == self.spec_points(),
            decreases iter.remaining().len(),
        {
            match iter.next() {
                None => {
                    break ;
                },
                Some(p) => {
                    proof {
                        lemma_as_ints_push(points@, p);
                    }
                    points.push(p);
                },
            }
        }
        points
    }
}

/// Where a walk along a line stands.
#[derive(Clone, Copy, Debug)]
pub struct LineIterator {
    line: Line,
    current: i64,
}

/// The distance between two coordinates.
fn distance(a: i32, b: i32) -> (d: i64)
    ensures
        d == span(a as int, b as int),
        0 <= d < SPAN_LIMIT,
{
    if a <= b {
        b as i64 - a as i64
    } else {
        a as i64 - b as i64
    }
}

/// The coordinate reached after `t` ticks.
fn walk_to(from: i32, to: i32, t: i64, end: i64) -> (pos: i64)
    requires
        0 <= t < end < SPAN_LIMIT,
        span(from as int, to as int) <= end,
    ensures
        pos == walk(from as int, to as int, t as int, end as int),
        -2 * SPAN_LIMIT <= pos <= 2 * SPAN_LIMIT,
{
    let extent = distance(from, to);
    assert(t * extent <= 0xffff_ffff * 0xffff_ffff) by (nonlinear_arith)
        requires
            0 <= t <= 0xffff_ffff,
            0 <= extent <= 0xffff_ffff,
    ;
    assert(0 <= t * extent <= t * end) by (nonlinear_arith)
        requires
            0 <= t,
            0 <= extent <= end,
    ;
    let n: u64 = (t as u64) * (extent as u64);
    let q: u64 = n / (end as u64);
    let rem: u64 = n % (end as u64);
    proof {
        lemma_fundamental_div_mod(n as int, end as int);
        assert(q <= t) by (nonlinear_arith)
            requires
                q * end <= t * end,
                end > 0,
        ;
        if from > to {
            if rem == 0 {
                assert(-(n as int) == (-(q as int)) * end + 0) by (nonlinear_arith)
                    requires
                        n == q * end,
                ;
                lemma_fundamental_div_mod_converse(-(n as int), end as int, -(q as int), 0);
            } else {
                assert(-(n as int) == (-(q as int) - 1) * end + (end - rem)) by (nonlinear_arith)
                    requires
                        n == q * end + rem,
                ;
                lemma_fundamental_div_mod_converse(
                    -(n as int),
                    end as int,
                    -(q as int) - 1,
                    end - rem,
                );
            }
        }
    }
    if from <= to {
        from as i64 + q as i64
    } else if rem == 0 {
        from as i64 - q as i64
    } else {
        from as i64 - q as i64 - 1
    }
}

impl LineIterator {
    /// A walk stands a whole number of steps from the start.
    #[verifier::type_invariant]
    spec fn well_formed(self) -> bool {
        &&& 0 <= self.current <= SPAN_LIMIT + STEP
        &&& self.current % STEP == 0
    }

    /// The line that is walked along.
    pub closed spec fn line(self) -> Line {
        self.line
    }

    /// The points still to come.
    pub closed spec fn remaining(self) -> Seq<(int, int)> {
        self.line.points_from(self.current as int / STEP as int)
    }

    /// Hands out the next point of the line; none when the end is reached.
    pub fn next(&mut self) -> (p: Option<Point>)
        ensures
            final(self).line() == old(self).line(),
            old(self).remaining().len() == 0 ==> p.is_none() && final(self).remaining()
                == old(self).remaining(),
            old(self).remaining().len() > 0 ==> p.is_some() && point_as_ints(p.unwrap()) == old(
                self,
            ).remaining()[0] && final(self).remaining() == old(self).remaining().drop_first(),
    {
        proof {
            use_type_invariant(&*self);
        }
        let dx = distance(self.line.x1, self.line.x2);
        let dy = distance(self.line.y1, self.line.y2);
        let end = if dx >= dy {
            dx
        } else {
            dy
        };
        if self.current < end {
            let x = walk_to(self.line.x1, self.line.x2, self.current, end);
            let y = walk_to(self.line.y1, self.line.y2, self.current, end);
            self.current = self.current + STEP;
            Some((x, y))
        } else if end == 0 && self.current == 0 {
            self.current = STEP;
            Some((self.line.x1 as i64, self.line.y1 as i64))
        } else {
            None
        }
    }
}

/// The first point of a line is its start.
pub proof fn lemma_line_starts_at_start(line: Line)
    ensures
        line.spec_points().len() >= 1,
        line.spec_points()[0] == (line.x1 as int, line.y1 as int),
{
    if line.end() > 0 {
        assert(0int / line.end() == 0) by (nonlinear_arith)
            requires
                line.end() > 0,
        ;
        assert(line.spec_points()[0] == line.point_at(0));
    }
}

/// A line whose end is its start has one point: that start.
pub proof fn lemma_line_of_no_length(line: Line)
    requires
        line.x1 == line.x2,
        line.y1 == line.y2,
    ensures
        line.spec_points() == seq![(line.x1 as int, line.y1 as int)],
{
}

/// The points of a line stop before its end: along the longer axis every
/// point is less far from the start than the end is, and one more step
/// would reach the end or pass it.
pub proof fn lemma_line_stops_before_end(line: Line, k: int)
    requires
        line.end() > 0,
        0 <= k < line.count(),
    ensures
        k * STEP < line.end(),
        line.count() * STEP >= line.end(),
{
}

} // verus!

//! Points, the fixed-point scale, and the simplest shape.
use vstd::prelude::*;
use crate::dot_canvas::arc::Arc;
use crate::dot_canvas::circle::Circle;
use crate::dot_canvas::line::Line;

verus! {

/// Ticks in one unit of length.
pub const UNIT: i64 = 1024;

/// Ticks between two samples of a shape: a quarter of a unit.
pub const STEP: i64 = 256;

/// A position in ticks. Shapes take their parameters as `i32` and hand out
/// points as `i64`, so that no sum of a centre and an offset can overflow.
pub type Point = (i64, i64);

/// A point as a pair of mathematical integers.
pub open spec fn point_as_ints(p: Point) -> (int, int) {
    (p.0 as int, p.1 as int)
}

/// A point, if there is one, as a pair of mathematical integers.
pub open spec fn option_as_ints(p: Option<Point>) -> Option<(int, int)> {
    match p {
        Some(p) => Some(point_as_ints(p)),
        None => None,
    }
}

/// A sequence of points as pairs of mathematical integers.
pub open spec fn as_ints(points: Seq<Point>) -> Seq<(int, int)> {
    points.map_values(|p: Point| point_as_ints(p))
}

/// Appending one point to a sequence appends its pair of integers.
pub proof fn lemma_as_ints_push(points: Seq<Point>, p: Point)
    ensures
        as_ints(points.push(p)) == as_ints(points).push(point_as_ints(p)),
{
}

/// A single point.
#[derive(Clone, Copy, Debug, PartialEq, Eq, Structural)]
pub struct Dot {
    pub x: i32,
    pub y: i32,
}

impl Dot {
    /// The points of a dot: the dot itself.
    pub open spec fn spec_points(self) -> Seq<(int, int)> {
        seq![(self.x as int, self.y as int)]
    }

    /// The points of the dot.
    pub fn points(&self) -> (points: Vec<Point>)
        ensures
            as_ints(points@) == self.spec_points(),
    {
        let mut points: Vec<Point> = Vec::new();
        points.push((self.x as i64, self.y as i64));
        points
    }
}

/// What can be drawn: anything that has points.
#[derive(Clone, Copy, Debug)]
pub enum Shape {
    Dot(Dot),
    Line(Line),
    Circle(Circle),
    Arc(Arc),
}

impl Shape {
    /// The points of the shape, in the order in which they are drawn.
    pub open spec fn spec_points(self) -> Seq<(int, int)> {
        match self {
            Shape::Dot(dot) => dot.spec_points(),
            Shape::Line(line) => line.spec_points(),
            Shape::Circle(circle) => circle.spec_points(),
            Shape::Arc(arc) => arc.spec_points(),
        }
    }

    /// The points of the shape.
    pub fn points(&self) -> (points: Vec<Point>)
        ensures
            as_ints(points@) == self.spec_points(),
    {
        match self {
            Shape::Dot(dot) => dot.points(),
            Shape::Line(line) => line.points(),
            Shape::Circle(circle) => circle.points(),
            Shape::Arc(arc) => arc.points(),
        }
    }
}

/// The points of a shape, computed in full and then handed out one by one.
/// A circle or an arc finds up to eight points in each step, so its points
/// are kept here rather than computed on demand.
pub struct PointCursor {
    points: Vec<Point>,
    current: usize,
}

impl PointCursor {
    /// All the points, handed out or not.
    pub closed spec fn all(self) -> Seq<Point> {
        self.points@
    }

    /// The points not yet handed out.
    pub closed spec fn remaining(self) -> Seq<Point> {
        if self.current <= self.points@.len() {
            self.points@.subrange(self.current as int, self.points@.len() as int)
        } else {
            Seq::empty()
        }
    }

    /// A cursor at the first of `points`.
    pub fn new(points: Vec<Point>) -> (cursor: PointCursor)
        ensures
            cursor.all() == points@,
            cursor.remaining() == points@,
    {
        PointCursor { points, current: 0 }
    }

    /// Hands out the next point; none when all have been handed out.
    pub fn next(&mut self) -> (p: Option<Point>)
        ensures
            final(self).all() == old(self).all(),
            old(self).remaining().len() == 0 ==> p.is_none() && final(self).remaining()
                == old(self).remaining(),
            old(self).remaining().len() > 0 ==> p == Some(old(self).remaining()[0])
                && final(self).remaining() == old(self).remaining().drop_first(),
    {
        if self.current < self.points.len() {
            let p = self.points[self.current];
            self.current = self.current + 1;
            Some(p)
        } else {
            None
        }
    }

    /// Goes back to the first point.
    pub fn restart(&mut self)
        ensures
            final(self).all() == old(self).all(),
            final(self).remaining() == old(self).all(),
    {
        self.current = 0;
    }
}

} // verus!

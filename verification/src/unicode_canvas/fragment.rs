//! Connection points of a character cell and the fragments drawn between them.
//!
//! ```text
//!          C
//!          |
//!     K ---M--- O
//!          |
//!          W
//! ```
use vstd::prelude::*;
use crate::unicode_canvas::order::Ranked;

verus! {

/// One of the five places where a fragment may touch a character cell:
/// `C` is the top, `K` the left, `M` the centre, `O` the right and `W` the
/// bottom. Neighbouring cells share the four outer points.
#[derive(Clone, Copy, Debug, PartialEq, Eq, PartialOrd, Ord, Hash, Structural)]
pub enum Cell {
    C,
    K,
    M,
    O,
    W,
}

/// A straight fragment between two connection points, thin or thick.
#[derive(Clone, Copy, Debug, PartialEq, Eq, PartialOrd, Ord, Hash, Structural)]
pub struct Line {
    pub start: Cell,
    pub end: Cell,
    pub is_thick: bool,
}

/// A rounded fragment between two connection points.
#[derive(Clone, Copy, Debug, PartialEq, Eq, PartialOrd, Ord, Hash, Structural)]
pub struct Arc {
    pub start: Cell,
    pub end: Cell,
}

/// What one drawing operation leaves in a cell.
#[derive(Clone, Copy, Debug, PartialEq, Eq, PartialOrd, Ord, Hash, Structural)]
pub enum Fragment {
    Line(Line),
    Arc(Arc),
}

impl Cell {
    /// Position of the connection point in the order `C < K < M < O < W`.
    pub open spec fn rank(self) -> nat {
        match self {
            Cell::C => 0,
            Cell::K => 1,
            Cell::M => 2,
            Cell::O => 3,
            Cell::W => 4,
        }
    }

    /// The position of this connection point in the order, as a number.
    pub fn index(&self) -> (r: u8)
        ensures
            r as nat == self.rank(),
    {
        match self {
            Cell::C => 0,
            Cell::K => 1,
            Cell::M => 2,
            Cell::O => 3,
            Cell::W => 4,
        }
    }
}

impl Line {
    /// Whether two lines join the same pair of connection points, in either
    /// direction and whatever their thickness.
    pub open spec fn spec_same_line(self, other: Line) -> bool {
        (self.start == other.start && self.end == other.end) || (self.end == other.start
            && self.start == other.end)
    }

    /// Whether two lines join the same pair of connection points.
    pub fn same_line(&self, other: &Line) -> (b: bool)
        ensures
            b == self.spec_same_line(*other),
    {
        (self.start == other.start && self.end == other.end) || (self.end == other.start
            && self.start == other.end)
    }
}

impl Fragment {
    /// Place of a fragment in the total order of fragments. Lines come before
    /// arcs; within a kind the start point decides, then the end point, then
    /// thin before thick.
    pub open spec fn order_key(self) -> nat {
        match self {
            Fragment::Line(l) => l.start.rank() * 10 + l.end.rank() * 2 + if l.is_thick {
                1nat
            } else {
                0nat
            },
            Fragment::Arc(a) => 50 + a.start.rank() * 5 + a.end.rank(),
        }
    }

    /// Two fragments are the same line when both are lines between the same
    /// two connection points; an arc is the same line as nothing.
    pub open spec fn spec_same_line(self, other: Fragment) -> bool {
        match (self, other) {
            (Fragment::Line(a), Fragment::Line(b)) => a.spec_same_line(b),
            _ => false,
        }
    }

    /// Whether two fragments are lines between the same two connection
    /// points.
    pub fn same_line(&self, other: &Fragment) -> (b: bool)
        ensures
            b == self.spec_same_line(*other),
    {
        match (self, other) {
            (Fragment::Line(a), Fragment::Line(b)) => a.same_line(b),
            _ => false,
        }
    }

    /// The fragment's place in the order, as a number.
    pub fn key(&self) -> (k: u8)
        ensures
            k as nat == self.order_key(),
            k < 75,
    {
        match self {
            Fragment::Line(l) => l.start.index() * 10 + l.end.index() * 2 + if l.is_thick {
                1
            } else {
                0
            },
            Fragment::Arc(a) => 50 + a.start.index() * 5 + a.end.index(),
        }
    }
}

/// A thick line fragment from `start` to `end`.
pub open spec fn spec_thick(start: Cell, end: Cell) -> Fragment {
    Fragment::Line(Line { start, end, is_thick: true })
}

/// A thin line fragment from `start` to `end`.
pub open spec fn spec_line(start: Cell, end: Cell) -> Fragment {
    Fragment::Line(Line { start, end, is_thick: false })
}

/// An arc fragment from `start` to `end`.
pub open spec fn spec_arc(start: Cell, end: Cell) -> Fragment {
    Fragment::Arc(Arc { start, end })
}

/// A thick line fragment from `start` to `end`.
#[verifier::when_used_as_spec(spec_thick)]
pub fn thick(start: Cell, end: Cell) -> (f: Fragment)
    ensures
        f == spec_thick(start, end),
{
    Fragment::Line(Line { start, end, is_thick: true })
}

/// A thin line fragment from `start` to `end`.
#[verifier::when_used_as_spec(spec_line)]
pub fn line(start: Cell, end: Cell) -> (f: Fragment)
    ensures
        f == spec_line(start, end),
{
    Fragment::Line(Line { start, end, is_thick: false })
}

/// An arc fragment from `start` to `end`.
#[verifier::when_used_as_spec(spec_arc)]
pub fn arc(start: Cell, end: Cell) -> (f: Fragment)
    ensures
        f == spec_arc(start, end),
{
    Fragment::Arc(Arc { start, end })
}

/// Fragments are ordered by their key: first by kind, then by their two
/// connection points, then by thickness.
impl Ranked for Fragment {
    open spec fn place(&self) -> nat {
        self.order_key()
    }

    fn rank(&self) -> (r: u128) {
        self.key() as u128
    }

    proof fn lemma_place_injective(a: &Self, b: &Self) {
    }
}

} // verus!

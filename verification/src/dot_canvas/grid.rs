//! The grid of braille cells.
//!
//! A cell shows a matrix of two columns and four rows of dots. Its code is
//! the first code of the braille block with one bit set for each raised dot:
//!
//! ```text
//!   0x01  0x08
//!   0x02  0x10
//!   0x04  0x20
//!   0x40  0x80
//! ```
use vstd::prelude::*;
use vstd::arithmetic::div_mod::lemma_div_multiples_vanish_quotient;
use crate::dot_canvas::shape::{as_ints, point_as_ints, Point, Shape, UNIT};

verus! {

/// The code of the braille character without dots.
pub const BRAILLE_OFFSET: u16 = 0x2800;

/// The bit that stands for the dot in the given row and column of a cell.
pub open spec fn dot_mask(row: int, col: int) -> u16 {
    if row == 0 {
        if col == 0 {
            0x0001
        } else {
            0x0008
        }
    } else if row == 1 {
        if col == 0 {
            0x0002
        } else {
            0x0010
        }
    } else if row == 2 {
        if col == 0 {
            0x0004
        } else {
            0x0020
        }
    } else {
        if col == 0 {
            0x0040
        } else {
            0x0080
        }
    }
}

/// The bit that stands for the dot in the given row and column of a cell.
pub fn dot_bit(row: usize, col: usize) -> (bit: u16)
    requires
        row < 4,
        col < 2,
    ensures
        bit == dot_mask(row as int, col as int),
        0 < bit <= 0x80,
{
    if row == 0 {
        if col == 0 {
            0x0001
        } else {
            0x0008
        }
    } else if row == 1 {
        if col == 0 {
            0x0002
        } else {
            0x0010
        }
    } else if row == 2 {
        if col == 0 {
            0x0004
        } else {
            0x0020
        }
    } else {
        if col == 0 {
            0x0040
        } else {
            0x0080
        }
    }
}

/// Whether `code` is the code of a braille character: the blank one with
/// any of the eight dot bits set.
pub open spec fn is_braille(code: u16) -> bool {
    BRAILLE_OFFSET <= code <= 0x28ff
}

/// What is printed for a cell: a space for the cell without dots, else the
/// braille character with the cell's code.
pub open spec fn glyph(code: u16) -> char {
    if code == BRAILLE_OFFSET {
        ' '
    } else {
        (code as u32) as char
    }
}

/// The text of a grid: the glyphs of its cells row by row, with a line break
/// before each row but the first.
pub open spec fn text_of(cells: Seq<u16>, width: int) -> Seq<char>
    decreases cells.len(),
{
    if cells.len() == 0 {
        Seq::empty()
    } else {
        let i = cells.len() - 1;
        let before = text_of(cells.drop_last(), width);
        if i != 0 && i % width == 0 {
            before.push('\n').push(glyph(cells.last()))
        } else {
            before.push(glyph(cells.last()))
        }
    }
}

/// The cells after the dot in column `dot_x` and row `dot_y` of the whole
/// grid is raised: the cell that holds the dot gains its bit, and no cell
/// loses one.
pub open spec fn raise_dot(cells: Seq<u16>, width: int, dot_x: int, dot_y: int) -> Seq<u16> {
    let index = (dot_y / 4) * width + dot_x / 2;
    cells.update(index, cells[index] | dot_mask(dot_y % 4, dot_x % 2))
}

/// The cells after the dot in column `dot_x` and row `dot_y` is plotted on a
/// grid `width` cells wide and `height` cells high: the dot is raised where
/// it lies on the grid, and nothing changes where it does not.
pub open spec fn dot_plotted(
    cells: Seq<u16>,
    width: int,
    height: int,
    dot_x: int,
    dot_y: int,
) -> Seq<u16> {
    if dot_x < 2 * width && dot_y < 4 * height {
        raise_dot(cells, width, dot_x, dot_y)
    } else {
        cells
    }
}

/// `n` blank cells.
pub open spec fn blank_cells(n: int) -> Seq<u16> {
    Seq::new(n as nat, |i: int| BRAILLE_OFFSET)
}

/// The code of the braille character whose raised dots are the bits of
/// `dots`.
pub open spec fn code_of(dots: u8) -> u16 {
    (BRAILLE_OFFSET + dots) as u16
}

/// A rectangle of braille cells, `width` wide and `height` high. Of each
/// cell it keeps the eight dot bits; the cell's code is the blank braille
/// character's code plus those bits, so every cell holds a braille code.
pub struct Grid {
    width: usize,
    height: usize,
    cells: Vec<u8>,
}

impl Grid {
    /// A grid holds as many cells as its width and height say.
    #[verifier::type_invariant]
    spec fn well_formed(self) -> bool {
        self.cells@.len() == self.width * self.height
    }

    /// Number of cells in a row.
    pub closed spec fn width(self) -> nat {
        self.width as nat
    }

    /// Number of rows.
    pub closed spec fn height(self) -> nat {
        self.height as nat
    }

    /// The codes of the cells, row by row.
    pub closed spec fn cells(self) -> Seq<u16> {
        self.cells@.map_values(|dots: u8| code_of(dots))
    }

    /// Whether the grid holds as many cells as its width and its height
    /// say. Every grid that a program holds does.
    pub open spec fn has_every_cell(self) -> bool {
        self.cells().len() == self.width() * self.height()
    }

    /// A grid of blank cells.
    pub fn new(width: usize, height: usize) -> (grid: Grid)
        requires
            width * height <= usize::MAX,
        ensures
            grid.width() == width,
            grid.height() == height,
            grid.cells() == blank_cells(width * height),
            grid.has_every_cell(),
    {
        let n = width * height;
        let mut cells: Vec<u8> = Vec::new();
        while cells.len() < n
            invariant
                cells@.len() <= n,
                forall|i: int| 0 <= i < cells@.len() ==> cells@[i] == 0,
            decreases n - cells@.len(),
        {
            cells.push(0);
        }
        let grid = Grid { width, height, cells };
        grid
    }

    /// Number of cells in a row.
    pub fn columns(&self) -> (n: usize)
        ensures
            n == self.width(),
            self.has_every_cell(),
    {
        proof {
            use_type_invariant(self);
        }
        self.width
    }

    /// Number of rows. A grid holds as many cells as its width and height
    /// say.
    pub fn rows(&self) -> (n: usize)
        ensures
            n == self.height(),
            self.has_every_cell(),
    {
        proof {
            use_type_invariant(self);
        }
        self.height
    }

    /// The text of the grid.
    pub fn to_string(&self) -> (text: String)
        ensures
            text@ == text_of(self.cells(), self.width() as int),
            self.has_every_cell(),
    {
        proof {
            use_type_invariant(self);
        }
        let mut buf = String::new();
        let mut i: usize = 0;
        while i < self.cells.len()
            invariant
                i <= self.cells@.len(),
                self.cells@.len() == self.width * self.height,
                buf@ == text_of(self.cells().take(i as int), self.width as int),
            decreases self.cells@.len() - i,
        {
            let ghost prefix = self.cells().take(i as int + 1);
            assert(prefix.drop_last() =~= self.cells().take(i as int));
            if i != 0 && i % self.width == 0 {
                buf.push('\n');
            }
            let dots = self.cells[i];
            if dots == 0 {
                buf.push(' ');
            } else {
                let code: u32 = BRAILLE_OFFSET as u32 + dots as u32;
                match char::from_u32(code) {
                    Some(ch) => {
                        proof {
                            vstd::utf8::char_u32_cast(ch, ch as u32);
                        }
                        buf.push(ch);
                    },
                    None => {},
                }
            }
            i = i + 1;
        }
        assert(self.cells().take(i as int) =~= self.cells());
        buf
    }

    /// Makes every cell blank again.
    pub fn reset(&mut self)
        ensures
            final(self).width() == old(self).width(),
            final(self).height() == old(self).height(),
            final(self).cells() == blank_cells(old(self).cells().len() as int),
            old(self).has_every_cell(),
            final(self).has_every_cell(),
    {
        proof {
            use_type_invariant(&*self);
        }
        let mut i: usize = 0;
        while i < self.cells.len()
            invariant
                self.cells@.len() == self.width * self.height,
                self.width == old(self).width,
                self.height == old(self).height,
                self.cells@.len() == old(self).cells@.len(),
                i <= self.cells@.len(),
                forall|j: int| 0 <= j < i ==> self.cells@[j] == 0,
            decreases self.cells@.len() - i,
        {
            self.cells[i] = 0;
            i = i + 1;
        }
    }

    /// Raises one dot of the cell in column `col` and row `row`: the dot in
    /// column `sub_x` and row `sub_y` of that cell's matrix.
    pub(crate) fn raise(&mut self, col: usize, row: usize, sub_x: usize, sub_y: usize)
        requires
            col < old(self).width(),
            row < old(self).height(),
            sub_x < 2,
            sub_y < 4,
        ensures
            final(self).width() == old(self).width(),
            final(self).height() == old(self).height(),
            final(self).cells() == raise_dot(
                old(self).cells(),
                old(self).width() as int,
                2 * col + sub_x,
                4 * row + sub_y,
            ),
    {
        proof {
            use_type_invariant(&*self);
        }
        let len = self.cells.len();
        assert(row * self.width + col < self.width * self.height && 0 <= row * self.width)
            by (nonlinear_arith)
            requires
                0 <= row < self.height,
                0 <= col < self.width,
        ;
        let index = row * self.width + col;
        let bit = dot_bit(sub_y, sub_x);
        let dots = self.cells[index];
        let raised: u8 = dots | (bit as u8);
        assert(code_of(raised) == code_of(dots) | bit) by {
            assert((0x2800u16 + (dots | (bit as u8)) as u16) as u16 == (0x2800u16
                + dots as u16) as u16 | bit)
                by (bit_vector)
                requires
                    0 < bit <= 0x80,
            ;
        }
        self.cells[index] = raised;
    }

    /// Raises the dot in column `dot_x` and row `dot_y`, counted in dots over
    /// the whole grid. A dot outside the grid is left out.
    pub fn plot(&mut self, dot_x: usize, dot_y: usize)
        ensures
            final(self).width() == old(self).width(),
            final(self).height() == old(self).height(),
            final(self).cells() == dot_plotted(
                old(self).cells(),
                old(self).width() as int,
                old(self).height() as int,
                dot_x as int,
                dot_y as int,
            ),
            old(self).has_every_cell(),
            final(self).has_every_cell(),
    {
        proof {
            use_type_invariant(&*self);
        }
        if dot_x / 2 < self.width && dot_y / 4 < self.height {
            self.raise(dot_x / 2, dot_y / 4, dot_x % 2, dot_y % 4);
        }
        proof {
            use_type_invariant(&*self);
        }
    }
}

/// Every cell of a grid holds a braille code.
pub proof fn lemma_cells_are_braille(grid: Grid)
    ensures
        forall|i: int| 0 <= i < grid.cells().len() ==> is_braille(#[trigger] grid.cells()[i]),
{
}

/// The window of the plane that a grid of `columns` by `rows` character
/// cells shows, as its left, right, top and bottom bounds in ticks. The
/// left and right bounds are those of the doubled x coordinate.
pub open spec fn window_of(columns: int, rows: int) -> (int, int, int, int) {
    (0, columns * UNIT, 0, rows * UNIT)
}

/// The dot onto which a point falls in a window of `columns` by `rows`
/// character cells, if it falls into the window at all.
///
/// The x coordinate is doubled first, since a cell is half as wide as it is
/// high. A point with `left <= x < right` and `top <= y < bottom` falls into
/// the window, and there onto the dot in column
/// `(x - left) * columns * 2 / (right - left)` and row
/// `(y - top) * rows * 4 / (bottom - top)`, both rounded down.
pub open spec fn dot_of(columns: int, rows: int, p: (int, int)) -> Option<(int, int)> {
    let (left, right, top, bottom) = window_of(columns, rows);
    let x = 2 * p.0;
    let y = p.1;
    if left <= x < right && top <= y < bottom {
        Some((((x - left) * columns * 2) / (right - left), ((y - top) * rows * 4) / (bottom - top)))
    } else {
        None
    }
}

/// The cells after one point is drawn.
pub open spec fn plot_point(cells: Seq<u16>, columns: int, rows: int, p: (int, int)) -> Seq<u16> {
    match dot_of(columns, rows, p) {
        Some(dot) => raise_dot(cells, columns, dot.0, dot.1),
        None => cells,
    }
}

/// The cells after the points are drawn, one after the other.
pub open spec fn plot_points(
    cells: Seq<u16>,
    columns: int,
    rows: int,
    points: Seq<(int, int)>,
) -> Seq<u16>
    decreases points.len(),
{
    if points.len() == 0 {
        cells
    } else {
        plot_point(
            plot_points(cells, columns, rows, points.drop_last()),
            columns,
            rows,
            points.last(),
        )
    }
}

/// Within a window, the dot of a point is a quarter of a unit wide and
/// high: its column is `4 * x / UNIT` and its row `4 * y / UNIT`, rounded
/// down, and it lies on the grid.
pub proof fn lemma_dot_of(columns: int, rows: int, p: (int, int))
    requires
        dot_of(columns, rows, p).is_some(),
    ensures
        dot_of(columns, rows, p) == Some(((4 * p.0) / (UNIT as int), (4 * p.1) / (UNIT as int))),
        0 <= (4 * p.0) / (UNIT as int) < 2 * columns,
        0 <= (4 * p.1) / (UNIT as int) < 4 * rows,
{
    let x = 2 * p.0;
    let y = p.1;
    lemma_div_multiples_vanish_quotient(columns, 2 * x, UNIT as int);
    lemma_div_multiples_vanish_quotient(rows, 4 * y, UNIT as int);
    assert(columns * (2 * x) == (x - 0) * columns * 2) by (nonlinear_arith);
    assert(rows * (4 * y) == (y - 0) * rows * 4) by (nonlinear_arith);
}

/// The state of a drawing: a grid of braille cells and the window of the
/// plane that it shows. The window starts at the origin and is as large as
/// the grid: a character cell is half a unit wide and a whole unit high.
pub struct Context {
    grid: Grid,
}

impl Context {
    /// The grid that is drawn on.
    pub closed spec fn grid(self) -> Grid {
        self.grid
    }

    /// Number of character cells in a row for a window `width` ticks wide:
    /// two for each whole unit, none for a negative width.
    pub open spec fn columns_for(width: int) -> int {
        if width <= 0 {
            0
        } else {
            (2 * width) / (UNIT as int)
        }
    }

    /// Number of rows of character cells for a window `height` ticks high:
    /// one for each whole unit, none for a negative height.
    pub open spec fn rows_for(height: int) -> int {
        if height <= 0 {
            0
        } else {
            height / (UNIT as int)
        }
    }

    /// A blank drawing of the window from the origin to `(width, height)`.
    /// The window is rounded down to whole character cells.
    pub fn new(width: i32, height: i32) -> (context: Context)
        requires
            Self::columns_for(width as int) * Self::rows_for(height as int) <= usize::MAX,
        ensures
            context.grid().width() == Self::columns_for(width as int),
            context.grid().height() == Self::rows_for(height as int),
            context.grid().cells() == blank_cells(
                Self::columns_for(width as int) * Self::rows_for(height as int),
            ),
            context.grid().has_every_cell(),
    {
        let columns: u64 = if width <= 0 {
            0
        } else {
            (2 * (width as u64)) / (UNIT as u64)
        };
        let rows: u64 = if height <= 0 {
            0
        } else {
            (height as u64) / (UNIT as u64)
        };
        let context = Context { grid: Grid::new(columns as usize, rows as usize) };
        proof {
            use_type_invariant(&context.grid);
        }
        context
    }

    /// The text of the drawing. A drawing holds as many cells as the width
    /// and the height of its grid say.
    pub fn to_string(&self) -> (text: String)
        ensures
            text@ == text_of(self.grid().cells(), self.grid().width() as int),
            self.grid().has_every_cell(),
    {
        proof {
            use_type_invariant(&self.grid);
        }
        self.grid.to_string()
    }

    /// Makes the drawing blank again. Before and after, the drawing holds as
    /// many cells as the width and the height of its grid say.
    pub fn reset(&mut self)
        ensures
            final(self).grid().width() == old(self).grid().width(),
            final(self).grid().height() == old(self).grid().height(),
            final(self).grid().cells() == blank_cells(old(self).grid().cells().len() as int),
            old(self).grid().has_every_cell(),
            final(self).grid().has_every_cell(),
    {
        proof {
            use_type_invariant(&self.grid);
        }
        self.grid.reset();
        proof {
            use_type_invariant(&self.grid);
        }
    }

    /// Draws one point.
    fn draw_point(&mut self, p: Point)
        ensures
            final(self).grid().width() == old(self).grid().width(),
            final(self).grid().height() == old(self).grid().height(),
            final(self).grid().cells() == plot_point(
                old(self).grid().cells(),
                old(self).grid().width() as int,
                old(self).grid().height() as int,
                point_as_ints(p),
            ),
    {
        let columns = self.grid.columns();
        let rows = self.grid.rows();
        let right: i128 = (columns as i128) * (UNIT as i128);
        let bottom: i128 = (rows as i128) * (UNIT as i128);
        let x: i128 = 2 * (p.0 as i128);
        let y: i128 = p.1 as i128;
        if 0 <= x && x < right && 0 <= y && y < bottom {
            proof {
                lemma_dot_of(columns as int, rows as int, point_as_ints(p));
            }
            let dot_x: i128 = (2 * x) / (UNIT as i128);
            let dot_y: i128 = (4 * y) / (UNIT as i128);
            self.grid.raise(
                (dot_x / 2) as usize,
                (dot_y / 4) as usize,
                (dot_x % 2) as usize,
                (dot_y % 4) as usize,
            );
        }
    }

    /// Draws a shape: every point of it that falls into the window raises
    /// its dot. What was drawn before stays. Before and after, the drawing
    /// holds as many cells as the width and the height of its grid say.
    pub fn draw(&mut self, shape: &Shape)
        ensures
            final(self).grid().width() == old(self).grid().width(),
            final(self).grid().height() == old(self).grid().height(),
            final(self).grid().cells() == plot_points(
                old(self).grid().cells(),
                old(self).grid().width() as int,
                old(self).grid().height() as int,
                shape.spec_points(),
            ),
            old(self).grid().has_every_cell(),
            final(self).grid().has_every_cell(),
    {
        proof {
            use_type_invariant(&self.grid);
        }
        let points = shape.points();
        let mut i: usize = 0;
        while i < points.len()
            invariant
                i <= points@.len(),
                as_ints(points@) == shape.spec_points(),
                self.grid().width() == old(self).grid().width(),
                self.grid().height() == old(self).grid().height(),
                self.grid().cells() == plot_points(
                    old(self).grid().cells(),
                    old(self).grid().width() as int,
                    old(self).grid().height() as int,
                    as_ints(points@).take(i as int),
                ),
            decreases points@.len() - i,
        {
            let ghost prefix = as_ints(points@).take(i as int + 1);
            assert(prefix.drop_last() =~= as_ints(points@).take(i as int));
            self.draw_point(points[i]);
            i = i + 1;
        }
        assert(as_ints(points@).take(i as int) =~= as_ints(points@));
        proof {
            use_type_invariant(&self.grid);
        }
    }
}

} // verus!

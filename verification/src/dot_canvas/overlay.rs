//! What holds of drawings laid over one another: dots only accumulate.
use vstd::prelude::*;
use crate::dot_canvas::grid::{dot_mask, dot_of, lemma_dot_of, plot_points};

verus! {

/// The index of the cell that holds the dot in column `dot_x` and row `dot_y`.
pub open spec fn cell_index(columns: int, dot_x: int, dot_y: int) -> int {
    (dot_y / 4) * columns + dot_x / 2
}

/// The dot bits that the points raise in the cell with the given index.
pub open spec fn raised_in(columns: int, rows: int, points: Seq<(int, int)>, index: int) -> u16
    decreases points.len(),
{
    if points.len() == 0 {
        0
    } else {
        let before = raised_in(columns, rows, points.drop_last(), index);
        match dot_of(columns, rows, points.last()) {
            Some(dot) => if cell_index(columns, dot.0, dot.1) == index {
                before | dot_mask(dot.1 % 4, dot.0 % 2)
            } else {
                before
            },
            None => before,
        }
    }
}

/// The cell of a dot on the grid is a cell of the grid.
proof fn lemma_cell_index_in_range(columns: int, rows: int, dot_x: int, dot_y: int)
    requires
        0 <= dot_x < 2 * columns,
        0 <= dot_y < 4 * rows,
    ensures
        0 <= cell_index(columns, dot_x, dot_y) < columns * rows,
{
    let row = dot_y / 4;
    let col = dot_x / 2;
    assert(0 <= row * columns + col < columns * rows) by (nonlinear_arith)
        requires
            0 <= row < rows,
            0 <= col < columns,
    ;
}

/// Drawing points changes no cell but by raising dots: each cell ends as
/// what it was, with the bits of the points that fall into it set.
pub proof fn lemma_plot_points_raises(
    cells: Seq<u16>,
    columns: int,
    rows: int,
    points: Seq<(int, int)>,
)
    requires
        cells.len() == columns * rows,
    ensures
        plot_points(cells, columns, rows, points).len() == cells.len(),
        forall|i: int|
            0 <= i < cells.len() ==> #[trigger] plot_points(cells, columns, rows, points)[i]
                == cells[i] | raised_in(columns, rows, points, i),
    decreases points.len(),
{
    if points.len() == 0 {
        assert forall|i: int| 0 <= i < cells.len() implies #[trigger] plot_points(
            cells,
            columns,
            rows,
            points,
        )[i] == cells[i] | raised_in(columns, rows, points, i) by {
            let c = cells[i];
            assert(c == c | 0) by (bit_vector);
        }
    } else {
        let init = points.drop_last();
        let before = plot_points(cells, columns, rows, init);
        lemma_plot_points_raises(cells, columns, rows, init);
        match dot_of(columns, rows, points.last()) {
            Some(dot) => {
                lemma_dot_of(columns, rows, points.last());
                lemma_cell_index_in_range(columns, rows, dot.0, dot.1);
                let j = cell_index(columns, dot.0, dot.1);
                let bit = dot_mask(dot.1 % 4, dot.0 % 2);
                assert forall|i: int| 0 <= i < cells.len() implies #[trigger] plot_points(
                    cells,
                    columns,
                    rows,
                    points,
                )[i] == cells[i] | raised_in(columns, rows, points, i) by {
                    if i == j {
                        let c = cells[i];
                        let m = raised_in(columns, rows, init, i);
                        assert((c | m) | bit == c | (m | bit)) by (bit_vector);
                    }
                }
            },
            None => {},
        }
    }
}

/// Drawing the same points a second time changes nothing.
pub proof fn lemma_draw_twice(cells: Seq<u16>, columns: int, rows: int, points: Seq<(int, int)>)
    requires
        cells.len() == columns * rows,
    ensures
        plot_points(plot_points(cells, columns, rows, points), columns, rows, points)
            == plot_points(cells, columns, rows, points),
{
    let once = plot_points(cells, columns, rows, points);
    let twice = plot_points(once, columns, rows, points);
    lemma_plot_points_raises(cells, columns, rows, points);
    lemma_plot_points_raises(once, columns, rows, points);
    assert forall|i: int| 0 <= i < once.len() implies twice[i] == once[i] by {
        let c = cells[i];
        let m = raised_in(columns, rows, points, i);
        assert((c | m) | m == c | m) by (bit_vector);
    }
}

/// The order in which two sets of points are drawn does not matter.
pub proof fn lemma_draw_order(
    cells: Seq<u16>,
    columns: int,
    rows: int,
    first: Seq<(int, int)>,
    second: Seq<(int, int)>,
)
    requires
        cells.len() == columns * rows,
    ensures
        plot_points(plot_points(cells, columns, rows, first), columns, rows, second)
            == plot_points(plot_points(cells, columns, rows, second), columns, rows, first),
{
    let a = plot_points(cells, columns, rows, first);
    let b = plot_points(cells, columns, rows, second);
    let ab = plot_points(a, columns, rows, second);
    let ba = plot_points(b, columns, rows, first);
    lemma_plot_points_raises(cells, columns, rows, first);
    lemma_plot_points_raises(cells, columns, rows, second);
    lemma_plot_points_raises(a, columns, rows, second);
    lemma_plot_points_raises(b, columns, rows, first);
    assert forall|i: int| 0 <= i < cells.len() implies ab[i] == ba[i] by {
        let c = cells[i];
        let m = raised_in(columns, rows, first, i);
        let n = raised_in(columns, rows, second, i);
        assert((c | m) | n == (c | n) | m) by (bit_vector);
    }
}

/// Drawing never lowers a dot: every bit set in a cell before is set after.
pub proof fn lemma_draw_keeps_dots(
    cells: Seq<u16>,
    columns: int,
    rows: int,
    points: Seq<(int, int)>,
    index: int,
)
    requires
        cells.len() == columns * rows,
        0 <= index < cells.len(),
    ensures
        plot_points(cells, columns, rows, points)[index] & cells[index] == cells[index],
{
    lemma_plot_points_raises(cells, columns, rows, points);
    let c = cells[index];
    let m = raised_in(columns, rows, points, index);
    assert((c | m) & c == c) by (bit_vector);
}

} // verus!

//! The canvas of box-drawing characters.
use std::collections::HashMap;
use vstd::prelude::*;
use vstd::std_specs::iter::IteratorSpec;
use crate::unicode_canvas::border::Border;
use crate::unicode_canvas::fragment::{arc, line, thick, Cell, Fragment};
use crate::unicode_canvas::order::{
    by_place, canonical, lemma_by_place_total, lemma_canonical_contains,
    lemma_canonical_ignores_order, lemma_same_values_once, lemma_to_seq_no_duplicates, sort,
    Ranked,
};
use crate::unicode_canvas::string_buffer::{char_put, text_of_rows, StringBuffer};
use crate::unicode_canvas::unicode_map::{fragment_char, FragmentTable};

verus! {

broadcast use vstd::std_specs::hash::group_hash_axioms;

/// The column and the row of a character cell.
pub type Position = (usize, usize);

/// What a canvas holds: for each cell that was drawn on, the fragments in
/// it, in the order in which they were drawn.
pub type Cells = Map<Position, Seq<Fragment>>;

/// The number by which a cell is found: its column times two to the power
/// 64, plus its row. Cells are in the order of these numbers when they are
/// ordered by column first and then by row.
pub open spec fn key_of(p: Position) -> u128 {
    (p.0 * 0x1_0000_0000_0000_0000 + p.1) as u128
}

/// The cell that is found by the number `key`.
pub open spec fn position_of(key: u128) -> Position {
    ((key / 0x1_0000_0000_0000_0000) as usize, (key % 0x1_0000_0000_0000_0000) as usize)
}

/// Whether `key` is the number of a cell.
pub open spec fn is_key(key: u128) -> bool {
    key / 0x1_0000_0000_0000_0000 <= usize::MAX && key % 0x1_0000_0000_0000_0000 <= usize::MAX
}

/// The fragments of every cell, by position.
pub open spec fn cells_of(stored: Map<u128, Vec<Fragment>>) -> Cells {
    Map::new(|p: Position| stored.contains_key(key_of(p)), |p: Position| stored[key_of(p)]@)
}

/// A cell's number leads back to the cell.
pub proof fn lemma_key_of(p: Position)
    ensures
        is_key(key_of(p)),
        position_of(key_of(p)) == p,
{
}

/// The number of a cell is that of no other cell.
pub proof fn lemma_position_of(key: u128)
    requires
        is_key(key),
    ensures
        key_of(position_of(key)) == key,
{
}

/// The fragments already in a cell; none for a cell that was not drawn on.
pub open spec fn fragments_at(cells: Cells, p: Position) -> Seq<Fragment> {
    if cells.contains_key(p) {
        cells[p]
    } else {
        Seq::empty()
    }
}

/// Whether a cell lies on a run: a row of cells from column `lo` to column
/// `hi` in row `fixed`, or a column of cells from row `lo` to row `hi` in
/// column `fixed`.
pub open spec fn on_run(p: Position, horizontal: bool, fixed: usize, lo: int, hi: int) -> bool {
    if horizontal {
        p.1 == fixed && lo <= p.0 <= hi
    } else {
        p.0 == fixed && lo <= p.1 <= hi
    }
}

/// The fragment that comes into a cell of a run from the cell before it.
pub open spec fn near_fragment(horizontal: bool, use_thick: bool) -> Fragment {
    if horizontal {
        if use_thick {
            thick(Cell::K, Cell::M)
        } else {
            line(Cell::K, Cell::M)
        }
    } else {
        if use_thick {
            thick(Cell::C, Cell::M)
        } else {
            line(Cell::C, Cell::M)
        }
    }
}

/// The fragment that leaves a cell of a run for the cell after it.
pub open spec fn far_fragment(horizontal: bool, use_thick: bool) -> Fragment {
    if horizontal {
        if use_thick {
            thick(Cell::M, Cell::O)
        } else {
            line(Cell::M, Cell::O)
        }
    } else {
        if use_thick {
            thick(Cell::M, Cell::W)
        } else {
            line(Cell::M, Cell::W)
        }
    }
}

/// What a run from `lo` to `hi` adds to its cell at `at`. The first cell
/// gets the fragment that leaves it, the last the fragment that comes into
/// it, each cell between both. A run of one cell has a first cell only.
pub open spec fn run_fragments(
    at: int,
    lo: int,
    hi: int,
    horizontal: bool,
    use_thick: bool,
) -> Seq<Fragment> {
    if at == lo {
        seq![far_fragment(horizontal, use_thick)]
    } else if at == hi {
        seq![near_fragment(horizontal, use_thick)]
    } else {
        seq![near_fragment(horizontal, use_thick), far_fragment(horizontal, use_thick)]
    }
}

/// The cells after the part from `lo` to `upto` of a run from `lo` to `hi`
/// is drawn: each cell of that part has, behind what it held, what the run
/// adds to it; every other cell is as it was.
pub open spec fn run_drawn_upto(
    cells: Cells,
    horizontal: bool,
    fixed: usize,
    lo: int,
    hi: int,
    upto: int,
    use_thick: bool,
) -> Cells {
    Map::new(
        |p: Position| cells.contains_key(p) || on_run(p, horizontal, fixed, lo, upto),
        |p: Position|
            if on_run(p, horizontal, fixed, lo, upto) {
                fragments_at(cells, p) + run_fragments(
                    if horizontal {
                        p.0 as int
                    } else {
                        p.1 as int
                    },
                    lo,
                    hi,
                    horizontal,
                    use_thick,
                )
            } else {
                cells[p]
            },
    )
}

/// The cells after a run from `lo` to `hi` is drawn.
pub open spec fn run_drawn(
    cells: Cells,
    horizontal: bool,
    fixed: usize,
    lo: int,
    hi: int,
    use_thick: bool,
) -> Cells {
    run_drawn_upto(cells, horizontal, fixed, lo, hi, hi, use_thick)
}

/// The smaller of two numbers.
pub open spec fn lesser(a: usize, b: usize) -> int {
    if a <= b {
        a as int
    } else {
        b as int
    }
}

/// The larger of two numbers.
pub open spec fn greater(a: usize, b: usize) -> int {
    if a <= b {
        b as int
    } else {
        a as int
    }
}

/// The cells after a horizontal line between the columns `x1` and `x2` of
/// row `y` is drawn, whichever of the two columns is the smaller one.
pub open spec fn horizontal_line_drawn(
    cells: Cells,
    x1: usize,
    x2: usize,
    y: usize,
    use_thick: bool,
) -> Cells {
    run_drawn(cells, true, y, lesser(x1, x2), greater(x1, x2), use_thick)
}

/// The cells after a vertical line between the rows `y1` and `y2` of column
/// `x` is drawn, whichever of the two rows is the smaller one.
pub open spec fn vertical_line_drawn(
    cells: Cells,
    x: usize,
    y1: usize,
    y2: usize,
    use_thick: bool,
) -> Cells {
    run_drawn(cells, false, x, lesser(y1, y2), greater(y1, y2), use_thick)
}

/// The cells after the fragments of `p` are replaced by one arc, where
/// `rounded` holds; the same cells where it does not.
pub open spec fn corner_drawn(cells: Cells, rounded: bool, p: Position, corner: Fragment) -> Cells {
    if rounded {
        cells.insert(p, seq![corner])
    } else {
        cells
    }
}

/// The cells after a rectangle with the corners `start` and `end` is drawn:
/// the two horizontal edges, then the two vertical ones; then, for a thin
/// border, each rounded corner takes the place of what its cell held.
pub open spec fn rect_drawn(cells: Cells, start: Position, end: Position, border: Border) -> Cells {
    let (x1, y1) = start;
    let (x2, y2) = end;
    let thick = border.use_thick_border;
    let top = horizontal_line_drawn(cells, x1, x2, y1, thick);
    let bottom = horizontal_line_drawn(top, x1, x2, y2, thick);
    let left = vertical_line_drawn(bottom, x1, y1, y2, thick);
    let right = vertical_line_drawn(left, x2, y1, y2, thick);
    if thick {
        right
    } else {
        let a = corner_drawn(right, border.is_top_left_rounded, (x1, y1), arc(Cell::O, Cell::W));
        let b = corner_drawn(a, border.is_top_right_rounded, (x2, y1), arc(Cell::W, Cell::K));
        let c = corner_drawn(b, border.is_bottom_left_rounded, (x1, y2), arc(Cell::C, Cell::O));
        corner_drawn(c, border.is_bottom_right_rounded, (x2, y2), arc(Cell::K, Cell::C))
    }
}

/// Cells are ordered by column first and then by row.
impl Ranked for Position {
    open spec fn place(&self) -> nat {
        key_of(*self) as nat
    }

    fn rank(&self) -> (r: u128) {
        key(self.0, self.1)
    }

    proof fn lemma_place_injective(a: &Self, b: &Self) {
        lemma_key_of(*a);
        lemma_key_of(*b);
    }
}

/// The cells that were drawn on, ordered by column first and then by row.
pub open spec fn positions(cells: Cells) -> Seq<Position> {
    canonical(cells.dom().to_seq())
}

/// The characters of the given cells, each with its column and row, in the
/// order of the cells. A cell whose fragments make no character is left out.
pub open spec fn glyphs_at(cells: Cells, positions: Seq<Position>) -> Seq<(usize, usize, char)>
    decreases positions.len(),
{
    if positions.len() == 0 {
        Seq::empty()
    } else {
        let before = glyphs_at(cells, positions.drop_last());
        let p = positions.last();
        match fragment_char(cells[p]) {
            Some(ch) => before.push((p.0, p.1, ch)),
            None => before,
        }
    }
}

/// The characters of a canvas, each with its column and row, ordered by
/// column first and then by row.
pub open spec fn glyphs(cells: Cells) -> Seq<(usize, usize, char)> {
    glyphs_at(cells, positions(cells))
}

/// Whether the cell `a` comes before the cell `b`: it lies in a column
/// further left, or in the same column further up.
pub open spec fn comes_before(a: Position, b: Position) -> bool {
    a.0 < b.0 || (a.0 == b.0 && a.1 < b.1)
}

/// Cells are in the order of their numbers.
pub proof fn lemma_key_order(a: Position, b: Position)
    ensures
        comes_before(a, b) == (key_of(a) < key_of(b)),
{
}

/// The cells of a canvas in order are the cells that were drawn on, each
/// once, and each comes before the next.
pub proof fn lemma_positions(cells: Cells)
    requires
        cells.dom().finite(),
    ensures
        forall|p: Position| positions(cells).contains(p) == cells.contains_key(p),
        forall|i: int, j: int|
            0 <= i < j < positions(cells).len() ==> comes_before(
                #[trigger] positions(cells)[i],
                #[trigger] positions(cells)[j],
            ),
{
    let row = cells.dom().to_seq();
    let ordered = positions(cells);
    lemma_to_seq_no_duplicates(cells.dom());
    assert forall|p: Position| ordered.contains(p) == cells.contains_key(p) by {
        lemma_canonical_contains(row, p);
        assert(row.contains(p) == row.to_set().contains(p));
    }
    lemma_by_place_total::<Position>();
    row.lemma_sort_by_ensures(by_place::<Position>());
    assert(ordered.to_multiset() == row.to_multiset());
    row.lemma_multiset_has_no_duplicates();
    ordered.lemma_multiset_has_no_duplicates_conv();
    assert forall|i: int, j: int| 0 <= i < j < ordered.len() implies comes_before(
        #[trigger] ordered[i],
        #[trigger] ordered[j],
    ) by {
        assert(by_place::<Position>()(ordered[i], ordered[j]));
        lemma_key_of(ordered[i]);
        lemma_key_of(ordered[j]);
        lemma_key_order(ordered[i], ordered[j]);
    }
}

/// The characters of the given cells are those of the cells that have one,
/// and they keep the order of the cells.
pub proof fn lemma_glyphs_at(cells: Cells, positions: Seq<Position>)
    ensures
        forall|x: usize, y: usize, ch: char|
            glyphs_at(cells, positions).contains((x, y, ch)) == (positions.contains((x, y))
                && fragment_char(cells[(x, y)]) == Some(ch)),
        (forall|i: int, j: int|
            0 <= i < j < positions.len() ==> comes_before(
                #[trigger] positions[i],
                #[trigger] positions[j],
            )) ==> (forall|i: int, j: int|
            0 <= i < j < glyphs_at(cells, positions).len() ==> comes_before(
                (
                    (#[trigger] glyphs_at(cells, positions)[i]).0,
                    glyphs_at(cells, positions)[i].1,
                ),
                (
                    (#[trigger] glyphs_at(cells, positions)[j]).0,
                    glyphs_at(cells, positions)[j].1,
                ),
            )),
    decreases positions.len(),
{
    let all = glyphs_at(cells, positions);
    if positions.len() > 0 {
        let init = positions.drop_last();
        let p = positions.last();
        let before = glyphs_at(cells, init);
        lemma_glyphs_at(cells, init);
        assert forall|x: usize, y: usize, ch: char|
            all.contains((x, y, ch)) == (positions.contains((x, y)) && fragment_char(
                cells[(x, y)],
            ) == Some(ch)) by {
            let g = (x, y, ch);
            if before.contains(g) {
                let i = choose|i: int| 0 <= i < before.len() && before[i] == g;
                assert(all[i] == g);
                let k = choose|k: int| 0 <= k < init.len() && init[k] == (x, y);
                assert(positions[k] == (x, y));
            }
            if all.contains(g) && !before.contains(g) {
                let i = choose|i: int| 0 <= i < all.len() && all[i] == g;
                assert(i == before.len());
                assert(positions[positions.len() - 1] == (x, y));
            }
            if positions.contains((x, y)) && fragment_char(cells[(x, y)]) == Some(ch) {
                let k = choose|k: int| 0 <= k < positions.len() && positions[k] == (x, y);
                if k < init.len() {
                    assert(init[k] == (x, y));
                    assert(before.contains(g));
                } else {
                    assert(all[all.len() - 1] == g);
                }
            }
        }
        if forall|i: int, j: int|
            0 <= i < j < positions.len() ==> comes_before(
                #[trigger] positions[i],
                #[trigger] positions[j],
            ) {
            assert forall|i: int, j: int| 0 <= i < j < init.len() implies comes_before(
                #[trigger] init[i],
                #[trigger] init[j],
            ) by {
                assert(init[i] == positions[i] && init[j] == positions[j]);
            }
            assert forall|i: int, j: int| 0 <= i < j < all.len() implies comes_before(
                ((#[trigger] all[i]).0, all[i].1),
                ((#[trigger] all[j]).0, all[j].1),
            ) by {
                if j < before.len() {
                    assert(all[i] == before[i] && all[j] == before[j]);
                } else {
                    assert(all[i] == before[i]);
                    let g = before[i];
                    assert(g == (g.0, g.1, g.2));
                    assert(before.contains((g.0, g.1, g.2)));
                    let q = (g.0, g.1);
                    assert(init.contains(q));
                    let k = choose|k: int| 0 <= k < init.len() && init[k] == q;
                    assert(comes_before(positions[k], positions[positions.len() - 1]));
                }
            }
        }
    }
}

/// The characters of a canvas are those of the cells whose fragments make
/// one, and each comes before the next: by column first and then by row.
pub proof fn lemma_glyphs(cells: Cells)
    requires
        cells.dom().finite(),
    ensures
        forall|x: usize, y: usize, ch: char|
            glyphs(cells).contains((x, y, ch)) == (cells.contains_key((x, y)) && fragment_char(
                cells[(x, y)],
            ) == Some(ch)),
        forall|i: int, j: int|
            0 <= i < j < glyphs(cells).len() ==> comes_before(
                ((#[trigger] glyphs(cells)[i]).0, glyphs(cells)[i].1),
                ((#[trigger] glyphs(cells)[j]).0, glyphs(cells)[j].1),
            ),
{
    lemma_positions(cells);
    lemma_glyphs_at(cells, positions(cells));
}

/// The page on which the given characters are put, one after the other. One
/// whose column or row is too large for the page is left out.
pub open spec fn page_of(glyphs: Seq<(usize, usize, char)>) -> Seq<Seq<char>>
    decreases glyphs.len(),
{
    if glyphs.len() == 0 {
        Seq::empty()
    } else {
        let before = page_of(glyphs.drop_last());
        let (x, y, ch) = glyphs.last();
        if x <= i32::MAX && y <= i32::MAX {
            char_put(before, x as int, y as int, ch)
        } else {
            before
        }
    }
}

/// One fragment, or two where there is a second.
pub open spec fn one_or_two(first: Fragment, second: Option<Fragment>) -> Seq<Fragment> {
    match second {
        Some(s) => seq![first, s],
        None => seq![first],
    }
}

/// The number by which the cell in column `x` and row `y` is found.
fn key(x: usize, y: usize) -> (k: u128)
    ensures
        k == key_of((x, y)),
        is_key(k),
{
    (x as u128) * 0x1_0000_0000_0000_0000 + (y as u128)
}

/// Puts `first` and then, if there is one, `second` behind the fragments of
/// the cell `p`.
fn add_fragments(
    stored: &mut HashMap<u128, Vec<Fragment>>,
    p: Position,
    first: Fragment,
    second: Option<Fragment>,
)
    ensures
        cells_of(final(stored)@) == cells_of(old(stored)@).insert(
            p,
            fragments_at(cells_of(old(stored)@), p) + one_or_two(first, second),
        ),
        forall|k: u128|
            final(stored)@.contains_key(k) ==> old(stored)@.contains_key(k) || k == key_of(p),
{
    let k = key(p.0, p.1);
    let mut fragments = match stored.remove(&k) {
        Some(held) => held,
        None => Vec::new(),
    };
    let ghost before = fragments@;
    assert(before == fragments_at(cells_of(old(stored)@), p));
    fragments.push(first);
    match second {
        Some(s) => {
            fragments.push(s);
            assert(fragments@ =~= before + seq![first, s]);
        },
        None => {
            assert(fragments@ =~= before + seq![first]);
        },
    }
    stored.insert(k, fragments);
    assert forall|q: Position| q != p implies key_of(q) != k by {
        lemma_key_of(q);
        lemma_key_of(p);
    }
    assert(cells_of(stored@) =~= cells_of(old(stored)@).insert(
        p,
        fragments_at(cells_of(old(stored)@), p) + match second {
            Some(s) => seq![first, s],
            None => seq![first],
        },
    ));
}

/// A canvas of character cells, each holding the fragments drawn into it.
pub struct Canvas {
    cells: HashMap<u128, Vec<Fragment>>,
    table: FragmentTable,
}

impl View for Canvas {
    type V = Cells;

    closed spec fn view(&self) -> Cells {
        cells_of(self.cells@)
    }
}

impl Canvas {
    /// Every number that a canvas keeps is the number of a cell.
    #[verifier::type_invariant]
    spec fn well_formed(self) -> bool {
        forall|k: u128| self.cells@.contains_key(k) ==> is_key(k)
    }

    /// A canvas on which nothing is drawn.
    pub fn new() -> (canvas: Canvas)
        ensures
            canvas@ == Map::<Position, Seq<Fragment>>::empty(),
    {
        let canvas = Canvas { cells: HashMap::new(), table: FragmentTable::new() };
        assert(canvas@ =~= Map::<Position, Seq<Fragment>>::empty());
        canvas
    }

    /// Draws a run of cells.
    fn draw_run(&mut self, horizontal: bool, fixed: usize, lo: usize, hi: usize, use_thick: bool)
        requires
            lo <= hi,
        ensures
            final(self)@ == run_drawn(
                old(self)@,
                horizontal,
                fixed,
                lo as int,
                hi as int,
                use_thick,
            ),
    {
        proof {
            use_type_invariant(&*self);
        }
        let near = if horizontal {
            if use_thick {
                thick(Cell::K, Cell::M)
            } else {
                line(Cell::K, Cell::M)
            }
        } else {
            if use_thick {
                thick(Cell::C, Cell::M)
            } else {
                line(Cell::C, Cell::M)
            }
        };
        let far = if horizontal {
            if use_thick {
                thick(Cell::M, Cell::O)
            } else {
                line(Cell::M, Cell::O)
            }
        } else {
            if use_thick {
                thick(Cell::M, Cell::W)
            } else {
                line(Cell::M, Cell::W)
            }
        };
        let mut stored: HashMap<u128, Vec<Fragment>> = HashMap::new();
        std::mem::swap(&mut stored, &mut self.cells);
        let ghost before = cells_of(stored@);
        let mut i = lo;
        assert(cells_of(stored@) =~= run_drawn_upto(
            before,
            horizontal,
            fixed,
            lo as int,
            hi as int,
            i as int - 1,
            use_thick,
        ));
        loop
            invariant_except_break
                lo <= i <= hi,
                cells_of(stored@) == run_drawn_upto(
                    before,
                    horizontal,
                    fixed,
                    lo as int,
                    hi as int,
                    i as int - 1,
                    use_thick,
                ),
            invariant
                near == near_fragment(horizontal, use_thick),
                far == far_fragment(horizontal, use_thick),
                forall|k: u128| stored@.contains_key(k) ==> is_key(k),
            ensures
                cells_of(stored@) == run_drawn(
                    before,
                    horizontal,
                    fixed,
                    lo as int,
                    hi as int,
                    use_thick,
                ),
            decreases hi - i,
        {
            let p: Position = if horizontal {
                (i, fixed)
            } else {
                (fixed, i)
            };
            proof {
                lemma_key_of(p);
            }
            if i == lo {
                add_fragments(&mut stored, p, far, None);
            } else if i == hi {
                add_fragments(&mut stored, p, near, None);
            } else {
                add_fragments(&mut stored, p, near, Some(far));
            }
            assert(cells_of(stored@) =~= run_drawn_upto(
                before,
                horizontal,
                fixed,
                lo as int,
                hi as int,
                i as int,
                use_thick,
            ));
            if i == hi {
                break ;
            }
            i = i + 1;
        }
        self.cells = stored;
    }

    /// Draws a horizontal line from `start` to `end`, thick or thin. The
    /// two ends must lie in the same row.
    pub fn draw_horizontal_line(&mut self, start: Position, end: Position, use_thick: bool)
        requires
            start.1 == end.1,
        ensures
            final(self)@ == horizontal_line_drawn(old(self)@, start.0, end.0, start.1, use_thick),
    {
        let (x1, y1) = start;
        let (x2, _y2) = end;
        if x1 > x2 {
            self.draw_run(true, y1, x2, x1, use_thick);
        } else {
            self.draw_run(true, y1, x1, x2, use_thick);
        }
    }

    /// Draws a vertical line from `start` to `end`, thick or thin. The two
    /// ends must lie in the same column.
    pub fn draw_vertical_line(&mut self, start: Position, end: Position, use_thick: bool)
        requires
            start.0 == end.0,
        ensures
            final(self)@ == vertical_line_drawn(old(self)@, start.0, start.1, end.1, use_thick),
    {
        let (x1, y1) = start;
        let (_x2, y2) = end;
        if y1 > y2 {
            self.draw_run(false, x1, y2, y1, use_thick);
        } else {
            self.draw_run(false, x1, y1, y2, use_thick);
        }
    }

    /// Puts one arc in the place of whatever the cell `p` holds.
    fn draw_corner(&mut self, p: Position, corner: Fragment)
        ensures
            final(self)@ == old(self)@.insert(p, seq![corner]),
    {
        proof {
            use_type_invariant(&*self);
        }
        let mut stored: HashMap<u128, Vec<Fragment>> = HashMap::new();
        std::mem::swap(&mut stored, &mut self.cells);
        let mut fragments: Vec<Fragment> = Vec::new();
        fragments.push(corner);
        assert(fragments@ =~= seq![corner]);
        let k = key(p.0, p.1);
        stored.insert(k, fragments);
        assert forall|q: Position| q != p implies key_of(q) != k by {
            lemma_key_of(q);
            lemma_key_of(p);
        }
        assert(cells_of(stored@) =~= old(self)@.insert(p, seq![corner]));
        self.cells = stored;
    }

    /// Draws a rectangle with the corners `start` and `end`.
    pub fn draw_rect(&mut self, start: Position, end: Position, border: Border)
        ensures
            final(self)@ == rect_drawn(old(self)@, start, end, border),
    {
        let (x1, y1) = start;
        let (x2, y2) = end;
        self.draw_horizontal_line((x1, y1), (x2, y1), border.use_thick_border);
        self.draw_horizontal_line((x1, y2), (x2, y2), border.use_thick_border);
        self.draw_vertical_line((x1, y1), (x1, y2), border.use_thick_border);
        self.draw_vertical_line((x2, y1), (x2, y2), border.use_thick_border);
        if !border.use_thick_border {
            if border.is_top_left_rounded {
                self.draw_corner((x1, y1), arc(Cell::O, Cell::W));
            }
            if border.is_top_right_rounded {
                self.draw_corner((x2, y1), arc(Cell::W, Cell::K));
            }
            if border.is_bottom_left_rounded {
                self.draw_corner((x1, y2), arc(Cell::C, Cell::O));
            }
            if border.is_bottom_right_rounded {
                self.draw_corner((x2, y2), arc(Cell::K, Cell::C));
            }
        }
    }
}

/// The numbers of all cells of a canvas, each once, in no particular order.
fn stored_keys(stored: &HashMap<u128, Vec<Fragment>>) -> (keys: Vec<u128>)
    ensures
        keys@.no_duplicates(),
        keys@.to_set() == stored@.dom(),
{
    let mut keys: Vec<u128> = Vec::new();
    let ghost all: Seq<u128> = vstd::std_specs::hash::spec_keys_iter(stored).remaining().unref();
    for k in iter: stored.keys()
        invariant
            iter.seq().unref() == all,
            keys@ == all.take(iter.index() as int),
    {
        assert(all.take(iter.index() as int + 1) =~= all.take(iter.index() as int).push(*k));
        keys.push(*k);
    }
    assert(keys@ =~= all);
    keys
}

/// The cells of a canvas, each once, in no particular order.
fn stored_positions(stored: &HashMap<u128, Vec<Fragment>>) -> (found: Vec<Position>)
    requires
        forall|k: u128| stored@.contains_key(k) ==> is_key(k),
    ensures
        found@.no_duplicates(),
        found@.to_set() == cells_of(stored@).dom(),
{
    let keys = stored_keys(stored);
    let mut found: Vec<Position> = Vec::new();
    let mut i: usize = 0;
    while i < keys.len()
        invariant
            i <= keys@.len(),
            keys@.to_set() == stored@.dom(),
            forall|k: u128| stored@.contains_key(k) ==> is_key(k),
            found@.len() == i,
            forall|j: int| 0 <= j < i ==> found@[j] == position_of(keys@[j]),
        decreases keys@.len() - i,
    {
        let k = keys[i];
        assert(keys@.to_set().contains(k));
        found.push(
            ((k / 0x1_0000_0000_0000_0000) as usize, (k % 0x1_0000_0000_0000_0000) as usize),
        );
        i = i + 1;
    }
    proof {
        assert forall|a: int, b: int| 0 <= a < found@.len() && 0 <= b < found@.len() && a
            != b implies found@[a] != found@[b] by {
            assert(keys@.to_set().contains(keys@[a]));
            assert(keys@.to_set().contains(keys@[b]));
            lemma_position_of(keys@[a]);
            lemma_position_of(keys@[b]);
        }
        assert forall|p: Position| found@.to_set().contains(p) == cells_of(
            stored@,
        ).dom().contains(p) by {
            if found@.contains(p) {
                let j = choose|j: int| 0 <= j < found@.len() && found@[j] == p;
                assert(keys@.to_set().contains(keys@[j]));
                lemma_position_of(keys@[j]);
            }
            if stored@.contains_key(key_of(p)) {
                assert(keys@.to_set().contains(key_of(p)));
                let j = choose|j: int| 0 <= j < keys@.len() && keys@[j] == key_of(p);
                lemma_key_of(p);
                assert(found@[j] == p);
            }
        }
        assert(found@.to_set() =~= cells_of(stored@).dom());
    }
    found
}

impl Canvas {
    /// Number of cells that were drawn on.
    pub fn len(&self) -> (n: usize)
        ensures
            self@.dom().finite(),
            n == self@.dom().len(),
    {
        proof {
            use_type_invariant(self);
            let stored = self.cells@.dom();
            let found = stored.map(|k: u128| position_of(k));
            assert forall|a: u128, b: u128|
                stored.contains(a) && stored.contains(b) && position_of(a) == position_of(
                    b,
                ) implies a == b by {
                lemma_position_of(a);
                lemma_position_of(b);
            }
            assert forall|p: Position| found.contains(p) == self@.dom().contains(p) by {
                if found.contains(p) {
                    let k = choose|k: u128| stored.contains(k) && position_of(k) == p;
                    lemma_position_of(k);
                }
                if self.cells@.contains_key(key_of(p)) {
                    lemma_key_of(p);
                    assert(stored.contains(key_of(p)) && position_of(key_of(p)) == p);
                }
            }
            assert(found =~= self@.dom());
            vstd::set_lib::lemma_map_size(stored, self@.dom(), |k: u128| position_of(k));
        }
        self.cells.len()
    }

    /// The character that stands for the given fragments, if there is one.
    pub fn resolve(&self, fragments: &Vec<Fragment>) -> (glyph: Option<char>)
        ensures
            glyph == fragment_char(fragments@),
    {
        self.table.resolve(fragments)
    }

    /// The characters of the canvas, each with its column and row, ordered
    /// by column first and then by row. A cell whose fragments make no
    /// character is left out.
    pub fn get_cells(&self) -> (cells: Vec<(usize, usize, char)>)
        ensures
            self@.dom().finite(),
            cells@ == glyphs(self@),
    {
        proof {
            use_type_invariant(self);
        }
        let found = stored_positions(&self.cells);
        let ordered = sort(&found);
        proof {
            vstd::seq_lib::seq_to_set_is_finite(found@);
            lemma_to_seq_no_duplicates(self@.dom());
            lemma_same_values_once(found@, self@.dom().to_seq());
            lemma_canonical_ignores_order(found@, self@.dom().to_seq());
            assert(ordered@ == positions(self@));
        }
        let mut cells: Vec<(usize, usize, char)> = Vec::new();
        let mut i: usize = 0;
        assert(ordered@.take(0) =~= Seq::<Position>::empty());
        while i < ordered.len()
            invariant
                i <= ordered@.len(),
                ordered@ == canonical(found@),
                found@.to_set() == self@.dom(),
                self@ == cells_of(self.cells@),
                cells@ == glyphs_at(self@, ordered@.take(i as int)),
            decreases ordered@.len() - i,
        {
            let p = ordered[i];
            proof {
                let part = ordered@.take(i as int + 1);
                assert(part.drop_last() =~= ordered@.take(i as int));
                assert(part.last() == p);
                lemma_canonical_contains(found@, p);
                assert(found@.to_set().contains(p));
            }
            let k = key(p.0, p.1);
            match self.cells.get(&k) {
                Some(fragments) => {
                    match self.table.resolve(fragments) {
                        Some(ch) => {
                            cells.push((p.0, p.1, ch));
                        },
                        None => {},
                    }
                },
                None => {},
            }
            i = i + 1;
        }
        assert(ordered@.take(i as int) =~= ordered@);
        cells
    }

    /// The canvas as text: every character at its column and row, with
    /// spaces where there is none, and without the spaces at the end of a
    /// row.
    pub fn dump(&self) -> (text: String)
        ensures
            text@ == text_of_rows(page_of(glyphs(self@))),
    {
        let mut buffer = StringBuffer::new();
        let cells = self.get_cells();
        let mut i: usize = 0;
        assert(cells@.take(0) =~= Seq::<(usize, usize, char)>::empty());
        while i < cells.len()
            invariant
                i <= cells@.len(),
                buffer@ == page_of(cells@.take(i as int)),
            decreases cells@.len() - i,
        {
            let (x, y, ch) = cells[i];
            proof {
                let part = cells@.take(i as int + 1);
                assert(part.drop_last() =~= cells@.take(i as int));
                assert(part.last() == cells@[i as int]);
            }
            if x <= i32::MAX as usize && y <= i32::MAX as usize {
                buffer.add_char(x as i32, y as i32, ch);
            }
            i = i + 1;
        }
        assert(cells@.take(i as int) =~= cells@);
        buffer.to_string()
    }
}

} // verus!

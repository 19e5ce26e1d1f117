use ito_canvas::unicode_canvas::fragment;
use ito_canvas::unicode_canvas::fragment::Cell;
use ito_canvas::unicode_canvas::Border;
use ito_canvas::unicode_canvas::Canvas;

#[test]
fn empty_canvas() {
    let canvas = Canvas::new();
    assert_eq!(canvas.len(), 0);
    assert_eq!(canvas.get_cells(), vec![]);
    assert_eq!(canvas.dump(), "");
}

#[test]
fn horizontal_line_has_ends_and_a_middle() {
    let mut canvas = Canvas::new();
    canvas.draw_horizontal_line((1, 0), (4, 0), false);
    assert_eq!(canvas.get_cells(), vec![(1, 0, '╶'), (2, 0, '─'), (3, 0, '─'), (4, 0, '╴')]);
    assert_eq!(canvas.dump(), " ╶──╴");
}

#[test]
fn vertical_line_has_ends_and_a_middle() {
    let mut canvas = Canvas::new();
    canvas.draw_vertical_line((0, 1), (0, 3), true);
    assert_eq!(canvas.get_cells(), vec![(0, 1, '╻'), (0, 2, '┃'), (0, 3, '╹')]);
    assert_eq!(canvas.dump(), "\n╻\n┃\n╹");
}

#[test]
fn line_of_one_cell_leaves_its_cell_only() {
    let mut canvas = Canvas::new();
    canvas.draw_horizontal_line((3, 3), (3, 3), false);
    assert_eq!(canvas.get_cells(), vec![(3, 3, '╶')]);
    let mut canvas = Canvas::new();
    canvas.draw_vertical_line((3, 3), (3, 3), true);
    assert_eq!(canvas.get_cells(), vec![(3, 3, '╻')]);
}

#[test]
fn line_of_two_cells_has_no_middle() {
    let mut canvas = Canvas::new();
    canvas.draw_horizontal_line((0, 0), (1, 0), true);
    assert_eq!(canvas.get_cells(), vec![(0, 0, '╺'), (1, 0, '╸')]);
}

#[test]
fn lines_may_be_given_from_either_end() {
    let mut forward = Canvas::new();
    forward.draw_horizontal_line((0, 1), (5, 1), false);
    forward.draw_vertical_line((2, 0), (2, 4), true);
    let mut backward = Canvas::new();
    backward.draw_horizontal_line((5, 1), (0, 1), false);
    backward.draw_vertical_line((2, 4), (2, 0), true);
    assert_eq!(forward.get_cells(), backward.get_cells());
    assert_eq!(forward.dump(), "  ╻\n╶─╂──╴\n  ┃\n  ┃\n  ╹");
}

#[test]
fn cells_come_by_column_and_then_by_row() {
    let mut canvas = Canvas::new();
    canvas.draw_rect((0, 0), (2, 1), Border::thin());
    assert_eq!(
        canvas.get_cells(),
        vec![(0, 0, '┌'), (0, 1, '└'), (1, 0, '─'), (1, 1, '─'), (2, 0, '┐'), (2, 1, '┘')]
    );
    let mut canvas = Canvas::new();
    canvas.draw_horizontal_line((300, 2), (300, 2), false);
    canvas.draw_horizontal_line((2, 300), (2, 300), false);
    canvas.draw_horizontal_line((2, 7), (2, 7), false);
    canvas.draw_horizontal_line((0, usize::MAX), (0, usize::MAX), false);
    canvas.draw_horizontal_line((usize::MAX, 0), (usize::MAX, 0), false);
    let cells: Vec<(usize, usize)> = canvas.get_cells().iter().map(|c| (c.0, c.1)).collect();
    assert_eq!(cells, vec![(0, usize::MAX), (2, 7), (2, 300), (300, 2), (usize::MAX, 0)]);
}

#[test]
fn cells_that_make_no_glyph_are_left_out() {
    let mut canvas = Canvas::new();
    canvas.draw_horizontal_line((0, 0), (2, 0), false);
    // The same line again: every cell now holds its fragments twice.
    canvas.draw_horizontal_line((0, 0), (2, 0), false);
    assert_eq!(canvas.len(), 3);
    assert_eq!(canvas.get_cells(), vec![]);
    assert_eq!(canvas.dump(), "");
}

#[test]
fn dump_has_spaces_where_no_glyph_is() {
    let mut canvas = Canvas::new();
    canvas.draw_horizontal_line((0, 0), (4, 0), false);
    canvas.draw_horizontal_line((2, 0), (2, 0), true);
    // The middle cell holds three fragments that make no glyph together.
    assert_eq!(canvas.len(), 5);
    assert_eq!(canvas.get_cells().len(), 4);
    assert_eq!(canvas.dump(), "╶─ ─╴");
}

#[test]
fn thick_rect_has_square_corners() {
    let mut canvas = Canvas::new();
    let border = Border {
        use_thick_border: true,
        is_top_left_rounded: true,
        is_bottom_right_rounded: true,
        ..Border::thin()
    };
    canvas.draw_rect((0, 0), (2, 2), border);
    assert_eq!(canvas.dump(), "┏━┓\n┃ ┃\n┗━┛");
}

#[test]
fn each_corner_is_rounded_by_itself() {
    let mut canvas = Canvas::new();
    let border = Border { is_top_left_rounded: true, is_bottom_right_rounded: true, ..Border::thin() };
    canvas.draw_rect((1, 1), (3, 2), border);
    assert_eq!(canvas.dump(), "\n ╭─┐\n └─╯");
    let mut canvas = Canvas::new();
    let border = Border { is_top_right_rounded: true, is_bottom_left_rounded: true, ..Border::thin() };
    canvas.draw_rect((0, 0), (1, 1), border);
    assert_eq!(canvas.dump(), "┌╮\n╰┘");
}

#[test]
fn rounded_corner_takes_the_place_of_what_was_there() {
    let mut canvas = Canvas::new();
    canvas.draw_horizontal_line((0, 0), (4, 0), true);
    canvas.draw_vertical_line((0, 0), (0, 3), true);
    canvas.draw_rect((0, 0), (4, 3), Border::rounded());
    assert_eq!(canvas.dump(), "╭   ╮\n    │\n    │\n╰───╯");
}

#[test]
fn line_over_a_rounded_corner_leaves_no_glyph() {
    let mut canvas = Canvas::new();
    canvas.draw_rect((0, 0), (2, 2), Border::rounded());
    assert_eq!(canvas.dump(), "╭─╮\n│ │\n╰─╯");
    canvas.draw_horizontal_line((0, 0), (0, 0), false);
    assert_eq!(canvas.dump(), " ─╮\n│ │\n╰─╯");
}

#[test]
fn rect_on_a_line_or_a_point() {
    let mut canvas = Canvas::new();
    canvas.draw_rect((0, 0), (2, 0), Border::rounded());
    // Both edges run through the same cells, and the corners replace each other.
    assert_eq!(canvas.get_cells(), vec![(0, 0, '╰'), (2, 0, '╯')]);
    let mut canvas = Canvas::new();
    canvas.draw_rect((5, 5), (5, 5), Border::rounded());
    assert_eq!(canvas.get_cells(), vec![(5, 5, '╯')]);
    assert_eq!(canvas.len(), 1);
}

#[test]
fn rect_from_any_corner() {
    let mut canvas = Canvas::new();
    canvas.draw_rect((0, 0), (3, 2), Border::thin());
    let expected = canvas.dump();
    for (start, end) in [((3, 2), (0, 0)), ((0, 2), (3, 0)), ((3, 0), (0, 2))] {
        let mut canvas = Canvas::new();
        canvas.draw_rect(start, end, Border::thin());
        assert_eq!(canvas.dump(), expected);
    }
    assert_eq!(expected, "┌──┐\n│  │\n└──┘");
}

#[test]
fn crossing_lines_make_junctions() {
    let mut canvas = Canvas::new();
    canvas.draw_rect((0, 0), (4, 4), Border::thin());
    canvas.draw_horizontal_line((0, 2), (4, 2), false);
    canvas.draw_vertical_line((2, 0), (2, 4), false);
    assert_eq!(canvas.dump(), "┌─┬─┐\n│ │ │\n├─┼─┤\n│ │ │\n└─┴─┘");
}

#[test]
fn far_cells_are_left_out_of_the_dump() {
    let mut canvas = Canvas::new();
    canvas.draw_horizontal_line((0, 0), (1, 0), false);
    canvas.draw_horizontal_line((usize::MAX, 1), (usize::MAX, 1), false);
    canvas.draw_horizontal_line((1, i32::MAX as usize + 1), (1, i32::MAX as usize + 1), false);
    assert_eq!(canvas.get_cells().len(), 4);
    assert_eq!(canvas.dump(), "╶╴");
}

#[test]
fn canvas_resolves_by_its_table() {
    let canvas = Canvas::new();
    let corner = vec![fragment::line(Cell::M, Cell::W), fragment::line(Cell::M, Cell::O)];
    assert_eq!(canvas.resolve(&corner), Some('┌'));
    assert_eq!(canvas.resolve(&vec![fragment::arc(Cell::M, Cell::M)]), None);
}

use ito_canvas::dot_canvas::Circle;
use ito_canvas::dot_canvas::Context;
use ito_canvas::dot_canvas::Dot;
use ito_canvas::dot_canvas::Grid;
use ito_canvas::dot_canvas::Line;
use ito_canvas::dot_canvas::Shape;

fn dot(x: i32, y: i32) -> Shape {
    Shape::Dot(Dot { x, y })
}

#[test]
fn blank_grid_is_spaces() {
    assert_eq!(Grid::new(2, 2).to_string(), "  \n  ");
    assert_eq!(Grid::new(1, 3).to_string(), " \n \n ");
    assert_eq!(Grid::new(3, 1).to_string(), "   ");
}

#[test]
fn grid_without_cells_is_empty() {
    assert_eq!(Grid::new(0, 0).to_string(), "");
    assert_eq!(Grid::new(0, 5).to_string(), "");
    assert_eq!(Grid::new(3, 0).to_string(), "");
    assert_eq!(Grid::new(usize::MAX, 0).to_string(), "");
}

#[test]
fn grid_knows_its_size() {
    let grid = Grid::new(7, 3);
    assert_eq!(grid.columns(), 7);
    assert_eq!(grid.rows(), 3);
}

#[test]
fn each_dot_has_its_bit() {
    let expected = [
        ((0, 0), '\u{2801}'),
        ((1, 0), '\u{2808}'),
        ((0, 1), '\u{2802}'),
        ((1, 1), '\u{2810}'),
        ((0, 2), '\u{2804}'),
        ((1, 2), '\u{2820}'),
        ((0, 3), '\u{2840}'),
        ((1, 3), '\u{2880}'),
    ];
    let mut all = Grid::new(1, 1);
    for ((x, y), glyph) in expected {
        let mut grid = Grid::new(1, 1);
        grid.plot(x, y);
        assert_eq!(grid.to_string(), glyph.to_string());
        all.plot(x, y);
    }
    assert_eq!(all.to_string(), "\u{28ff}");
}

#[test]
fn dots_find_their_cell() {
    let mut grid = Grid::new(3, 2);
    grid.plot(5, 7);
    assert_eq!(grid.to_string(), "   \n  \u{2880}");
    grid.plot(2, 0);
    assert_eq!(grid.to_string(), " \u{2801} \n  \u{2880}");
    grid.plot(3, 1);
    assert_eq!(grid.to_string(), " \u{2811} \n  \u{2880}");
}

#[test]
fn dots_outside_the_grid_are_left_out() {
    let mut grid = Grid::new(3, 2);
    grid.plot(6, 0);
    grid.plot(0, 8);
    grid.plot(usize::MAX, usize::MAX);
    assert_eq!(grid.to_string(), "   \n   ");
    let mut none = Grid::new(0, 0);
    none.plot(0, 0);
    assert_eq!(none.to_string(), "");
}

#[test]
fn raising_a_dot_twice_changes_nothing() {
    let mut grid = Grid::new(2, 1);
    grid.plot(1, 2);
    let once = grid.to_string();
    grid.plot(1, 2);
    assert_eq!(grid.to_string(), once);
    assert_eq!(once, "\u{2820} ");
}

#[test]
fn reset_makes_the_grid_blank() {
    let mut grid = Grid::new(2, 2);
    grid.plot(0, 0);
    grid.plot(3, 7);
    grid.reset();
    assert_eq!(grid.to_string(), "  \n  ");
    assert_eq!(grid.columns(), 2);
    assert_eq!(grid.rows(), 2);
}

#[test]
fn context_has_two_columns_for_a_unit() {
    assert_eq!(Context::new(1024, 1024).to_string(), "  ");
    assert_eq!(Context::new(512, 2048).to_string(), " \n ");
    assert_eq!(Context::new(3 * 1024, 2 * 1024).to_string(), "      \n      ");
}

#[test]
fn context_is_rounded_down_to_whole_cells() {
    assert_eq!(Context::new(511, 1024).to_string(), "");
    assert_eq!(Context::new(1500, 2047).to_string(), "  ");
    let mut context = Context::new(1500, 1024);
    // The window ends with the second column, at one unit.
    context.draw(&dot(1023, 0));
    assert_eq!(context.to_string(), " \u{2808}");
    context.draw(&dot(1024, 0));
    assert_eq!(context.to_string(), " \u{2808}");
}

#[test]
fn context_without_size_is_empty() {
    assert_eq!(Context::new(0, 0).to_string(), "");
    assert_eq!(Context::new(-5, 1024).to_string(), "");
    assert_eq!(Context::new(1024, -1).to_string(), "");
    assert_eq!(Context::new(i32::MIN, i32::MIN).to_string(), "");
    let mut context = Context::new(0, 1024);
    context.draw(&dot(0, 0));
    assert_eq!(context.to_string(), "");
}

#[test]
fn a_dot_is_a_quarter_of_a_unit() {
    let mut context = Context::new(1024, 1024);
    context.draw(&dot(0, 0));
    assert_eq!(context.to_string(), "\u{2801} ");
    context.draw(&dot(255, 255));
    assert_eq!(context.to_string(), "\u{2801} ");
    context.draw(&dot(256, 256));
    assert_eq!(context.to_string(), "\u{2811} ");
    context.draw(&dot(511, 1023));
    assert_eq!(context.to_string(), "\u{2891} ");
    context.draw(&dot(512, 768));
    assert_eq!(context.to_string(), "\u{2891}\u{2840}");
}

#[test]
fn points_outside_the_window_are_left_out() {
    let mut context = Context::new(1024, 1024);
    context.draw(&dot(-1, 0));
    context.draw(&dot(0, -1));
    context.draw(&dot(1024, 0));
    context.draw(&dot(0, 1024));
    context.draw(&dot(i32::MAX, i32::MAX));
    context.draw(&dot(i32::MIN, i32::MIN));
    assert_eq!(context.to_string(), "  ");
    context.draw(&dot(1023, 1023));
    assert_eq!(context.to_string(), " \u{2880}");
}

#[test]
fn drawing_twice_is_drawing_once() {
    let shapes = [
        Shape::Circle(Circle::new(5 * 1024, 5 * 1024, 4 * 1024)),
        Shape::Line(Line::new(0, 0, 10 * 1024, 7 * 1024)),
        dot(300, 300),
    ];
    for shape in shapes.iter() {
        let mut once = Context::new(10 * 1024, 10 * 1024);
        once.draw(shape);
        let mut twice = Context::new(10 * 1024, 10 * 1024);
        twice.draw(shape);
        twice.draw(shape);
        assert_eq!(once.to_string(), twice.to_string());
        assert!(once.to_string().chars().any(|c| c != ' ' && c != '\n'));
    }
}

#[test]
fn drawings_add_up_in_any_order() {
    let circle = Shape::Circle(Circle::new(5 * 1024, 5 * 1024, 4 * 1024));
    let line = Shape::Line(Line::new(0, 0, 10 * 1024, 7 * 1024));
    let mut first = Context::new(10 * 1024, 10 * 1024);
    first.draw(&circle);
    let alone = first.to_string();
    first.draw(&line);
    let mut second = Context::new(10 * 1024, 10 * 1024);
    second.draw(&line);
    second.draw(&circle);
    assert_eq!(first.to_string(), second.to_string());
    assert_ne!(first.to_string(), alone);
    // Nothing that the circle raised is lowered by the line.
    for (before, after) in alone.chars().zip(first.to_string().chars()) {
        if before != ' ' && before != '\n' {
            let (before, after) = (before as u32 - 0x2800, after as u32 - 0x2800);
            assert_eq!(before & after, before);
        }
    }
}

#[test]
fn horizontal_line_is_a_row_of_dashes() {
    let mut context = Context::new(10 * 1024, 10 * 1024);
    context.draw(&Shape::Line(Line::new(0, 512, 10 * 1024, 512)));
    let blank = " ".repeat(20);
    let mut expected = vec!["\u{2824}".repeat(20)];
    for _ in 1..10 {
        expected.push(blank.clone());
    }
    assert_eq!(context.to_string(), expected.join("\n"));
}

#[test]
fn small_circle() {
    let mut context = Context::new(2 * 1024, 2 * 1024);
    context.draw(&Shape::Circle(Circle::new(1024, 1024, 768)));
    assert_eq!(context.to_string(), " ⡠⠢⡀\n⠈⠢⡠⠊");
}

#[test]
fn context_reset_starts_again() {
    let mut context = Context::new(2 * 1024, 1024);
    context.draw(&Shape::Line(Line::new(0, 0, 2048, 1024)));
    assert_ne!(context.to_string(), "    ");
    context.reset();
    assert_eq!(context.to_string(), "    ");
    context.draw(&dot(0, 0));
    assert_eq!(context.to_string(), "\u{2801}   ");
}

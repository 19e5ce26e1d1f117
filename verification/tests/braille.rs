use ito_canvas::dot_canvas::arc::Arc;
use ito_canvas::dot_canvas::circle::Circle;
use ito_canvas::dot_canvas::grid::Context;
use ito_canvas::dot_canvas::line::Line;
use ito_canvas::dot_canvas::shape::Shape;

/// Units of length as ticks.
fn t(units: f32) -> i32 {
    (units * 1024.0) as i32
}

fn line(x1: f32, y1: f32, x2: f32, y2: f32) -> Shape {
    Shape::Line(Line { x1: t(x1), y1: t(y1), x2: t(x2), y2: t(y2) })
}

fn circle(x: f32, y: f32, radius: f32) -> Shape {
    Shape::Circle(Circle { x: t(x), y: t(y), radius: t(radius) })
}

fn arc(x1: f32, y1: f32, x2: f32, y2: f32, radius: f32, sweep_flag: bool) -> Arc {
    Arc::new(t(x1), t(y1), t(x2), t(y2), t(radius), sweep_flag).unwrap()
}

#[test]
fn circle_draw_circle4() {
    let width = 10.0;
    let height = 10.0;
    let mut context = Context::new(t(width), t(height));

    context.draw(&circle(5.0, 5.0, 4.0));
    let result = context.to_string();
    println!("{}", result);

    let expected = [
        "                    ",
        "      ⣀⠤⠒⠒⠑⠒⠢⢄⡀     ",
        "    ⡠⠊        ⠈⠢⡀   ",
        "   ⡜            ⠘⡄  ",
        "  ⢸              ⢸  ",
        "  ⢱              ⢰⠁ ",
        "  ⠈⢆            ⢀⠎  ",
        "   ⠈⠢⡀         ⡠⠊   ",
        "     ⠈⠒⠤⣀⣀⢀⣀⡠⠔⠊     ",
        "          ⠁         ",
    ];
    assert_eq!(result, expected.join("\n"));
}

#[test]
fn circle_draw_dynamic() {
    let radius = 10.0;
    let mut context = Context::new(t(radius * 2.0), t(radius * 2.0));

    context.draw(&circle(radius, radius, radius));
    let result = context.to_string();
    println!("{}", result);

    let expected = [
        "             ⣀⡠⠤⠔⠒⠒⠒⠑⠒⠒⠒⠤⠤⣀⡀            ",
        "         ⢀⠤⠒⠉              ⠈⠑⠢⢄         ",
        "       ⡠⠊⠁                     ⠉⠢⡀      ",
        "     ⡠⠊                          ⠈⠢⡀    ",
        "   ⢀⠎                              ⠈⢆   ",
        "  ⢠⠃                                 ⢣  ",
        " ⢠⠃                                   ⢣ ",
        " ⡎                                    ⠈⡆",
        "⢰⠁                                     ⢱",
        "⢸                                      ⢸",
        "⢱                                      ⢰",
        "⢸                                      ⢸",
        " ⡇                                     ⡇",
        " ⠸⡀                                   ⡸ ",
        "  ⠱⡀                                 ⡰⠁ ",
        "   ⠑⡄                               ⡔⠁  ",
        "    ⠈⠢⡀                           ⡠⠊    ",
        "      ⠈⠢⡀                       ⡠⠊      ",
        "        ⠈⠑⠤⣀                ⢀⡠⠔⠉        ",
        "            ⠉⠒⠢⠤⢄⣀⣀⣀⢀⣀⣀⣀⠤⠤⠒⠊⠁           ",
    ];
    assert_eq!(result, expected.join("\n"));
}

#[test]
fn draw_cell_horizontal_line() {
    let mut context = Context::new(t(0.5), t(1.0));

    context.draw(&line(0.0, 0.5, 1.0, 0.5));
    let result = context.to_string();
    assert_eq!(result, "⠤");
}

#[test]
fn draw_cell_vertical_line() {
    let mut context = Context::new(t(0.5), t(1.0));

    context.draw(&line(0.125, 0.0, 0.125, 1.0));
    let result = context.to_string();
    assert_eq!(result, "⡇");
}

#[test]
fn draw_cell_slant_line1() {
    let mut context = Context::new(t(0.5), t(1.0));

    context.draw(&line(0.0, 0.0, 0.5, 1.0));
    let result = context.to_string();
    assert_eq!(result, "⢣");
}

#[test]
fn draw_cell_slant_line2() {
    let mut context = Context::new(t(0.5), t(1.0));

    context.draw(&line(0.0, 1.0, 0.5, 0.0));
    let result = context.to_string();
    assert_eq!(result, "⡰");
}

#[test]
fn draw_cell_slant_line3() {
    let mut context = Context::new(t(0.5), t(1.0));

    context.draw(&line(0.0, 0.75, 0.5, 0.375));
    let result = context.to_string();
    assert_eq!(result, "⡠");
}

#[test]
fn grid_draw_horizontal_lines() {
    let width = 10;
    let height = 1;
    let mut context = Context::new(t(width as f32), t(height as f32));

    context.draw(&line(0.0, 0.5, width as f32, 0.5));
    let result = context.to_string();
    assert_eq!(result, "⠤⠤⠤⠤⠤⠤⠤⠤⠤⠤⠤⠤⠤⠤⠤⠤⠤⠤⠤⠤");
}

#[test]
fn grid_draw_vertical_lines() {
    let width = 1.0;
    let height = 10.0;
    let mut context = Context::new(t(width), t(height));

    context.draw(&line(0.5, 0.0, 0.5, height));
    let result = context.to_string();
    let expected = [" ⡇", " ⡇", " ⡇", " ⡇", " ⡇", " ⡇", " ⡇", " ⡇", " ⡇", " ⡇"];
    assert_eq!(result, expected.join("\n"));
}

#[test]
fn grid_draw_slash_lines() {
    let width = 10.0;
    let height = 10.0;

    let mut context = Context::new(t(width), t(height));
    context.draw(&line(0.0, 0.0, width, height));
    let result = context.to_string();

    let expected = [
        "⠑⢄                  ",
        "  ⠑⢄                ",
        "    ⠑⢄              ",
        "      ⠑⢄            ",
        "        ⠑⢄          ",
        "          ⠑⢄        ",
        "            ⠑⢄      ",
        "              ⠑⢄    ",
        "                ⠑⢄  ",
        "                  ⠑⢄",
    ];

    assert_eq!(result, expected.join("\n"));
}

#[test]
fn grid_draw_slash_lines2() {
    let width = 10.0;
    let height = 10.0;
    let mut context = Context::new(t(width), t(height));

    context.draw(&line(width, height, 0.0, 0.0));
    let result = context.to_string();
    println!("{}", result);
    let expected = [
        "⠐⢄                  ",
        "  ⠑⢄                ",
        "    ⠑⢄              ",
        "      ⠑⢄            ",
        "        ⠑⢄          ",
        "          ⠑⢄        ",
        "            ⠑⢄      ",
        "              ⠑⢄    ",
        "                ⠑⢄  ",
        "                  ⠑⢄",
    ];
    assert_eq!(result, expected.join("\n"));
}

#[test]
fn draw_slant_lines1() {
    let width = 10.0;
    let height = 10.0;
    let mut context = Context::new(t(width), t(height));

    context.draw(&line(0.0, height, width, 0.0));
    let result = context.to_string();
    println!("{}", result);

    let expected = [
        "                  ⢀⠔",
        "                ⢀⠔⠁ ",
        "              ⢀⠔⠁   ",
        "            ⢀⠔⠁     ",
        "          ⢀⠔⠁       ",
        "        ⢀⠔⠁         ",
        "      ⢀⠔⠁           ",
        "    ⢀⠔⠁             ",
        "  ⢀⠔⠁               ",
        "⢀⠔⠁                 ",
    ];

    assert_eq!(result, expected.join("\n"));
}

#[test]
fn draw_slant_lines() {
    let width = 10.0;
    let height = 10.0;
    let mut context = Context::new(t(width), t(height));

    context.draw(&line(0.0, height, width, 0.0));
    let result = context.to_string();
    println!("{}", result);

    // Twenty columns for a width of ten: a cell is half a unit wide.
    let expected = [
        "                  ⢀⠔",
        "                ⢀⠔⠁ ",
        "              ⢀⠔⠁   ",
        "            ⢀⠔⠁     ",
        "          ⢀⠔⠁       ",
        "        ⢀⠔⠁         ",
        "      ⢀⠔⠁           ",
        "    ⢀⠔⠁             ",
        "  ⢀⠔⠁               ",
        "⢀⠔⠁                 ",
    ];
    assert_eq!(result, expected.join("\n"));
}

#[test]
fn grid_draw_slant_lines2() {
    let width = 10.0;
    let height = 10.0;
    let mut context = Context::new(t(width), t(height));

    context.draw(&line(width - 0.5, 0.0, 0.0, height));
    let result = context.to_string();
    println!("{}", result);

    let expected = [
        "                 ⢀⠔⠁",
        "               ⢀⠔⠁  ",
        "             ⢀⠔⠁    ",
        "           ⢀⠔⠁      ",
        "         ⢀⠔⠁        ",
        "        ⡠⠊          ",
        "      ⡠⠊            ",
        "    ⡠⠊              ",
        "  ⡠⠊                ",
        "⡠⠊                  ",
    ];

    assert_eq!(result, expected.join("\n"));
}

#[test]
fn arc_center() {
    let arc = arc(0.0, 0.0, 10.0, 10.0, 10.0, false);

    let center = arc.center();
    assert_eq!(center, Some((10240, 0)));
}

#[test]
fn arc_center2() {
    let arc = arc(0.0, 0.0, 10.0, 10.0, 10.0, true);

    let center = arc.center();
    assert_eq!(center, Some((0, 10240)));
}

#[test]
fn draw_arc() {
    let width = 11.0;
    let height = 11.0;
    let mut context = Context::new(t(width), t(height));
    let arc = arc(0.0, 0.0, 10.0, 10.0, 10.0, false);

    context.draw(&Shape::Arc(arc));

    let result = context.to_string();
    println!("{}", result);
    let expected = [
        "⢱                     ",
        "⢸                     ",
        " ⡇                    ",
        " ⠸⡀                   ",
        "  ⠱⡀                  ",
        "   ⠑⡄                 ",
        "    ⠈⠢⡀               ",
        "      ⠈⠢⡀             ",
        "        ⠈⠑⠤⣀          ",
        "            ⠉⠒⠢⠤⢄⣀⣀⣀  ",
        "                    ⠁ ",
    ];
    let expected = expected.join("\n");
    assert_eq!(result, expected);
}

#[test]
fn draw_arc2() {
    let width = 22.0;
    let height = 22.0;
    let mut context = Context::new(t(width), t(height));
    let arc = arc(10.0, 0.0, 10.0, 20.0, 10.0, false);

    context.draw(&Shape::Arc(arc));

    let result = context.to_string();
    println!("{}", result);
    let expected = [
        "             ⣀⡠⠤⠔⠒⠒⠒⠁                       ",
        "         ⢀⠤⠒⠉                               ",
        "       ⡠⠊⠁                                  ",
        "     ⡠⠊                                     ",
        "   ⢀⠎                                       ",
        "  ⢠⠃                                        ",
        " ⢠⠃                                         ",
        " ⡎                                          ",
        "⢰⠁                                          ",
        "⢸                                           ",
        "⢱                                           ",
        "⢸                                           ",
        " ⡇                                          ",
        " ⠸⡀                                         ",
        "  ⠱⡀                                        ",
        "   ⠑⡄                                       ",
        "    ⠈⠢⡀                                     ",
        "      ⠈⠢⡀                                   ",
        "        ⠈⠑⠤⣀                                ",
        "            ⠉⠒⠢⠤⢄⣀⣀⣀                        ",
        "                    ⠁                       ",
        "                                            ",
    ];
    let expected = expected.join("\n");
    assert_eq!(result, expected);
}

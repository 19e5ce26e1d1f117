use ito_canvas::dot_canvas::arc::line_octant;
use ito_canvas::dot_canvas::arc::ArcError;
use ito_canvas::dot_canvas::root::isqrt;
use ito_canvas::dot_canvas::shape::PointCursor;
use ito_canvas::dot_canvas::Arc;
use ito_canvas::dot_canvas::Circle;
use ito_canvas::dot_canvas::Dot;
use ito_canvas::dot_canvas::Line;
use ito_canvas::dot_canvas::Shape;

#[test]
fn dot_is_its_only_point() {
    assert_eq!(Dot { x: -3, y: 9 }.points(), vec![(-3, 9)]);
    assert_eq!(Shape::Dot(Dot { x: 4, y: 5 }).points(), vec![(4, 5)]);
}

#[test]
fn line_of_no_length_has_one_point() {
    let line = Line::new(700, -300, 700, -300);
    assert_eq!(line.points(), vec![(700, -300)]);
    let mut iter = line.into_iter();
    assert_eq!(iter.next(), Some((700, -300)));
    assert_eq!(iter.next(), None);
    assert_eq!(iter.next(), None);
}

#[test]
fn line_starts_at_start_and_stops_before_end() {
    let points = Line::new(0, 0, 1024, 512).points();
    assert_eq!(points, vec![(0, 0), (256, 128), (512, 256), (768, 384)]);
}

#[test]
fn line_shorter_than_a_step_has_its_start_only() {
    assert_eq!(Line::new(10, 10, 200, 10).points(), vec![(10, 10)]);
    assert_eq!(Line::new(0, 0, 256, 0).points(), vec![(0, 0)]);
    assert_eq!(Line::new(0, 0, 257, 0).points(), vec![(0, 0), (256, 0)]);
}

#[test]
fn line_positions_are_rounded_down() {
    // The short axis moves by 3 ticks over 1000: 0.768, 1.536 and 2.304
    // ticks after one, two and three steps.
    assert_eq!(Line::new(1000, 0, 0, 3).points(), vec![(1000, 0), (744, 0), (488, 1), (232, 2)]);
    // Downwards the same distances are taken off, and 3 - 0.768 rounds down to 2.
    assert_eq!(Line::new(0, 3, 1000, 0).points(), vec![(0, 3), (256, 2), (512, 1), (768, 0)]);
}

#[test]
fn line_over_the_whole_range() {
    let line = Line::new(i32::MIN, i32::MAX, i32::MIN + 600, i32::MIN);
    let mut iter = line.into_iter();
    assert_eq!(iter.next(), Some((i32::MIN as i64, i32::MAX as i64)));
    // 256 ticks on: x has moved by 256 * 600 / (2^32 - 1), which is less than one tick.
    assert_eq!(iter.next(), Some((i32::MIN as i64, i32::MAX as i64 - 256)));
}

#[test]
fn line_iterator_and_points_agree() {
    let line = Line::new(-2000, 300, 1500, -4000);
    let points = line.points();
    let mut iter = line.into_iter();
    for p in points.iter() {
        assert_eq!(iter.next(), Some(*p));
    }
    assert_eq!(iter.next(), None);
    assert_eq!(points.len(), 17);
    assert_eq!(points[0], (-2000, 300));
}

#[test]
fn circle_of_one_step() {
    let points = Circle::new(0, 0, 256).points();
    assert_eq!(
        points,
        vec![(256, 0), (0, 256), (0, 256), (-256, 0), (-256, 0), (0, -256), (0, -256), (256, 0)]
    );
}

#[test]
fn circle_of_two_steps() {
    let points = Circle { x: 100, y: 200, radius: 512 }.points();
    assert_eq!(
        points,
        vec![
            (612, 200),
            (100, 712),
            (100, 712),
            (-412, 200),
            (-412, 200),
            (100, -312),
            (100, -312),
            (612, 200),
            (356, 456),
            (356, 456),
            (-156, 456),
            (-156, 456),
            (-156, -56),
            (-156, -56),
            (356, -56),
            (356, -56),
        ]
    );
}

#[test]
fn circle_without_radius() {
    assert_eq!(Circle::new(5, 6, 0).points(), vec![(5, 6); 8]);
    assert_eq!(Circle::new(5, 6, -1).points(), vec![]);
    assert_eq!(Circle::new(5, 6, i32::MIN).points(), vec![]);
}

#[test]
fn circle_is_symmetric() {
    let (cx, cy) = (-700i64, 1300i64);
    let points = Circle::new(cx as i32, cy as i32, 5000).points();
    assert!(points.len() >= 8);
    for &(x, y) in points.iter() {
        let (a, b) = (x - cx, y - cy);
        for image in [
            (a, b),
            (b, a),
            (-b, a),
            (-a, b),
            (-a, -b),
            (-b, -a),
            (b, -a),
            (a, -b),
        ] {
            assert!(points.contains(&(cx + image.0, cy + image.1)));
        }
    }
}

#[test]
fn circle_points_lie_near_the_circle() {
    let radius = 40 * 1024i64;
    let points = Circle::new(0, 0, radius as i32).points();
    for &(x, y) in points.iter() {
        let distance = ((x * x + y * y) as f64).sqrt();
        assert!((distance - radius as f64).abs() <= 384.0);
    }
}

#[test]
fn circle_iterator_hands_out_the_points() {
    let circle = Circle::new(0, 0, 1024);
    let points = circle.points();
    let mut iter = circle.into_iter();
    for p in points.iter() {
        assert_eq!(iter.next(), Some(*p));
    }
    assert_eq!(iter.next(), None);
}

#[test]
fn cursor_can_start_again() {
    let mut cursor = PointCursor::new(vec![(1, 2), (3, 4)]);
    assert_eq!(cursor.next(), Some((1, 2)));
    cursor.restart();
    assert_eq!(cursor.next(), Some((1, 2)));
    assert_eq!(cursor.next(), Some((3, 4)));
    assert_eq!(cursor.next(), None);
    assert_eq!(cursor.next(), None);
    cursor.restart();
    assert_eq!(cursor.next(), Some((1, 2)));
}

#[test]
fn arc_needs_a_radius_of_half_the_chord() {
    // The chord is 2000 ticks long.
    assert_eq!(Arc::new(0, 0, 2000, 0, 999, false).err(), Some(ArcError::RadiusTooSmall));
    assert!(Arc::new(0, 0, 2000, 0, 1000, false).is_ok());
    assert!(Arc::new(0, 0, 2000, 0, 1001, true).is_ok());
    assert_eq!(Arc::new(0, 0, 1200, 1600, 999, true).err(), Some(ArcError::RadiusTooSmall));
    assert!(Arc::new(0, 0, 1200, 1600, 1000, true).is_ok());
}

#[test]
fn arc_needs_a_radius_that_is_not_negative() {
    assert_eq!(Arc::new(0, 0, 0, 0, -1, false).err(), Some(ArcError::RadiusTooSmall));
    assert_eq!(Arc::new(0, 0, 10, 0, -5000, false).err(), Some(ArcError::RadiusTooSmall));
    assert_eq!(
        Arc::new(i32::MIN, i32::MIN, i32::MAX, i32::MAX, i32::MAX, false).err(),
        Some(ArcError::RadiusTooSmall)
    );
}

#[test]
fn arc_keeps_what_it_was_made_of() {
    let arc = Arc::new(1, 2, 3, 4, 5, true).unwrap();
    assert_eq!((arc.x1(), arc.y1(), arc.x2(), arc.y2()), (1, 2, 3, 4));
    assert_eq!(arc.radius(), 5);
    assert!(arc.sweep_flag());
}

#[test]
fn arc_between_the_same_point_has_no_center_and_no_points() {
    let arc = Arc::new(300, 400, 300, 400, 1000, false).unwrap();
    assert_eq!(arc.center(), None);
    assert_eq!(arc.octant(), None);
    assert_eq!(arc.points(), vec![]);
    assert_eq!(Shape::Arc(arc).points(), vec![]);
}

#[test]
fn arc_center_is_rounded_down() {
    // Exact centres: (1112.7..., 1661.8...) and (1887.2..., -661.8...).
    assert_eq!(Arc::new(0, 0, 3000, 1000, 2000, true).unwrap().center(), Some((1112, 1661)));
    assert_eq!(Arc::new(0, 0, 3000, 1000, 2000, false).unwrap().center(), Some((1887, -662)));
    // Exact centres: (4300, 2100) and (-4500, -2300).
    assert_eq!(Arc::new(-500, 700, 300, -900, 5000, true).unwrap().center(), Some((4300, 2100)));
    assert_eq!(
        Arc::new(-500, 700, 300, -900, 5000, false).unwrap().center(),
        Some((-4500, -2300))
    );
}

#[test]
fn arc_center_of_a_half_circle_is_the_midpoint() {
    assert_eq!(Arc::new(0, 0, 2000, 0, 1000, false).unwrap().center(), Some((1000, 0)));
    assert_eq!(Arc::new(0, 0, 2000, 0, 1000, true).unwrap().center(), Some((1000, 0)));
    assert_eq!(Arc::new(0, 0, 1, 0, 1, true).unwrap().center(), Some((0, 0)));
}

#[test]
fn arc_center_at_the_ends_of_the_range() {
    // The chord is 2^32 - 1 ticks long; a radius of 2^31 - 1 is half a tick short.
    assert_eq!(
        Arc::new(i32::MIN, 0, i32::MAX, 0, i32::MAX, true).err(),
        Some(ArcError::RadiusTooSmall)
    );
    let arc = Arc::new(i32::MIN + 1, 0, i32::MAX, 0, i32::MAX, false).unwrap();
    assert_eq!(arc.center(), Some((0, 0)));
    let arc = Arc::new(0, i32::MAX, 0, i32::MIN + 1, i32::MAX, true).unwrap();
    assert_eq!(arc.center(), Some((0, 0)));
}

#[test]
fn octants_go_round_from_the_right() {
    // Upwards on the screen is towards smaller y, and heights count twice.
    let expected = [
        ((10, 0), 0),
        ((10, -1), 0),
        ((10, -5), 0),
        ((10, -6), 1),
        ((0, -5), 1),
        ((-1, -5), 2),
        ((-10, -5), 2),
        ((-10, -4), 3),
        ((-10, 0), 3),
        ((-10, 1), 4),
        ((-10, 5), 4),
        ((-10, 6), 5),
        ((0, 5), 5),
        ((1, 5), 6),
        ((10, 5), 6),
        ((10, 4), 7),
        ((0, 0), 0),
    ];
    for ((x, y), octant) in expected {
        assert_eq!(line_octant(0, 0, x, y), octant, "towards ({}, {})", x, y);
        assert_eq!(line_octant(-7, 9, x - 7, y + 9), octant);
    }
    assert_eq!(line_octant(i64::MIN, i64::MIN, i64::MAX, i64::MAX), 6);
    assert_eq!(line_octant(i64::MAX, i64::MAX, i64::MIN, i64::MIN), 2);
}

#[test]
fn arc_octants() {
    let arc = Arc::new(0, 0, 10240, 10240, 10240, false).unwrap();
    // Seen from (10240, 0), the start lies to the left and the end below.
    assert_eq!(arc.octant(), Some((4, 5)));
    let arc = Arc::new(10240, 0, 10240, 20480, 10240, false).unwrap();
    assert_eq!(arc.center(), Some((10240, 10240)));
    assert_eq!(arc.octant(), Some((2, 5)));
}

#[test]
fn arc_points_are_those_of_its_octants() {
    let arc = Arc::new(0, 0, 10240, 10240, 10240, false).unwrap();
    let (cx, cy) = arc.center().unwrap();
    let circle = Circle::new(cx as i32, cy as i32, 10240).points();
    let points = arc.points();
    assert_eq!(points.len() * 4, circle.len());
    for p in points.iter() {
        assert!(circle.contains(p));
        // Octants 4 and 5 lie left of and below the centre.
        assert!(p.0 <= cx && p.1 >= cy);
    }
    // The first step finds the end in octant 5 and then the start in octant 4.
    assert_eq!(points[0], (10240, 10240));
    assert_eq!(points[1], (0, 0));
}

#[test]
fn arc_with_the_first_octant_behind_the_last_has_no_points() {
    let arc = Arc::new(10240, 10240, 0, 0, 10240, true).unwrap();
    assert_eq!(arc.center(), Some((10240, 0)));
    assert_eq!(arc.octant(), Some((6, 3)));
    assert_eq!(arc.points(), vec![]);
}

#[test]
fn square_roots() {
    assert_eq!(isqrt(0), 0);
    assert_eq!(isqrt(1), 1);
    assert_eq!(isqrt(3), 1);
    assert_eq!(isqrt(4), 2);
    assert_eq!(isqrt(99), 9);
    assert_eq!(isqrt(100), 10);
    assert_eq!(isqrt(u64::MAX), 0xffff_ffff);
    assert_eq!(isqrt(0xffff_fffe_0000_0001), 0xffff_ffff);
    assert_eq!(isqrt(0xffff_fffe_0000_0000), 0xffff_fffe);
}

/// Numbers that look random, the same at every run.
fn numbers(seed: u64, count: usize, span: i64) -> Vec<i32> {
    let mut state = seed;
    let mut out = vec![];
    for _ in 0..count {
        state = state.wrapping_mul(6364136223846793005).wrapping_add(1442695040888963407);
        out.push((((state >> 33) as i64) % (2 * span + 1) - span) as i32);
    }
    out
}

#[test]
fn arc_center_is_as_far_from_both_ends_as_the_radius() {
    let values = numbers(7, 4000, 50_000);
    let mut made = 0;
    for chunk in values.chunks(5) {
        let (x1, y1, x2, y2) = (chunk[0], chunk[1], chunk[2], chunk[3]);
        let radius = chunk[4].abs() + 40_000;
        for sweep_flag in [false, true] {
            if let Ok(arc) = Arc::new(x1, y1, x2, y2, radius, sweep_flag) {
                if let Some((cx, cy)) = arc.center() {
                    made += 1;
                    let r = radius as i64;
                    for (x, y) in [(x1 as i64, y1 as i64), (x2 as i64, y2 as i64)] {
                        let d2 = (cx - x) * (cx - x) + (cy - y) * (cy - y);
                        assert!((d2 - r * r).abs() <= 8 * r);
                    }
                }
            }
        }
    }
    assert!(made > 500);
}

#[test]
fn arc_points_are_points_of_its_circle_and_lie_near_it() {
    let values = numbers(11, 200, 20_000);
    let mut seen = 0;
    for chunk in values.chunks(5) {
        let (x1, y1, x2, y2) = (chunk[0], chunk[1], chunk[2], chunk[3]);
        let radius = chunk[4].abs() + 30_000;
        for sweep_flag in [false, true] {
            let arc = Arc::new(x1, y1, x2, y2, radius, sweep_flag).unwrap();
            let (cx, cy) = arc.center().unwrap();
            let circle = Circle::new(cx as i32, cy as i32, radius).points();
            let r = radius as i64;
            for &(x, y) in arc.points().iter() {
                seen += 1;
                assert!(circle.contains(&(x, y)));
                let d2 = (x - cx) * (x - cx) + (y - cy) * (y - cy);
                assert!((d2 - r * r).abs() <= 4 * 256 * (r + 256));
            }
        }
    }
    assert!(seen > 1000);
}

#[test]
fn circle_points_follow_one_another() {
    let points = Circle::new(0, 0, 20 * 1024).points();
    // Every eighth point is that of the same octant, one step on.
    for pair in points.chunks(8).collect::<Vec<_>>().windows(2) {
        for k in 0..8 {
            let (a, b) = (pair[0][k], pair[1][k]);
            assert!((a.0 - b.0).abs() <= 256 && (a.1 - b.1).abs() <= 256);
            assert!(a != b);
        }
    }
    // The octants meet: the last offset lies within two steps of the diagonal.
    let last = points[points.len() - 8];
    assert!((last.0 - last.1).abs() < 2 * 256);
}

use ito_canvas::unicode_canvas::fragment;
use ito_canvas::unicode_canvas::fragment::Cell;
use ito_canvas::unicode_canvas::fragment::Fragment;
use ito_canvas::unicode_canvas::order::sort;
use ito_canvas::unicode_canvas::unicode_map::FragmentTable;

const CELLS: [Cell; 5] = [Cell::C, Cell::K, Cell::M, Cell::O, Cell::W];

fn all_fragments() -> Vec<Fragment> {
    let mut all = vec![];
    for start in CELLS {
        for end in CELLS {
            all.push(fragment::line(start, end));
            all.push(fragment::thick(start, end));
            all.push(fragment::arc(start, end));
        }
    }
    all
}

#[test]
fn cells_are_ordered_from_top_to_bottom() {
    for (i, cell) in CELLS.iter().enumerate() {
        assert_eq!(cell.index() as usize, i);
    }
    assert!(Cell::C < Cell::K && Cell::K < Cell::M && Cell::M < Cell::O && Cell::O < Cell::W);
}

#[test]
fn fragments_are_made_as_asked() {
    match fragment::line(Cell::K, Cell::M) {
        Fragment::Line(l) => assert_eq!((l.start, l.end, l.is_thick), (Cell::K, Cell::M, false)),
        Fragment::Arc(_) => panic!("a line is no arc"),
    }
    match fragment::thick(Cell::M, Cell::W) {
        Fragment::Line(l) => assert_eq!((l.start, l.end, l.is_thick), (Cell::M, Cell::W, true)),
        Fragment::Arc(_) => panic!("a line is no arc"),
    }
    match fragment::arc(Cell::O, Cell::W) {
        Fragment::Arc(a) => assert_eq!((a.start, a.end), (Cell::O, Cell::W)),
        Fragment::Line(_) => panic!("an arc is no line"),
    }
}

#[test]
fn keys_order_fragments_by_kind_points_and_thickness() {
    let all = all_fragments();
    assert_eq!(all.len(), 75);
    for a in all.iter() {
        for b in all.iter() {
            assert_eq!(a.key().cmp(&b.key()), a.cmp(b));
            assert_eq!(a.key() == b.key(), a == b);
        }
        assert!(a.key() < 75);
    }
    assert_eq!(fragment::line(Cell::C, Cell::C).key(), 0);
    assert_eq!(fragment::thick(Cell::C, Cell::C).key(), 1);
    assert_eq!(fragment::line(Cell::K, Cell::M).key(), 14);
    assert_eq!(fragment::thick(Cell::W, Cell::W).key(), 49);
    assert_eq!(fragment::arc(Cell::C, Cell::C).key(), 50);
    assert_eq!(fragment::arc(Cell::W, Cell::O).key(), 73);
}

#[test]
fn sorting_is_by_key() {
    let mut all = all_fragments();
    all.extend(all_fragments());
    all.reverse();
    let sorted = sort(&all);
    let mut expected = all.clone();
    expected.sort();
    assert_eq!(sorted, expected);
    assert_eq!(sort(&Vec::<Fragment>::new()), vec![]);
}

#[test]
fn same_line_in_either_direction() {
    let km = fragment::line(Cell::K, Cell::M);
    let mk = fragment::line(Cell::M, Cell::K);
    let thick_mk = fragment::thick(Cell::M, Cell::K);
    let ko = fragment::line(Cell::K, Cell::O);
    assert!(km.same_line(&km));
    assert!(km.same_line(&mk));
    assert!(km.same_line(&thick_mk));
    assert!(!km.same_line(&ko));
    assert!(!ko.same_line(&mk));
}

#[test]
fn an_arc_is_the_same_line_as_nothing() {
    let arc = fragment::arc(Cell::K, Cell::M);
    let line = fragment::line(Cell::K, Cell::M);
    assert!(!arc.same_line(&arc));
    assert!(!arc.same_line(&line));
    assert!(!line.same_line(&arc));
}

#[test]
fn table_gives_the_glyphs() {
    let (c, k, m, o, w) = (Cell::C, Cell::K, Cell::M, Cell::O, Cell::W);
    let line = fragment::line;
    let thick = fragment::thick;
    let arc = fragment::arc;
    let table = FragmentTable::new();
    let expected = [
        ('╴', vec![line(k, m)]),
        ('╷', vec![line(m, w)]),
        ('─', vec![line(k, m), line(m, o)]),
        ('│', vec![line(c, m), line(m, w)]),
        ('┌', vec![line(m, o), line(m, w)]),
        ('┘', vec![line(c, m), line(k, m)]),
        ('┴', vec![line(k, m), line(m, o), line(c, m)]),
        ('┼', vec![line(k, m), line(m, o), line(c, m), line(m, w)]),
        ('╭', vec![arc(o, w)]),
        ('╮', vec![arc(w, k)]),
        ('╰', vec![arc(c, o)]),
        ('╯', vec![arc(k, c)]),
        ('╸', vec![thick(k, m)]),
        ('━', vec![thick(k, m), thick(m, o)]),
        ('┃', vec![thick(c, m), thick(m, w)]),
        ('┏', vec![thick(m, o), thick(m, w)]),
        ('╋', vec![thick(c, m), thick(m, w), thick(k, m), thick(m, o)]),
        ('┍', vec![thick(m, o), line(m, w)]),
        ('┚', vec![thick(c, m), line(k, m)]),
        ('┝', vec![thick(m, o), line(c, m), line(m, w)]),
        ('┥', vec![thick(k, m), line(c, m), line(m, w)]),
        ('┯', vec![thick(k, m), thick(m, o), line(m, w)]),
        ('┿', vec![thick(k, m), thick(m, o), line(c, m), line(m, w)]),
        ('╂', vec![thick(c, m), thick(m, w), line(k, m), line(m, o)]),
        ('╊', vec![thick(c, m), thick(m, w), thick(m, o), line(k, m)]),
        ('╼', vec![thick(m, o), line(k, m)]),
        ('╿', vec![thick(c, m), line(m, w)]),
    ];
    for (glyph, fragments) in expected {
        assert_eq!(table.resolve(&fragments), Some(glyph));
    }
}

#[test]
fn fragments_in_any_order_make_the_same_glyph() {
    let (c, k, m, o, w) = (Cell::C, Cell::K, Cell::M, Cell::O, Cell::W);
    let cross = [
        fragment::thick(k, m),
        fragment::thick(m, o),
        fragment::line(c, m),
        fragment::line(m, w),
    ];
    let table = FragmentTable::new();
    let mut count = 0;
    for i in 0..4 {
        for j in 0..4 {
            for l in 0..4 {
                for n in 0..4 {
                    let mut seen = [false; 4];
                    for index in [i, j, l, n] {
                        seen[index] = true;
                    }
                    if seen == [true; 4] {
                        let order = vec![cross[i], cross[j], cross[l], cross[n]];
                        assert_eq!(table.resolve(&order), Some('┿'));
                        count += 1;
                    }
                }
            }
        }
    }
    assert_eq!(count, 24);
}

#[test]
fn only_the_exact_fragments_make_a_glyph() {
    let (c, k, m, o) = (Cell::C, Cell::K, Cell::M, Cell::O);
    let table = FragmentTable::new();
    assert_eq!(table.resolve(&vec![]), None);
    // The same fragment twice is not the fragment once.
    assert_eq!(table.resolve(&vec![fragment::line(k, m), fragment::line(k, m)]), None);
    // A line the other way round is another fragment.
    assert_eq!(table.resolve(&vec![fragment::line(m, k)]), None);
    assert_eq!(table.resolve(&vec![fragment::line(k, o)]), None);
    // An arc and a line together make nothing.
    assert_eq!(table.resolve(&vec![fragment::arc(c, o), fragment::line(m, o)]), None);
    assert_eq!(table.resolve(&vec![fragment::arc(o, c)]), None);
}

#[test]
fn no_two_glyphs_share_their_fragments() {
    let table = FragmentTable::new();
    let parts = [
        fragment::line(Cell::K, Cell::M),
        fragment::line(Cell::C, Cell::M),
        fragment::line(Cell::M, Cell::O),
        fragment::line(Cell::M, Cell::W),
        fragment::thick(Cell::K, Cell::M),
        fragment::thick(Cell::C, Cell::M),
        fragment::thick(Cell::M, Cell::O),
        fragment::thick(Cell::M, Cell::W),
        fragment::arc(Cell::O, Cell::W),
        fragment::arc(Cell::W, Cell::K),
        fragment::arc(Cell::C, Cell::O),
        fragment::arc(Cell::K, Cell::C),
    ];
    // Every choice of these fragments, each at most once.
    let mut glyphs = vec![];
    for chosen in 0u32..(1 << parts.len()) {
        let mut fragments = vec![];
        for (i, part) in parts.iter().enumerate() {
            if chosen & (1 << i) != 0 {
                fragments.push(*part);
            }
        }
        if let Some(glyph) = table.resolve(&fragments) {
            glyphs.push(glyph);
        }
    }
    assert_eq!(glyphs.len(), 84);
    let mut distinct = glyphs.clone();
    distinct.sort();
    distinct.dedup();
    assert_eq!(distinct.len(), 84);
    for glyph in glyphs {
        assert!(('\u{2500}'..='\u{257f}').contains(&glyph));
    }
}

/// The arms of every glyph of straight lines, as its name in the Unicode
/// charts gives them: up, right, down, left; 0 for none, 1 for a light arm,
/// 2 for a heavy one.
const ARMS: [(char, u8, u8, u8, u8); 80] = [
        ('\u{2574}', 0, 0, 0, 1),
        ('\u{2575}', 1, 0, 0, 0),
        ('\u{2576}', 0, 1, 0, 0),
        ('\u{2577}', 0, 0, 1, 0),
        ('\u{2500}', 0, 1, 0, 1),
        ('\u{2502}', 1, 0, 1, 0),
        ('\u{250c}', 0, 1, 1, 0),
        ('\u{2510}', 0, 0, 1, 1),
        ('\u{2514}', 1, 1, 0, 0),
        ('\u{2518}', 1, 0, 0, 1),
        ('\u{252c}', 0, 1, 1, 1),
        ('\u{2534}', 1, 1, 0, 1),
        ('\u{251c}', 1, 1, 1, 0),
        ('\u{2524}', 1, 0, 1, 1),
        ('\u{253c}', 1, 1, 1, 1),
        ('\u{2578}', 0, 0, 0, 2),
        ('\u{2579}', 2, 0, 0, 0),
        ('\u{257a}', 0, 2, 0, 0),
        ('\u{257b}', 0, 0, 2, 0),
        ('\u{251b}', 2, 0, 0, 2),
        ('\u{2513}', 0, 0, 2, 2),
        ('\u{2501}', 0, 2, 0, 2),
        ('\u{2503}', 2, 0, 2, 0),
        ('\u{2517}', 2, 2, 0, 0),
        ('\u{253b}', 2, 2, 0, 2),
        ('\u{2533}', 0, 2, 2, 2),
        ('\u{2523}', 2, 2, 2, 0),
        ('\u{250f}', 0, 2, 2, 0),
        ('\u{252b}', 2, 0, 2, 2),
        ('\u{254b}', 2, 2, 2, 2),
        ('\u{250d}', 0, 2, 1, 0),
        ('\u{250e}', 0, 1, 2, 0),
        ('\u{2511}', 0, 0, 1, 2),
        ('\u{2512}', 0, 0, 2, 1),
        ('\u{2515}', 1, 2, 0, 0),
        ('\u{2516}', 2, 1, 0, 0),
        ('\u{2519}', 1, 0, 0, 2),
        ('\u{251a}', 2, 0, 0, 1),
        ('\u{251d}', 1, 2, 1, 0),
        ('\u{251e}', 2, 1, 1, 0),
        ('\u{251f}', 1, 1, 2, 0),
        ('\u{2520}', 2, 1, 2, 0),
        ('\u{2521}', 2, 2, 1, 0),
        ('\u{2522}', 1, 2, 2, 0),
        ('\u{2525}', 1, 0, 1, 2),
        ('\u{2526}', 2, 0, 1, 1),
        ('\u{2527}', 1, 0, 2, 1),
        ('\u{2528}', 2, 0, 2, 1),
        ('\u{2529}', 2, 0, 1, 2),
        ('\u{252a}', 1, 0, 2, 2),
        ('\u{252d}', 0, 1, 1, 2),
        ('\u{252e}', 0, 2, 1, 1),
        ('\u{252f}', 0, 2, 1, 2),
        ('\u{2530}', 0, 1, 2, 1),
        ('\u{2531}', 0, 1, 2, 2),
        ('\u{2532}', 0, 2, 2, 1),
        ('\u{2535}', 1, 1, 0, 2),
        ('\u{2536}', 1, 2, 0, 1),
        ('\u{2537}', 1, 2, 0, 2),
        ('\u{2538}', 2, 1, 0, 1),
        ('\u{2539}', 2, 1, 0, 2),
        ('\u{253a}', 2, 2, 0, 1),
        ('\u{253d}', 1, 1, 1, 2),
        ('\u{253e}', 1, 2, 1, 1),
        ('\u{253f}', 1, 2, 1, 2),
        ('\u{2540}', 2, 1, 1, 1),
        ('\u{2541}', 1, 1, 2, 1),
        ('\u{2542}', 2, 1, 2, 1),
        ('\u{2543}', 2, 1, 1, 2),
        ('\u{2544}', 2, 2, 1, 1),
        ('\u{2545}', 1, 1, 2, 2),
        ('\u{2546}', 1, 2, 2, 1),
        ('\u{2547}', 2, 2, 1, 2),
        ('\u{2548}', 1, 2, 2, 2),
        ('\u{2549}', 2, 1, 2, 2),
        ('\u{254a}', 2, 2, 2, 1),
        ('\u{257c}', 0, 2, 0, 1),
        ('\u{257d}', 1, 0, 2, 0),
        ('\u{257e}', 0, 1, 0, 2),
        ('\u{257f}', 2, 0, 1, 0),
];

fn arm(start: Cell, end: Cell, weight: u8) -> Option<Fragment> {
    match weight {
        0 => None,
        1 => Some(fragment::line(start, end)),
        _ => Some(fragment::thick(start, end)),
    }
}

#[test]
fn every_glyph_is_made_by_the_arms_of_its_name() {
    let table = FragmentTable::new();
    for (glyph, up, right, down, left) in ARMS {
        let arms = [
            arm(Cell::C, Cell::M, up),
            arm(Cell::M, Cell::O, right),
            arm(Cell::M, Cell::W, down),
            arm(Cell::K, Cell::M, left),
        ];
        let fragments: Vec<Fragment> = arms.iter().flatten().copied().collect();
        assert_eq!(table.resolve(&fragments), Some(glyph), "U+{:04X}", glyph as u32);
    }
}

#[test]
fn every_choice_of_arms_but_none_makes_a_glyph() {
    let table = FragmentTable::new();
    let mut made = 0;
    for choice in 0..81u32 {
        let weights = [choice % 3, choice / 3 % 3, choice / 9 % 3, choice / 27];
        let arms = [
            arm(Cell::C, Cell::M, weights[0] as u8),
            arm(Cell::M, Cell::O, weights[1] as u8),
            arm(Cell::M, Cell::W, weights[2] as u8),
            arm(Cell::K, Cell::M, weights[3] as u8),
        ];
        let fragments: Vec<Fragment> = arms.iter().flatten().copied().collect();
        let glyph = table.resolve(&fragments);
        assert_eq!(glyph.is_some(), choice != 0);
        if let Some(glyph) = glyph {
            made += 1;
            assert!(ARMS.iter().any(|line| line.0 == glyph));
        }
    }
    assert_eq!(made, 80);
}

#[test]
fn crosses_and_tees_of_mixed_arms() {
    let (c, k, m, o, w) = (Cell::C, Cell::K, Cell::M, Cell::O, Cell::W);
    let line = fragment::line;
    let thick = fragment::thick;
    let table = FragmentTable::new();
    // Left and down heavy, right and up light.
    let cross = vec![thick(k, m), thick(m, w), line(c, m), line(m, o)];
    assert_eq!(table.resolve(&cross), Some('\u{2545}'));
    // Up light, right and down heavy.
    let tee = vec![thick(m, o), thick(m, w), line(c, m)];
    assert_eq!(table.resolve(&tee), Some('\u{2522}'));
    // A line from top to bottom through the cell is no fragment of any glyph.
    assert_eq!(table.resolve(&vec![thick(k, m), thick(m, w), line(c, w), line(m, o)]), None);
    assert_eq!(table.resolve(&vec![line(c, w)]), None);
    // An arm that is there twice makes nothing.
    assert_eq!(table.resolve(&vec![thick(c, m), thick(m, o), line(c, m)]), None);
}

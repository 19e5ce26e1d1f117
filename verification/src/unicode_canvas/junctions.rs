//! Every choice of arms makes a glyph: whatever light and heavy arms meet in
//! the centre of a cell, the table holds the character for them.
use vstd::prelude::*;
use crate::unicode_canvas::fragment::{line, thick, Cell, Fragment};
use crate::unicode_canvas::one_to_one::lemma_line_makes_its_glyph;
use crate::unicode_canvas::unicode_map::{fragment_char, unicode_map};

verus! {

/// The fragment of an arm between `start` and `end`: none for the weight 0,
/// a thin line for 1 and a thick line for 2.
pub open spec fn arm(start: Cell, end: Cell, weight: int) -> Seq<Fragment> {
    if weight == 1 {
        seq![line(start, end)]
    } else if weight == 2 {
        seq![thick(start, end)]
    } else {
        Seq::empty()
    }
}

/// The fragments of the arms that meet in the centre of a cell, each given
/// by its weight: the arm from the top, the arm to the right, the arm to
/// the bottom and the arm from the left.
pub open spec fn arms(up: int, right: int, down: int, left: int) -> Seq<Fragment> {
    arm(Cell::C, Cell::M, up) + arm(Cell::M, Cell::O, right) + arm(Cell::M, Cell::W, down) + arm(
        Cell::K,
        Cell::M,
        left,
    )
}

/// A row that holds the fragments of another row in another order holds the
/// same fragments as often: `order` says for each place of `b` the place of
/// `a` at which its fragment stands.
proof fn lemma_any_order(a: Seq<Fragment>, b: Seq<Fragment>, order: Seq<int>)
    requires
        a.len() == b.len(),
        order.len() == a.len(),
        order.no_duplicates(),
        forall|i: int| 0 <= i < order.len() ==> 0 <= #[trigger] order[i] < a.len(),
        forall|i: int| 0 <= i < b.len() ==> #[trigger] b[i] == a[order[i]],
    ensures
        a.to_multiset() == b.to_multiset(),
    decreases b.len(),
{
    broadcast use vstd::seq_lib::group_to_multiset_ensures;

    vstd::seq_lib::to_multiset_len(a);
    vstd::seq_lib::to_multiset_len(b);
    if b.len() > 0 {
        let n = b.len() - 1;
        let k = order[n];
        let rest = order.drop_last().map_values(
            |j: int|
                if j > k {
                    j - 1
                } else {
                    j
                },
        );
        assert forall|i: int, j: int|
            0 <= i < rest.len() && 0 <= j < rest.len() && i != j implies rest[i] != rest[j] by {
            assert(order[i] != order[j]);
            assert(order[i] != order[n] && order[j] != order[n]);
        }
        assert forall|i: int| 0 <= i < rest.len() implies 0 <= #[trigger] rest[i] < a.remove(
            k,
        ).len() by {
            assert(order[i] != order[n]);
        }
        assert forall|i: int| 0 <= i < b.drop_last().len() implies #[trigger] b.drop_last()[i]
            == a.remove(k)[rest[i]] by {
            assert(order[i] != order[n]);
            assert(b[i] == a[order[i]]);
        }
        lemma_any_order(a.remove(k), b.drop_last(), rest);
        assert(b.drop_last().push(b[n]) =~= b);
        assert(a.remove(k).to_multiset() =~= a.to_multiset().remove(a[k]));
        assert(b.to_multiset() =~= b.drop_last().to_multiset().insert(b[n]));
        assert(a.to_multiset().count(a[k]) > 0);
        assert(a.to_multiset() =~= a.to_multiset().remove(a[k]).insert(a[k]));
    }
}

/// The lines of the table by the weights of their arms, the arm from the
/// top counting 27 times, the arm to the right 9 times, the arm to the
/// bottom 3 times and the arm from the left once; no line for no arm.
pub open spec fn line_of_weights() -> Seq<int> {
    seq![
        -1, 0, 19, 3, 7, 36, 22, 37, 24,
        2, 4, 82, 6, 10, 54, 35, 57, 58,
        21, 80, 25, 34, 55, 56, 31, 59, 29,
        1, 9, 40, 5, 13, 48, 81, 50, 53,
        8, 11, 60, 12, 14, 66, 44, 70, 74,
        38, 61, 62, 42, 67, 68, 47, 75, 77,
        20, 41, 23, 83, 49, 52, 26, 51, 32,
        39, 63, 64, 43, 69, 72, 45, 71, 78,
        27, 65, 28, 46, 73, 76, 30, 79, 33,
    ]
}

/// The line of the table that holds the glyph for the given arms.
pub open spec fn line_of_arms(up: int, right: int, down: int, left: int) -> int {
    line_of_weights()[27 * up + 9 * right + 3 * down + left]
}

/// The arms with the weight 0 from the top and the weight 0 to the right.
proof fn lemma_arms_0_0(down: int, left: int)
    requires
        0 <= down <= 2,
        0 <= left <= 2,
        0 + 0 + down + left > 0,
    ensures
        0 <= line_of_arms(0, 0, down, left) < 84,
        arms(0, 0, down, left).to_multiset() == unicode_map()[line_of_arms(
            0,
            0,
            down,
            left,
        )].1.to_multiset(),
{
    let k = Cell::K;
    let m = Cell::M;
    let w = Cell::W;
    if down == 0 && left == 1 {
        let drawn = seq![line(k, m)];
        let written = seq![line(k, m)];
        assert(arms(0, 0, 0, 1) =~= drawn);
        assert(line_of_arms(0, 0, 0, 1) == 0);
        assert(unicode_map()[0].1 =~= written);
        lemma_any_order(drawn, written, seq![0int]);
    } else if down == 0 && left == 2 {
        let drawn = seq![thick(k, m)];
        let written = seq![thick(k, m)];
        assert(arms(0, 0, 0, 2) =~= drawn);
        assert(line_of_arms(0, 0, 0, 2) == 19);
        assert(unicode_map()[19].1 =~= written);
        lemma_any_order(drawn, written, seq![0int]);
    } else if down == 1 && left == 0 {
        let drawn = seq![line(m, w)];
        let written = seq![line(m, w)];
        assert(arms(0, 0, 1, 0) =~= drawn);
        assert(line_of_arms(0, 0, 1, 0) == 3);
        assert(unicode_map()[3].1 =~= written);
        lemma_any_order(drawn, written, seq![0int]);
    } else if down == 1 && left == 1 {
        let drawn = seq![line(m, w), line(k, m)];
        let written = seq![line(k, m), line(m, w)];
        assert(arms(0, 0, 1, 1) =~= drawn);
        assert(line_of_arms(0, 0, 1, 1) == 7);
        assert(unicode_map()[7].1 =~= written);
        lemma_any_order(drawn, written, seq![1int, 0int]);
    } else if down == 1 && left == 2 {
        let drawn = seq![line(m, w), thick(k, m)];
        let written = seq![thick(k, m), line(m, w)];
        assert(arms(0, 0, 1, 2) =~= drawn);
        assert(line_of_arms(0, 0, 1, 2) == 36);
        assert(unicode_map()[36].1 =~= written);
        lemma_any_order(drawn, written, seq![1int, 0int]);
    } else if down == 2 && left == 0 {
        let drawn = seq![thick(m, w)];
        let written = seq![thick(m, w)];
        assert(arms(0, 0, 2, 0) =~= drawn);
        assert(line_of_arms(0, 0, 2, 0) == 22);
        assert(unicode_map()[22].1 =~= written);
        lemma_any_order(drawn, written, seq![0int]);
    } else if down == 2 && left == 1 {
        let drawn = seq![thick(m, w), line(k, m)];
        let written = seq![thick(m, w), line(k, m)];
        assert(arms(0, 0, 2, 1) =~= drawn);
        assert(line_of_arms(0, 0, 2, 1) == 37);
        assert(unicode_map()[37].1 =~= written);
        lemma_any_order(drawn, written, seq![0int, 1int]);
    } else if down == 2 && left == 2 {
        let drawn = seq![thick(m, w), thick(k, m)];
        let written = seq![thick(k, m), thick(m, w)];
        assert(arms(0, 0, 2, 2) =~= drawn);
        assert(line_of_arms(0, 0, 2, 2) == 24);
        assert(unicode_map()[24].1 =~= written);
        lemma_any_order(drawn, written, seq![1int, 0int]);
    }
}

/// The arms with the weight 0 from the top and the weight 1 to the right.
proof fn lemma_arms_0_1(down: int, left: int)
    requires
        0 <= down <= 2,
        0 <= left <= 2,
        0 + 1 + down + left > 0,
    ensures
        0 <= line_of_arms(0, 1, down, left) < 84,
        arms(0, 1, down, left).to_multiset() == unicode_map()[line_of_arms(
            0,
            1,
            down,
            left,
        )].1.to_multiset(),
{
    let k = Cell::K;
    let m = Cell::M;
    let o = Cell::O;
    let w = Cell::W;
    if down == 0 && left == 0 {
        let drawn = seq![line(m, o)];
        let written = seq![line(m, o)];
        assert(arms(0, 1, 0, 0) =~= drawn);
        assert(line_of_arms(0, 1, 0, 0) == 2);
        assert(unicode_map()[2].1 =~= written);
        lemma_any_order(drawn, written, seq![0int]);
    } else if down == 0 && left == 1 {
        let drawn = seq![line(m, o), line(k, m)];
        let written = seq![line(k, m), line(m, o)];
        assert(arms(0, 1, 0, 1) =~= drawn);
        assert(line_of_arms(0, 1, 0, 1) == 4);
        assert(unicode_map()[4].1 =~= written);
        lemma_any_order(drawn, written, seq![1int, 0int]);
    } else if down == 0 && left == 2 {
        let drawn = seq![line(m, o), thick(k, m)];
        let written = seq![thick(k, m), line(m, o)];
        assert(arms(0, 1, 0, 2) =~= drawn);
        assert(line_of_arms(0, 1, 0, 2) == 82);
        assert(unicode_map()[82].1 =~= written);
        lemma_any_order(drawn, written, seq![1int, 0int]);
    } else if down == 1 && left == 0 {
        let drawn = seq![line(m, o), line(m, w)];
        let written = seq![line(m, o), line(m, w)];
        assert(arms(0, 1, 1, 0) =~= drawn);
        assert(line_of_arms(0, 1, 1, 0) == 6);
        assert(unicode_map()[6].1 =~= written);
        lemma_any_order(drawn, written, seq![0int, 1int]);
    } else if down == 1 && left == 1 {
        let drawn = seq![line(m, o), line(m, w), line(k, m)];
        let written = seq![line(k, m), line(m, o), line(m, w)];
        assert(arms(0, 1, 1, 1) =~= drawn);
        assert(line_of_arms(0, 1, 1, 1) == 10);
        assert(unicode_map()[10].1 =~= written);
        lemma_any_order(drawn, written, seq![2int, 0int, 1int]);
    } else if down == 1 && left == 2 {
        let drawn = seq![line(m, o), line(m, w), thick(k, m)];
        let written = seq![thick(k, m), line(m, w), line(m, o)];
        assert(arms(0, 1, 1, 2) =~= drawn);
        assert(line_of_arms(0, 1, 1, 2) == 54);
        assert(unicode_map()[54].1 =~= written);
        lemma_any_order(drawn, written, seq![2int, 1int, 0int]);
    } else if down == 2 && left == 0 {
        let drawn = seq![line(m, o), thick(m, w)];
        let written = seq![thick(m, w), line(m, o)];
        assert(arms(0, 1, 2, 0) =~= drawn);
        assert(line_of_arms(0, 1, 2, 0) == 35);
        assert(unicode_map()[35].1 =~= written);
        lemma_any_order(drawn, written, seq![1int, 0int]);
    } else if down == 2 && left == 1 {
        let drawn = seq![line(m, o), thick(m, w), line(k, m)];
        let written = seq![thick(m, w), line(k, m), line(m, o)];
        assert(arms(0, 1, 2, 1) =~= drawn);
        assert(line_of_arms(0, 1, 2, 1) == 57);
        assert(unicode_map()[57].1 =~= written);
        lemma_any_order(drawn, written, seq![1int, 2int, 0int]);
    } else if down == 2 && left == 2 {
        let drawn = seq![line(m, o), thick(m, w), thick(k, m)];
        let written = seq![thick(k, m), thick(m, w), line(m, o)];
        assert(arms(0, 1, 2, 2) =~= drawn);
        assert(line_of_arms(0, 1, 2, 2) == 58);
        assert(unicode_map()[58].1 =~= written);
        lemma_any_order(drawn, written, seq![2int, 1int, 0int]);
    }
}

/// The arms with the weight 0 from the top and the weight 2 to the right.
proof fn lemma_arms_0_2(down: int, left: int)
    requires
        0 <= down <= 2,
        0 <= left <= 2,
        0 + 2 + down + left > 0,
    ensures
        0 <= line_of_arms(0, 2, down, left) < 84,
        arms(0, 2, down, left).to_multiset() == unicode_map()[line_of_arms(
            0,
            2,
            down,
            left,
        )].1.to_multiset(),
{
    let k = Cell::K;
    let m = Cell::M;
    let o = Cell::O;
    let w = Cell::W;
    if down == 0 && left == 0 {
        let drawn = seq![thick(m, o)];
        let written = seq![thick(m, o)];
        assert(arms(0, 2, 0, 0) =~= drawn);
        assert(line_of_arms(0, 2, 0, 0) == 21);
        assert(unicode_map()[21].1 =~= written);
        lemma_any_order(drawn, written, seq![0int]);
    } else if down == 0 && left == 1 {
        let drawn = seq![thick(m, o), line(k, m)];
        let written = seq![thick(m, o), line(k, m)];
        assert(arms(0, 2, 0, 1) =~= drawn);
        assert(line_of_arms(0, 2, 0, 1) == 80);
        assert(unicode_map()[80].1 =~= written);
        lemma_any_order(drawn, written, seq![0int, 1int]);
    } else if down == 0 && left == 2 {
        let drawn = seq![thick(m, o), thick(k, m)];
        let written = seq![thick(k, m), thick(m, o)];
        assert(arms(0, 2, 0, 2) =~= drawn);
        assert(line_of_arms(0, 2, 0, 2) == 25);
        assert(unicode_map()[25].1 =~= written);
        lemma_any_order(drawn, written, seq![1int, 0int]);
    } else if down == 1 && left == 0 {
        let drawn = seq![thick(m, o), line(m, w)];
        let written = seq![thick(m, o), line(m, w)];
        assert(arms(0, 2, 1, 0) =~= drawn);
        assert(line_of_arms(0, 2, 1, 0) == 34);
        assert(unicode_map()[34].1 =~= written);
        lemma_any_order(drawn, written, seq![0int, 1int]);
    } else if down == 1 && left == 1 {
        let drawn = seq![thick(m, o), line(m, w), line(k, m)];
        let written = seq![thick(m, o), line(k, m), line(m, w)];
        assert(arms(0, 2, 1, 1) =~= drawn);
        assert(line_of_arms(0, 2, 1, 1) == 55);
        assert(unicode_map()[55].1 =~= written);
        lemma_any_order(drawn, written, seq![0int, 2int, 1int]);
    } else if down == 1 && left == 2 {
        let drawn = seq![thick(m, o), line(m, w), thick(k, m)];
        let written = seq![thick(k, m), thick(m, o), line(m, w)];
        assert(arms(0, 2, 1, 2) =~= drawn);
        assert(line_of_arms(0, 2, 1, 2) == 56);
        assert(unicode_map()[56].1 =~= written);
        lemma_any_order(drawn, written, seq![2int, 0int, 1int]);
    } else if down == 2 && left == 0 {
        let drawn = seq![thick(m, o), thick(m, w)];
        let written = seq![thick(m, o), thick(m, w)];
        assert(arms(0, 2, 2, 0) =~= drawn);
        assert(line_of_arms(0, 2, 2, 0) == 31);
        assert(unicode_map()[31].1 =~= written);
        lemma_any_order(drawn, written, seq![0int, 1int]);
    } else if down == 2 && left == 1 {
        let drawn = seq![thick(m, o), thick(m, w), line(k, m)];
        let written = seq![thick(m, o), thick(m, w), line(k, m)];
        assert(arms(0, 2, 2, 1) =~= drawn);
        assert(line_of_arms(0, 2, 2, 1) == 59);
        assert(unicode_map()[59].1 =~= written);
        lemma_any_order(drawn, written, seq![0int, 1int, 2int]);
    } else if down == 2 && left == 2 {
        let drawn = seq![thick(m, o), thick(m, w), thick(k, m)];
        let written = seq![thick(k, m), thick(m, o), thick(m, w)];
        assert(arms(0, 2, 2, 2) =~= drawn);
        assert(line_of_arms(0, 2, 2, 2) == 29);
        assert(unicode_map()[29].1 =~= written);
        lemma_any_order(drawn, written, seq![2int, 0int, 1int]);
    }
}

/// The arms with the weight 1 from the top and the weight 0 to the right.
proof fn lemma_arms_1_0(down: int, left: int)
    requires
        0 <= down <= 2,
        0 <= left <= 2,
        1 + 0 + down + left > 0,
    ensures
        0 <= line_of_arms(1, 0, down, left) < 84,
        arms(1, 0, down, left).to_multiset() == unicode_map()[line_of_arms(
            1,
            0,
            down,
            left,
        )].1.to_multiset(),
{
    let c = Cell::C;
    let k = Cell::K;
    let m = Cell::M;
    let w = Cell::W;
    if down == 0 && left == 0 {
        let drawn = seq![line(c, m)];
        let written = seq![line(c, m)];
        assert(arms(1, 0, 0, 0) =~= drawn);
        assert(line_of_arms(1, 0, 0, 0) == 1);
        assert(unicode_map()[1].1 =~= written);
        lemma_any_order(drawn, written, seq![0int]);
    } else if down == 0 && left == 1 {
        let drawn = seq![line(c, m), line(k, m)];
        let written = seq![line(c, m), line(k, m)];
        assert(arms(1, 0, 0, 1) =~= drawn);
        assert(line_of_arms(1, 0, 0, 1) == 9);
        assert(unicode_map()[9].1 =~= written);
        lemma_any_order(drawn, written, seq![0int, 1int]);
    } else if down == 0 && left == 2 {
        let drawn = seq![line(c, m), thick(k, m)];
        let written = seq![thick(k, m), line(c, m)];
        assert(arms(1, 0, 0, 2) =~= drawn);
        assert(line_of_arms(1, 0, 0, 2) == 40);
        assert(unicode_map()[40].1 =~= written);
        lemma_any_order(drawn, written, seq![1int, 0int]);
    } else if down == 1 && left == 0 {
        let drawn = seq![line(c, m), line(m, w)];
        let written = seq![line(c, m), line(m, w)];
        assert(arms(1, 0, 1, 0) =~= drawn);
        assert(line_of_arms(1, 0, 1, 0) == 5);
        assert(unicode_map()[5].1 =~= written);
        lemma_any_order(drawn, written, seq![0int, 1int]);
    } else if down == 1 && left == 1 {
        let drawn = seq![line(c, m), line(m, w), line(k, m)];
        let written = seq![line(k, m), line(c, m), line(m, w)];
        assert(arms(1, 0, 1, 1) =~= drawn);
        assert(line_of_arms(1, 0, 1, 1) == 13);
        assert(unicode_map()[13].1 =~= written);
        lemma_any_order(drawn, written, seq![2int, 0int, 1int]);
    } else if down == 1 && left == 2 {
        let drawn = seq![line(c, m), line(m, w), thick(k, m)];
        let written = seq![thick(k, m), line(c, m), line(m, w)];
        assert(arms(1, 0, 1, 2) =~= drawn);
        assert(line_of_arms(1, 0, 1, 2) == 48);
        assert(unicode_map()[48].1 =~= written);
        lemma_any_order(drawn, written, seq![2int, 0int, 1int]);
    } else if down == 2 && left == 0 {
        let drawn = seq![line(c, m), thick(m, w)];
        let written = seq![thick(m, w), line(c, m)];
        assert(arms(1, 0, 2, 0) =~= drawn);
        assert(line_of_arms(1, 0, 2, 0) == 81);
        assert(unicode_map()[81].1 =~= written);
        lemma_any_order(drawn, written, seq![1int, 0int]);
    } else if down == 2 && left == 1 {
        let drawn = seq![line(c, m), thick(m, w), line(k, m)];
        let written = seq![thick(m, w), line(k, m), line(c, m)];
        assert(arms(1, 0, 2, 1) =~= drawn);
        assert(line_of_arms(1, 0, 2, 1) == 50);
        assert(unicode_map()[50].1 =~= written);
        lemma_any_order(drawn, written, seq![1int, 2int, 0int]);
    } else if down == 2 && left == 2 {
        let drawn = seq![line(c, m), thick(m, w), thick(k, m)];
        let written = seq![thick(k, m), thick(m, w), line(c, m)];
        assert(arms(1, 0, 2, 2) =~= drawn);
        assert(line_of_arms(1, 0, 2, 2) == 53);
        assert(unicode_map()[53].1 =~= written);
        lemma_any_order(drawn, written, seq![2int, 1int, 0int]);
    }
}

/// The arms with the weight 1 from the top and the weight 1 to the right.
proof fn lemma_arms_1_1(down: int, left: int)
    requires
        0 <= down <= 2,
        0 <= left <= 2,
        1 + 1 + down + left > 0,
    ensures
        0 <= line_of_arms(1, 1, down, left) < 84,
        arms(1, 1, down, left).to_multiset() == unicode_map()[line_of_arms(
            1,
            1,
            down,
            left,
        )].1.to_multiset(),
{
    let c = Cell::C;
    let k = Cell::K;
    let m = Cell::M;
    let o = Cell::O;
    let w = Cell::W;
    if down == 0 && left == 0 {
        let drawn = seq![line(c, m), line(m, o)];
        let written = seq![line(c, m), line(m, o)];
        assert(arms(1, 1, 0, 0) =~= drawn);
        assert(line_of_arms(1, 1, 0, 0) == 8);
        assert(unicode_map()[8].1 =~= written);
        lemma_any_order(drawn, written, seq![0int, 1int]);
    } else if down == 0 && left == 1 {
        let drawn = seq![line(c, m), line(m, o), line(k, m)];
        let written = seq![line(k, m), line(m, o), line(c, m)];
        assert(arms(1, 1, 0, 1) =~= drawn);
        assert(line_of_arms(1, 1, 0, 1) == 11);
        assert(unicode_map()[11].1 =~= written);
        lemma_any_order(drawn, written, seq![2int, 1int, 0int]);
    } else if down == 0 && left == 2 {
        let drawn = seq![line(c, m), line(m, o), thick(k, m)];
        let written = seq![thick(k, m), line(c, m), line(m, o)];
        assert(arms(1, 1, 0, 2) =~= drawn);
        assert(line_of_arms(1, 1, 0, 2) == 60);
        assert(unicode_map()[60].1 =~= written);
        lemma_any_order(drawn, written, seq![2int, 0int, 1int]);
    } else if down == 1 && left == 0 {
        let drawn = seq![line(c, m), line(m, o), line(m, w)];
        let written = seq![line(c, m), line(m, w), line(m, o)];
        assert(arms(1, 1, 1, 0) =~= drawn);
        assert(line_of_arms(1, 1, 1, 0) == 12);
        assert(unicode_map()[12].1 =~= written);
        lemma_any_order(drawn, written, seq![0int, 2int, 1int]);
    } else if down == 1 && left == 1 {
        let drawn = seq![line(c, m), line(m, o), line(m, w), line(k, m)];
        let written = seq![line(k, m), line(m, o), line(c, m), line(m, w)];
        assert(arms(1, 1, 1, 1) =~= drawn);
        assert(line_of_arms(1, 1, 1, 1) == 14);
        assert(unicode_map()[14].1 =~= written);
        lemma_any_order(drawn, written, seq![3int, 1int, 0int, 2int]);
    } else if down == 1 && left == 2 {
        let drawn = seq![line(c, m), line(m, o), line(m, w), thick(k, m)];
        let written = seq![thick(k, m), line(c, m), line(m, w), line(m, o)];
        assert(arms(1, 1, 1, 2) =~= drawn);
        assert(line_of_arms(1, 1, 1, 2) == 66);
        assert(unicode_map()[66].1 =~= written);
        lemma_any_order(drawn, written, seq![3int, 0int, 2int, 1int]);
    } else if down == 2 && left == 0 {
        let drawn = seq![line(c, m), line(m, o), thick(m, w)];
        let written = seq![thick(m, w), line(c, m), line(m, o)];
        assert(arms(1, 1, 2, 0) =~= drawn);
        assert(line_of_arms(1, 1, 2, 0) == 44);
        assert(unicode_map()[44].1 =~= written);
        lemma_any_order(drawn, written, seq![2int, 0int, 1int]);
    } else if down == 2 && left == 1 {
        let drawn = seq![line(c, m), line(m, o), thick(m, w), line(k, m)];
        let written = seq![thick(m, w), line(c, m), line(k, m), line(m, o)];
        assert(arms(1, 1, 2, 1) =~= drawn);
        assert(line_of_arms(1, 1, 2, 1) == 70);
        assert(unicode_map()[70].1 =~= written);
        lemma_any_order(drawn, written, seq![2int, 0int, 3int, 1int]);
    } else if down == 2 && left == 2 {
        let drawn = seq![line(c, m), line(m, o), thick(m, w), thick(k, m)];
        let written = seq![thick(k, m), thick(m, w), line(c, m), line(m, o)];
        assert(arms(1, 1, 2, 2) =~= drawn);
        assert(line_of_arms(1, 1, 2, 2) == 74);
        assert(unicode_map()[74].1 =~= written);
        lemma_any_order(drawn, written, seq![3int, 2int, 0int, 1int]);
    }
}

/// The arms with the weight 1 from the top and the weight 2 to the right.
proof fn lemma_arms_1_2(down: int, left: int)
    requires
        0 <= down <= 2,
        0 <= left <= 2,
        1 + 2 + down + left > 0,
    ensures
        0 <= line_of_arms(1, 2, down, left) < 84,
        arms(1, 2, down, left).to_multiset() == unicode_map()[line_of_arms(
            1,
            2,
            down,
            left,
        )].1.to_multiset(),
{
    let c = Cell::C;
    let k = Cell::K;
    let m = Cell::M;
    let o = Cell::O;
    let w = Cell::W;
    if down == 0 && left == 0 {
        let drawn = seq![line(c, m), thick(m, o)];
        let written = seq![thick(m, o), line(c, m)];
        assert(arms(1, 2, 0, 0) =~= drawn);
        assert(line_of_arms(1, 2, 0, 0) == 38);
        assert(unicode_map()[38].1 =~= written);
        lemma_any_order(drawn, written, seq![1int, 0int]);
    } else if down == 0 && left == 1 {
        let drawn = seq![line(c, m), thick(m, o), line(k, m)];
        let written = seq![thick(m, o), line(k, m), line(c, m)];
        assert(arms(1, 2, 0, 1) =~= drawn);
        assert(line_of_arms(1, 2, 0, 1) == 61);
        assert(unicode_map()[61].1 =~= written);
        lemma_any_order(drawn, written, seq![1int, 2int, 0int]);
    } else if down == 0 && left == 2 {
        let drawn = seq![line(c, m), thick(m, o), thick(k, m)];
        let written = seq![thick(k, m), thick(m, o), line(c, m)];
        assert(arms(1, 2, 0, 2) =~= drawn);
        assert(line_of_arms(1, 2, 0, 2) == 62);
        assert(unicode_map()[62].1 =~= written);
        lemma_any_order(drawn, written, seq![2int, 1int, 0int]);
    } else if down == 1 && left == 0 {
        let drawn = seq![line(c, m), thick(m, o), line(m, w)];
        let written = seq![thick(m, o), line(c, m), line(m, w)];
        assert(arms(1, 2, 1, 0) =~= drawn);
        assert(line_of_arms(1, 2, 1, 0) == 42);
        assert(unicode_map()[42].1 =~= written);
        lemma_any_order(drawn, written, seq![1int, 0int, 2int]);
    } else if down == 1 && left == 1 {
        let drawn = seq![line(c, m), thick(m, o), line(m, w), line(k, m)];
        let written = seq![thick(m, o), line(c, m), line(m, w), line(k, m)];
        assert(arms(1, 2, 1, 1) =~= drawn);
        assert(line_of_arms(1, 2, 1, 1) == 67);
        assert(unicode_map()[67].1 =~= written);
        lemma_any_order(drawn, written, seq![1int, 0int, 2int, 3int]);
    } else if down == 1 && left == 2 {
        let drawn = seq![line(c, m), thick(m, o), line(m, w), thick(k, m)];
        let written = seq![thick(k, m), thick(m, o), line(c, m), line(m, w)];
        assert(arms(1, 2, 1, 2) =~= drawn);
        assert(line_of_arms(1, 2, 1, 2) == 68);
        assert(unicode_map()[68].1 =~= written);
        lemma_any_order(drawn, written, seq![3int, 1int, 0int, 2int]);
    } else if down == 2 && left == 0 {
        let drawn = seq![line(c, m), thick(m, o), thick(m, w)];
        let written = seq![thick(m, o), thick(m, w), line(c, m)];
        assert(arms(1, 2, 2, 0) =~= drawn);
        assert(line_of_arms(1, 2, 2, 0) == 47);
        assert(unicode_map()[47].1 =~= written);
        lemma_any_order(drawn, written, seq![1int, 2int, 0int]);
    } else if down == 2 && left == 1 {
        let drawn = seq![line(c, m), thick(m, o), thick(m, w), line(k, m)];
        let written = seq![thick(m, w), thick(m, o), line(c, m), line(k, m)];
        assert(arms(1, 2, 2, 1) =~= drawn);
        assert(line_of_arms(1, 2, 2, 1) == 75);
        assert(unicode_map()[75].1 =~= written);
        lemma_any_order(drawn, written, seq![2int, 1int, 0int, 3int]);
    } else if down == 2 && left == 2 {
        let drawn = seq![line(c, m), thick(m, o), thick(m, w), thick(k, m)];
        let written = seq![thick(k, m), thick(m, o), thick(m, w), line(c, m)];
        assert(arms(1, 2, 2, 2) =~= drawn);
        assert(line_of_arms(1, 2, 2, 2) == 77);
        assert(unicode_map()[77].1 =~= written);
        lemma_any_order(drawn, written, seq![3int, 1int, 2int, 0int]);
    }
}

/// The arms with the weight 2 from the top and the weight 0 to the right.
proof fn lemma_arms_2_0(down: int, left: int)
    requires
        0 <= down <= 2,
        0 <= left <= 2,
        2 + 0 + down + left > 0,
    ensures
        0 <= line_of_arms(2, 0, down, left) < 84,
        arms(2, 0, down, left).to_multiset() == unicode_map()[line_of_arms(
            2,
            0,
            down,
            left,
        )].1.to_multiset(),
{
    let c = Cell::C;
    let k = Cell::K;
    let m = Cell::M;
    let w = Cell::W;
    if down == 0 && left == 0 {
        let drawn = seq![thick(c, m)];
        let written = seq![thick(c, m)];
        assert(arms(2, 0, 0, 0) =~= drawn);
        assert(line_of_arms(2, 0, 0, 0) == 20);
        assert(unicode_map()[20].1 =~= written);
        lemma_any_order(drawn, written, seq![0int]);
    } else if down == 0 && left == 1 {
        let drawn = seq![thick(c, m), line(k, m)];
        let written = seq![thick(c, m), line(k, m)];
        assert(arms(2, 0, 0, 1) =~= drawn);
        assert(line_of_arms(2, 0, 0, 1) == 41);
        assert(unicode_map()[41].1 =~= written);
        lemma_any_order(drawn, written, seq![0int, 1int]);
    } else if down == 0 && left == 2 {
        let drawn = seq![thick(c, m), thick(k, m)];
        let written = seq![thick(c, m), thick(k, m)];
        assert(arms(2, 0, 0, 2) =~= drawn);
        assert(line_of_arms(2, 0, 0, 2) == 23);
        assert(unicode_map()[23].1 =~= written);
        lemma_any_order(drawn, written, seq![0int, 1int]);
    } else if down == 1 && left == 0 {
        let drawn = seq![thick(c, m), line(m, w)];
        let written = seq![thick(c, m), line(m, w)];
        assert(arms(2, 0, 1, 0) =~= drawn);
        assert(line_of_arms(2, 0, 1, 0) == 83);
        assert(unicode_map()[83].1 =~= written);
        lemma_any_order(drawn, written, seq![0int, 1int]);
    } else if down == 1 && left == 1 {
        let drawn = seq![thick(c, m), line(m, w), line(k, m)];
        let written = seq![thick(c, m), line(k, m), line(m, w)];
        assert(arms(2, 0, 1, 1) =~= drawn);
        assert(line_of_arms(2, 0, 1, 1) == 49);
        assert(unicode_map()[49].1 =~= written);
        lemma_any_order(drawn, written, seq![0int, 2int, 1int]);
    } else if down == 1 && left == 2 {
        let drawn = seq![thick(c, m), line(m, w), thick(k, m)];
        let written = seq![thick(k, m), thick(c, m), line(m, w)];
        assert(arms(2, 0, 1, 2) =~= drawn);
        assert(line_of_arms(2, 0, 1, 2) == 52);
        assert(unicode_map()[52].1 =~= written);
        lemma_any_order(drawn, written, seq![2int, 0int, 1int]);
    } else if down == 2 && left == 0 {
        let drawn = seq![thick(c, m), thick(m, w)];
        let written = seq![thick(c, m), thick(m, w)];
        assert(arms(2, 0, 2, 0) =~= drawn);
        assert(line_of_arms(2, 0, 2, 0) == 26);
        assert(unicode_map()[26].1 =~= written);
        lemma_any_order(drawn, written, seq![0int, 1int]);
    } else if down == 2 && left == 1 {
        let drawn = seq![thick(c, m), thick(m, w), line(k, m)];
        let written = seq![thick(c, m), thick(m, w), line(k, m)];
        assert(arms(2, 0, 2, 1) =~= drawn);
        assert(line_of_arms(2, 0, 2, 1) == 51);
        assert(unicode_map()[51].1 =~= written);
        lemma_any_order(drawn, written, seq![0int, 1int, 2int]);
    } else if down == 2 && left == 2 {
        let drawn = seq![thick(c, m), thick(m, w), thick(k, m)];
        let written = seq![thick(k, m), thick(c, m), thick(m, w)];
        assert(arms(2, 0, 2, 2) =~= drawn);
        assert(line_of_arms(2, 0, 2, 2) == 32);
        assert(unicode_map()[32].1 =~= written);
        lemma_any_order(drawn, written, seq![2int, 0int, 1int]);
    }
}

/// The arms with the weight 2 from the top and the weight 1 to the right.
proof fn lemma_arms_2_1(down: int, left: int)
    requires
        0 <= down <= 2,
        0 <= left <= 2,
        2 + 1 + down + left > 0,
    ensures
        0 <= line_of_arms(2, 1, down, left) < 84,
        arms(2, 1, down, left).to_multiset() == unicode_map()[line_of_arms(
            2,
            1,
            down,
            left,
        )].1.to_multiset(),
{
    let c = Cell::C;
    let k = Cell::K;
    let m = Cell::M;
    let o = Cell::O;
    let w = Cell::W;
    if down == 0 && left == 0 {
        let drawn = seq![thick(c, m), line(m, o)];
        let written = seq![thick(c, m), line(m, o)];
        assert(arms(2, 1, 0, 0) =~= drawn);
        assert(line_of_arms(2, 1, 0, 0) == 39);
        assert(unicode_map()[39].1 =~= written);
        lemma_any_order(drawn, written, seq![0int, 1int]);
    } else if down == 0 && left == 1 {
        let drawn = seq![thick(c, m), line(m, o), line(k, m)];
        let written = seq![thick(c, m), line(k, m), line(m, o)];
        assert(arms(2, 1, 0, 1) =~= drawn);
        assert(line_of_arms(2, 1, 0, 1) == 63);
        assert(unicode_map()[63].1 =~= written);
        lemma_any_order(drawn, written, seq![0int, 2int, 1int]);
    } else if down == 0 && left == 2 {
        let drawn = seq![thick(c, m), line(m, o), thick(k, m)];
        let written = seq![thick(c, m), thick(k, m), line(m, o)];
        assert(arms(2, 1, 0, 2) =~= drawn);
        assert(line_of_arms(2, 1, 0, 2) == 64);
        assert(unicode_map()[64].1 =~= written);
        lemma_any_order(drawn, written, seq![0int, 2int, 1int]);
    } else if down == 1 && left == 0 {
        let drawn = seq![thick(c, m), line(m, o), line(m, w)];
        let written = seq![thick(c, m), line(m, w), line(m, o)];
        assert(arms(2, 1, 1, 0) =~= drawn);
        assert(line_of_arms(2, 1, 1, 0) == 43);
        assert(unicode_map()[43].1 =~= written);
        lemma_any_order(drawn, written, seq![0int, 2int, 1int]);
    } else if down == 1 && left == 1 {
        let drawn = seq![thick(c, m), line(m, o), line(m, w), line(k, m)];
        let written = seq![thick(c, m), line(k, m), line(m, o), line(m, w)];
        assert(arms(2, 1, 1, 1) =~= drawn);
        assert(line_of_arms(2, 1, 1, 1) == 69);
        assert(unicode_map()[69].1 =~= written);
        lemma_any_order(drawn, written, seq![0int, 3int, 1int, 2int]);
    } else if down == 1 && left == 2 {
        let drawn = seq![thick(c, m), line(m, o), line(m, w), thick(k, m)];
        let written = seq![thick(k, m), thick(c, m), line(m, o), line(m, w)];
        assert(arms(2, 1, 1, 2) =~= drawn);
        assert(line_of_arms(2, 1, 1, 2) == 72);
        assert(unicode_map()[72].1 =~= written);
        lemma_any_order(drawn, written, seq![3int, 0int, 1int, 2int]);
    } else if down == 2 && left == 0 {
        let drawn = seq![thick(c, m), line(m, o), thick(m, w)];
        let written = seq![thick(c, m), thick(m, w), line(m, o)];
        assert(arms(2, 1, 2, 0) =~= drawn);
        assert(line_of_arms(2, 1, 2, 0) == 45);
        assert(unicode_map()[45].1 =~= written);
        lemma_any_order(drawn, written, seq![0int, 2int, 1int]);
    } else if down == 2 && left == 1 {
        let drawn = seq![thick(c, m), line(m, o), thick(m, w), line(k, m)];
        let written = seq![thick(c, m), thick(m, w), line(k, m), line(m, o)];
        assert(arms(2, 1, 2, 1) =~= drawn);
        assert(line_of_arms(2, 1, 2, 1) == 71);
        assert(unicode_map()[71].1 =~= written);
        lemma_any_order(drawn, written, seq![0int, 2int, 3int, 1int]);
    } else if down == 2 && left == 2 {
        let drawn = seq![thick(c, m), line(m, o), thick(m, w), thick(k, m)];
        let written = seq![thick(k, m), thick(c, m), thick(m, w), line(m, o)];
        assert(arms(2, 1, 2, 2) =~= drawn);
        assert(line_of_arms(2, 1, 2, 2) == 78);
        assert(unicode_map()[78].1 =~= written);
        lemma_any_order(drawn, written, seq![3int, 0int, 2int, 1int]);
    }
}

/// The arms with the weight 2 from the top and the weight 2 to the right.
proof fn lemma_arms_2_2(down: int, left: int)
    requires
        0 <= down <= 2,
        0 <= left <= 2,
        2 + 2 + down + left > 0,
    ensures
        0 <= line_of_arms(2, 2, down, left) < 84,
        arms(2, 2, down, left).to_multiset() == unicode_map()[line_of_arms(
            2,
            2,
            down,
            left,
        )].1.to_multiset(),
{
    let c = Cell::C;
    let k = Cell::K;
    let m = Cell::M;
    let o = Cell::O;
    let w = Cell::W;
    if down == 0 && left == 0 {
        let drawn = seq![thick(c, m), thick(m, o)];
        let written = seq![thick(c, m), thick(m, o)];
        assert(arms(2, 2, 0, 0) =~= drawn);
        assert(line_of_arms(2, 2, 0, 0) == 27);
        assert(unicode_map()[27].1 =~= written);
        lemma_any_order(drawn, written, seq![0int, 1int]);
    } else if down == 0 && left == 1 {
        let drawn = seq![thick(c, m), thick(m, o), line(k, m)];
        let written = seq![thick(c, m), thick(m, o), line(k, m)];
        assert(arms(2, 2, 0, 1) =~= drawn);
        assert(line_of_arms(2, 2, 0, 1) == 65);
        assert(unicode_map()[65].1 =~= written);
        lemma_any_order(drawn, written, seq![0int, 1int, 2int]);
    } else if down == 0 && left == 2 {
        let drawn = seq![thick(c, m), thick(m, o), thick(k, m)];
        let written = seq![thick(c, m), thick(k, m), thick(m, o)];
        assert(arms(2, 2, 0, 2) =~= drawn);
        assert(line_of_arms(2, 2, 0, 2) == 28);
        assert(unicode_map()[28].1 =~= written);
        lemma_any_order(drawn, written, seq![0int, 2int, 1int]);
    } else if down == 1 && left == 0 {
        let drawn = seq![thick(c, m), thick(m, o), line(m, w)];
        let written = seq![thick(c, m), thick(m, o), line(m, w)];
        assert(arms(2, 2, 1, 0) =~= drawn);
        assert(line_of_arms(2, 2, 1, 0) == 46);
        assert(unicode_map()[46].1 =~= written);
        lemma_any_order(drawn, written, seq![0int, 1int, 2int]);
    } else if down == 1 && left == 1 {
        let drawn = seq![thick(c, m), thick(m, o), line(m, w), line(k, m)];
        let written = seq![thick(c, m), thick(m, o), line(k, m), line(m, w)];
        assert(arms(2, 2, 1, 1) =~= drawn);
        assert(line_of_arms(2, 2, 1, 1) == 73);
        assert(unicode_map()[73].1 =~= written);
        lemma_any_order(drawn, written, seq![0int, 1int, 3int, 2int]);
    } else if down == 1 && left == 2 {
        let drawn = seq![thick(c, m), thick(m, o), line(m, w), thick(k, m)];
        let written = seq![thick(c, m), thick(k, m), thick(m, o), line(m, w)];
        assert(arms(2, 2, 1, 2) =~= drawn);
        assert(line_of_arms(2, 2, 1, 2) == 76);
        assert(unicode_map()[76].1 =~= written);
        lemma_any_order(drawn, written, seq![0int, 3int, 1int, 2int]);
    } else if down == 2 && left == 0 {
        let drawn = seq![thick(c, m), thick(m, o), thick(m, w)];
        let written = seq![thick(c, m), thick(m, w), thick(m, o)];
        assert(arms(2, 2, 2, 0) =~= drawn);
        assert(line_of_arms(2, 2, 2, 0) == 30);
        assert(unicode_map()[30].1 =~= written);
        lemma_any_order(drawn, written, seq![0int, 2int, 1int]);
    } else if down == 2 && left == 1 {
        let drawn = seq![thick(c, m), thick(m, o), thick(m, w), line(k, m)];
        let written = seq![thick(c, m), thick(m, w), thick(m, o), line(k, m)];
        assert(arms(2, 2, 2, 1) =~= drawn);
        assert(line_of_arms(2, 2, 2, 1) == 79);
        assert(unicode_map()[79].1 =~= written);
        lemma_any_order(drawn, written, seq![0int, 2int, 1int, 3int]);
    } else if down == 2 && left == 2 {
        let drawn = seq![thick(c, m), thick(m, o), thick(m, w), thick(k, m)];
        let written = seq![thick(c, m), thick(m, w), thick(k, m), thick(m, o)];
        assert(arms(2, 2, 2, 2) =~= drawn);
        assert(line_of_arms(2, 2, 2, 2) == 33);
        assert(unicode_map()[33].1 =~= written);
        lemma_any_order(drawn, written, seq![0int, 2int, 3int, 1int]);
    }
}

/// Whatever arms meet in the centre of a cell, one at least, their
/// fragments are those of a line of the table.
pub proof fn lemma_arms_are_a_line(up: int, right: int, down: int, left: int)
    requires
        0 <= up <= 2,
        0 <= right <= 2,
        0 <= down <= 2,
        0 <= left <= 2,
        up + right + down + left > 0,
    ensures
        0 <= line_of_arms(up, right, down, left) < 84,
        arms(up, right, down, left).to_multiset() == unicode_map()[line_of_arms(
            up,
            right,
            down,
            left,
        )].1.to_multiset(),
{
    if up == 0 && right == 0 {
        lemma_arms_0_0(down, left);
    } else if up == 0 && right == 1 {
        lemma_arms_0_1(down, left);
    } else if up == 0 && right == 2 {
        lemma_arms_0_2(down, left);
    } else if up == 1 && right == 0 {
        lemma_arms_1_0(down, left);
    } else if up == 1 && right == 1 {
        lemma_arms_1_1(down, left);
    } else if up == 1 && right == 2 {
        lemma_arms_1_2(down, left);
    } else if up == 2 && right == 0 {
        lemma_arms_2_0(down, left);
    } else if up == 2 && right == 1 {
        lemma_arms_2_1(down, left);
    } else if up == 2 && right == 2 {
        lemma_arms_2_2(down, left);
    }
}

/// Whatever arms meet in the centre of a cell, one at least, and in
/// whatever order their fragments were drawn, there is a glyph for them:
/// that of the line of the table with these arms.
pub proof fn lemma_arms_make_a_glyph(
    up: int,
    right: int,
    down: int,
    left: int,
    fragments: Seq<Fragment>,
)
    requires
        0 <= up <= 2,
        0 <= right <= 2,
        0 <= down <= 2,
        0 <= left <= 2,
        up + right + down + left > 0,
        fragments.to_multiset() == arms(up, right, down, left).to_multiset(),
    ensures
        fragment_char(fragments) == Some(unicode_map()[line_of_arms(up, right, down, left)].0),
{
    lemma_arms_are_a_line(up, right, down, left);
    lemma_line_makes_its_glyph(line_of_arms(up, right, down, left), fragments);
}

} // verus!

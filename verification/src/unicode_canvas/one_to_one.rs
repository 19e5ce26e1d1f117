//! The table of glyphs is one to one: no two of its lines share their
//! fragments, and no two share their character.
use vstd::prelude::*;
use crate::unicode_canvas::fragment::Fragment;
use crate::unicode_canvas::order::{by_place, canonical, lemma_by_place_total};
use crate::unicode_canvas::unicode_map::{
    crosses, curves, fragment_char, fragment_char_map, joined_halves, level_tees, lookup,
    mixed_corners, thick_lines, thin_lines, unicode_map, upright_tees,
};

verus! {

/// A number for each fragment that the table uses, a power of two each, and
/// none for the others.
pub open spec fn mark(f: Fragment) -> nat {
    let key = f.order_key();
    if key == 14 {
        0x0001
    } else if key == 4 {
        0x0002
    } else if key == 26 {
        0x0004
    } else if key == 28 {
        0x0008
    } else if key == 15 {
        0x0010
    } else if key == 5 {
        0x0020
    } else if key == 27 {
        0x0040
    } else if key == 29 {
        0x0080
    } else if key == 69 {
        0x0100
    } else if key == 71 {
        0x0200
    } else if key == 53 {
        0x0400
    } else if key == 55 {
        0x0800
    } else {
        0
    }
}

/// The sum of the marks of some fragments. It does not depend on their
/// order, so fragments with different sums are different in any order.
pub open spec fn weight(fragments: Seq<Fragment>) -> nat
    decreases fragments.len(),
{
    if fragments.len() == 0 {
        0
    } else {
        weight(fragments.drop_last()) + mark(fragments.last())
    }
}

/// Taking a fragment away takes its mark off the weight.
proof fn lemma_weight_remove(fragments: Seq<Fragment>, k: int)
    requires
        0 <= k < fragments.len(),
    ensures
        weight(fragments) == weight(fragments.remove(k)) + mark(fragments[k]),
    decreases fragments.len(),
{
    if k < fragments.len() - 1 {
        lemma_weight_remove(fragments.drop_last(), k);
        assert(fragments.remove(k).drop_last() =~= fragments.drop_last().remove(k));
    }
}

/// The same fragments, as often, have the same weight in any order.
pub proof fn lemma_weight_ignores_order(a: Seq<Fragment>, b: Seq<Fragment>)
    requires
        a.to_multiset() == b.to_multiset(),
    ensures
        weight(a) == weight(b),
    decreases a.len(),
{
    broadcast use vstd::seq_lib::group_to_multiset_ensures;

    vstd::seq_lib::to_multiset_len(a);
    vstd::seq_lib::to_multiset_len(b);
    if a.len() > 0 {
        let x = a.last();
        assert(b.to_multiset().count(x) > 0);
        let k = choose|k: int| 0 <= k < b.len() && b[k] == x;
        assert(a.drop_last().push(x) =~= a);
        assert(a.drop_last().to_multiset() =~= a.to_multiset().remove(x));
        lemma_weight_ignores_order(a.drop_last(), b.remove(k));
        lemma_weight_remove(b, k);
    }
}

/// Putting fragments into canonical order keeps their weight.
pub proof fn lemma_weight_of_canonical(fragments: Seq<Fragment>)
    ensures
        weight(canonical(fragments)) == weight(fragments),
{
    lemma_by_place_total::<Fragment>();
    fragments.lemma_sort_by_ensures(by_place::<Fragment>());
    lemma_weight_ignores_order(canonical(fragments), fragments);
}

/// The weights of the lines for the thin lines.
pub open spec fn thin_lines_weights() -> Seq<nat> {
    seq![1, 2, 4, 8, 5, 10, 12, 9, 6, 3, 13, 7, 14, 11, 15]
}

/// The lines for the thin lines have the weights written down for them.
proof fn lemma_thin_lines_weights()
    ensures
        thin_lines().len() == 15,
        forall|k: int|
            0 <= k < 15 ==> weight(#[trigger] thin_lines()[k].1) == thin_lines_weights()[k],
{
    reveal_with_fuel(weight, 6);
}

/// The weights of the lines for the rounded corners.
pub open spec fn curves_weights() -> Seq<nat> {
    seq![256, 512, 1024, 2048]
}

/// The lines for the rounded corners have the weights written down for them.
proof fn lemma_curves_weights()
    ensures
        curves().len() == 4,
        forall|k: int| 0 <= k < 4 ==> weight(#[trigger] curves()[k].1) == curves_weights()[k],
{
    reveal_with_fuel(weight, 6);
}

/// The weights of the lines for the thick lines.
pub open spec fn thick_lines_weights() -> Seq<nat> {
    seq![16, 32, 64, 128, 48, 144, 80, 160, 96, 112, 208, 224, 192, 176, 240]
}

/// The lines for the thick lines have the weights written down for them.
proof fn lemma_thick_lines_weights()
    ensures
        thick_lines().len() == 15,
        forall|k: int|
            0 <= k < 15 ==> weight(#[trigger] thick_lines()[k].1) == thick_lines_weights()[k],
{
    reveal_with_fuel(weight, 6);
}

/// The weights of the lines for the corners of thin and thick arms.
pub open spec fn mixed_corners_weights() -> Seq<nat> {
    seq![72, 132, 24, 129, 66, 36, 18, 33]
}

/// The lines for the corners of thin and thick arms have the weights written down for them.
proof fn lemma_mixed_corners_weights()
    ensures
        mixed_corners().len() == 8,
        forall|k: int|
            0 <= k < 8 ==> weight(#[trigger] mixed_corners()[k].1) == mixed_corners_weights()[k],
{
    reveal_with_fuel(weight, 6);
}

/// The weights of the lines for the tees on an upright bar.
pub open spec fn upright_tees_weights() -> Seq<nat> {
    seq![74, 44, 134, 164, 104, 194, 26, 41, 131, 161, 56, 146]
}

/// The lines for the tees on an upright bar have the weights written down for them.
proof fn lemma_upright_tees_weights()
    ensures
        upright_tees().len() == 12,
        forall|k: int|
            0 <= k < 12 ==> weight(#[trigger] upright_tees()[k].1) == upright_tees_weights()[k],
{
    reveal_with_fuel(weight, 6);
}

/// The weights of the lines for the tees on a level bar.
pub open spec fn level_tees_weights() -> Seq<nat> {
    seq![28, 73, 88, 133, 148, 193, 22, 67, 82, 37, 52, 97]
}

/// The lines for the tees on a level bar have the weights written down for them.
proof fn lemma_level_tees_weights()
    ensures
        level_tees().len() == 12,
        forall|k: int|
            0 <= k < 12 ==> weight(#[trigger] level_tees()[k].1) == level_tees_weights()[k],
{
    reveal_with_fuel(weight, 6);
}

/// The weights of the lines for the crosses of thin and thick arms.
pub open spec fn crosses_weights() -> Seq<nat> {
    seq![30, 75, 90, 45, 135, 165, 60, 105, 150, 195, 120, 210, 180, 225]
}

/// The lines for the crosses of thin and thick arms have the weights written down for them.
proof fn lemma_crosses_weights()
    ensures
        crosses().len() == 14,
        forall|k: int| 0 <= k < 14 ==> weight(#[trigger] crosses()[k].1) == crosses_weights()[k],
{
    reveal_with_fuel(weight, 6);
}

/// The weights of the lines for the lines of a thin and a thick half.
pub open spec fn joined_halves_weights() -> Seq<nat> {
    seq![65, 130, 20, 40]
}

/// The lines for the lines of a thin and a thick half have the weights written down for them.
proof fn lemma_joined_halves_weights()
    ensures
        joined_halves().len() == 4,
        forall|k: int|
            0 <= k < 4 ==> weight(#[trigger] joined_halves()[k].1) == joined_halves_weights()[k],
{
    reveal_with_fuel(weight, 6);
}

/// The weights of the lines of the table, line by line.
pub open spec fn weights() -> Seq<nat> {
    thin_lines_weights()
        + curves_weights()
        + thick_lines_weights()
        + mixed_corners_weights()
        + upright_tees_weights()
        + level_tees_weights()
        + crosses_weights()
        + joined_halves_weights()
}

/// Every line of the table has the weight that is written down for it.
proof fn lemma_weights()
    ensures
        unicode_map().len() == 84,
        forall|k: int| 0 <= k < 84 ==> weight(#[trigger] unicode_map()[k].1) == weights()[k],
{
    lemma_thin_lines_weights();
    lemma_curves_weights();
    lemma_thick_lines_weights();
    lemma_mixed_corners_weights();
    lemma_upright_tees_weights();
    lemma_level_tees_weights();
    lemma_crosses_weights();
    lemma_joined_halves_weights();
}

/// No two weights of the table are the same.
proof fn lemma_weights_differ()
    ensures
        weights().len() == 84,
        forall|i: int, j: int| 0 <= i < j < 84 ==> weights()[i] != weights()[j],
{
}

/// The table has 84 lines, and no two of them have the same character.
pub proof fn lemma_glyphs_differ()
    ensures
        unicode_map().len() == 84,
        forall|i: int, j: int|
            0 <= i < j < 84 ==> (#[trigger] unicode_map()[i]).0 != (#[trigger] unicode_map()[j]).0,
{
}

/// No two lines of the table have the same fragments, in whatever order.
pub proof fn lemma_fragments_differ()
    ensures
        forall|i: int, j: int|
            0 <= i < j < 84 ==> canonical((#[trigger] unicode_map()[i]).1) != canonical(
                (#[trigger] unicode_map()[j]).1,
            ),
{
    lemma_weights();
    lemma_weights_differ();
    assert forall|i: int, j: int| 0 <= i < j < 84 implies canonical(
        (#[trigger] unicode_map()[i]).1,
    ) != canonical((#[trigger] unicode_map()[j]).1) by {
        lemma_weight_of_canonical(unicode_map()[i].1);
        lemma_weight_of_canonical(unicode_map()[j].1);
    }
}

/// In a table without two lines of the same fragments, the fragments of a
/// line lead to its character.
proof fn lemma_lookup_finds(table: Seq<(char, Seq<Fragment>)>, i: int)
    requires
        0 <= i < table.len(),
        forall|j: int| i < j < table.len() ==> (#[trigger] table[j]).1 != table[i].1,
    ensures
        lookup(table, table[i].1) == Some(table[i].0),
    decreases table.len(),
{
    if i < table.len() - 1 {
        let init = table.drop_last();
        lemma_lookup_finds(init, i);
    }
}

/// A character that a table gives for some fragments stands in a line of
/// the table with these fragments.
proof fn lemma_lookup_found(table: Seq<(char, Seq<Fragment>)>, key: Seq<Fragment>)
    requires
        lookup(table, key).is_some(),
    ensures
        exists|i: int|
            0 <= i < table.len() && (#[trigger] table[i]).1 == key && table[i].0 == lookup(
                table,
                key,
            ).unwrap(),
    decreases table.len(),
{
    if table.len() > 0 && table.last().1 != key {
        let init = table.drop_last();
        lemma_lookup_found(init, key);
        let i = choose|i: int|
            0 <= i < init.len() && (#[trigger] init[i]).1 == key && init[i].0 == lookup(
                init,
                key,
            ).unwrap();
        assert(table[i] == init[i]);
    }
}

/// The fragments of a line of the table make the character of that line,
/// in whatever order they come.
pub proof fn lemma_line_makes_its_glyph(i: int, fragments: Seq<Fragment>)
    requires
        0 <= i < 84,
        fragments.to_multiset() == unicode_map()[i].1.to_multiset(),
    ensures
        fragment_char(fragments) == Some(unicode_map()[i].0),
{
    lemma_glyphs_differ();
    lemma_fragments_differ();
    crate::unicode_canvas::order::lemma_canonical_ignores_order(fragments, unicode_map()[i].1);
    let table = fragment_char_map();
    lemma_lookup_finds(table, i);
}

/// Fragments that make a character are those of a line of the table with
/// that character, in some order. There is no character but those of the
/// table.
pub proof fn lemma_glyph_is_of_a_line(fragments: Seq<Fragment>)
    requires
        fragment_char(fragments).is_some(),
    ensures
        exists|i: int|
            0 <= i < 84 && (#[trigger] unicode_map()[i]).0 == fragment_char(fragments).unwrap()
                && unicode_map()[i].1.to_multiset() == fragments.to_multiset(),
{
    lemma_glyphs_differ();
    let table = fragment_char_map();
    lemma_lookup_found(table, canonical(fragments));
    let i = choose|i: int|
        0 <= i < table.len() && (#[trigger] table[i]).1 == canonical(fragments) && table[i].0
            == lookup(table, canonical(fragments)).unwrap();
    lemma_by_place_total::<Fragment>();
    fragments.lemma_sort_by_ensures(by_place::<Fragment>());
    unicode_map()[i].1.lemma_sort_by_ensures(by_place::<Fragment>());
}

} // verus!

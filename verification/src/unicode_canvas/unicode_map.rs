//! The table of glyphs: which fragments in a cell make which character.
use vstd::prelude::*;
use crate::unicode_canvas::fragment::{arc, line, thick, Cell, Fragment};
use crate::unicode_canvas::order::{canonical, lemma_canonical_ignores_order, sort};

verus! {

/// One line of the table as it is kept: a character and the fragments that
/// make it, in canonical order.
pub struct Entry {
    pub glyph: char,
    pub fragments: Vec<Fragment>,
}

impl View for Entry {
    type V = (char, Seq<Fragment>);

    open spec fn view(&self) -> (char, Seq<Fragment>) {
        (self.glyph, self.fragments@)
    }
}

/// The lines of a table as pairs of a character and its fragments.
pub open spec fn table_view(entries: Seq<Entry>) -> Seq<(char, Seq<Fragment>)> {
    entries.map_values(|e: Entry| e@)
}

/// Thin lines: ends, straight lines, corners, tees and the cross.
pub open spec fn thin_lines() -> Seq<(char, Seq<Fragment>)> {
    let c = Cell::C;
    let k = Cell::K;
    let m = Cell::M;
    let o = Cell::O;
    let w = Cell::W;
    seq![
        ('╴', seq![line(k, m)]),
        ('╵', seq![line(c, m)]),
        ('╶', seq![line(m, o)]),
        ('╷', seq![line(m, w)]),
        ('─', seq![line(k, m), line(m, o)]),
        ('│', seq![line(c, m), line(m, w)]),
        ('┌', seq![line(m, o), line(m, w)]),
        ('┐', seq![line(k, m), line(m, w)]),
        ('└', seq![line(c, m), line(m, o)]),
        ('┘', seq![line(c, m), line(k, m)]),
        ('┬', seq![line(k, m), line(m, o), line(m, w)]),
        ('┴', seq![line(k, m), line(m, o), line(c, m)]),
        ('├', seq![line(c, m), line(m, w), line(m, o)]),
        ('┤', seq![line(k, m), line(c, m), line(m, w)]),
        ('┼', seq![line(k, m), line(m, o), line(c, m), line(m, w)]),
    ]
}

/// Rounded corners.
pub open spec fn curves() -> Seq<(char, Seq<Fragment>)> {
    let c = Cell::C;
    let k = Cell::K;
    let o = Cell::O;
    let w = Cell::W;
    seq![
        ('╭', seq![arc(o, w)]),
        ('╮', seq![arc(w, k)]),
        ('╰', seq![arc(c, o)]),
        ('╯', seq![arc(k, c)]),
    ]
}

/// Thick lines: ends, straight lines, corners, tees and the cross.
pub open spec fn thick_lines() -> Seq<(char, Seq<Fragment>)> {
    let c = Cell::C;
    let k = Cell::K;
    let m = Cell::M;
    let o = Cell::O;
    let w = Cell::W;
    seq![
        ('╸', seq![thick(k, m)]),
        ('╹', seq![thick(c, m)]),
        ('╺', seq![thick(m, o)]),
        ('╻', seq![thick(m, w)]),
        ('┛', seq![thick(c, m), thick(k, m)]),
        ('┓', seq![thick(k, m), thick(m, w)]),
        ('━', seq![thick(k, m), thick(m, o)]),
        ('┃', seq![thick(c, m), thick(m, w)]),
        ('┗', seq![thick(c, m), thick(m, o)]),
        ('┻', seq![thick(c, m), thick(k, m), thick(m, o)]),
        ('┳', seq![thick(k, m), thick(m, o), thick(m, w)]),
        ('┣', seq![thick(c, m), thick(m, w), thick(m, o)]),
        ('┏', seq![thick(m, o), thick(m, w)]),
        ('┫', seq![thick(k, m), thick(c, m), thick(m, w)]),
        ('╋', seq![thick(c, m), thick(m, w), thick(k, m), thick(m, o)]),
    ]
}

/// Corners with one thin and one thick arm.
pub open spec fn mixed_corners() -> Seq<(char, Seq<Fragment>)> {
    let c = Cell::C;
    let k = Cell::K;
    let m = Cell::M;
    let o = Cell::O;
    let w = Cell::W;
    seq![
        ('┍', seq![thick(m, o), line(m, w)]),
        ('┎', seq![thick(m, w), line(m, o)]),
        ('┑', seq![thick(k, m), line(m, w)]),
        ('┒', seq![thick(m, w), line(k, m)]),
        ('┕', seq![thick(m, o), line(c, m)]),
        ('┖', seq![thick(c, m), line(m, o)]),
        ('┙', seq![thick(k, m), line(c, m)]),
        ('┚', seq![thick(c, m), line(k, m)]),
    ]
}

/// Tees on an upright bar, with thin and thick arms.
pub open spec fn upright_tees() -> Seq<(char, Seq<Fragment>)> {
    let c = Cell::C;
    let k = Cell::K;
    let m = Cell::M;
    let o = Cell::O;
    let w = Cell::W;
    seq![
        ('┝', seq![thick(m, o), line(c, m), line(m, w)]),
        ('┞', seq![thick(c, m), line(m, w), line(m, o)]),
        ('┟', seq![thick(m, w), line(c, m), line(m, o)]),
        ('┠', seq![thick(c, m), thick(m, w), line(m, o)]),
        ('┡', seq![thick(c, m), thick(m, o), line(m, w)]),
        ('┢', seq![thick(m, o), thick(m, w), line(c, m)]),
        ('┥', seq![thick(k, m), line(c, m), line(m, w)]),
        ('┦', seq![thick(c, m), line(k, m), line(m, w)]),
        ('┧', seq![thick(m, w), line(k, m), line(c, m)]),
        ('┨', seq![thick(c, m), thick(m, w), line(k, m)]),
        ('┩', seq![thick(k, m), thick(c, m), line(m, w)]),
        ('┪', seq![thick(k, m), thick(m, w), line(c, m)]),
    ]
}

/// Tees on a level bar, with thin and thick arms.
pub open spec fn level_tees() -> Seq<(char, Seq<Fragment>)> {
    let c = Cell::C;
    let k = Cell::K;
    let m = Cell::M;
    let o = Cell::O;
    let w = Cell::W;
    seq![
        ('┭', seq![thick(k, m), line(m, w), line(m, o)]),
        ('┮', seq![thick(m, o), line(k, m), line(m, w)]),
        ('┯', seq![thick(k, m), thick(m, o), line(m, w)]),
        ('┰', seq![thick(m, w), line(k, m), line(m, o)]),
        ('┱', seq![thick(k, m), thick(m, w), line(m, o)]),
        ('┲', seq![thick(m, o), thick(m, w), line(k, m)]),
        ('┵', seq![thick(k, m), line(c, m), line(m, o)]),
        ('┶', seq![thick(m, o), line(k, m), line(c, m)]),
        ('┷', seq![thick(k, m), thick(m, o), line(c, m)]),
        ('┸', seq![thick(c, m), line(k, m), line(m, o)]),
        ('┹', seq![thick(c, m), thick(k, m), line(m, o)]),
        ('┺', seq![thick(c, m), thick(m, o), line(k, m)]),
    ]
}

/// Crosses with thin and thick arms.
pub open spec fn crosses() -> Seq<(char, Seq<Fragment>)> {
    let c = Cell::C;
    let k = Cell::K;
    let m = Cell::M;
    let o = Cell::O;
    let w = Cell::W;
    seq![
        ('┽', seq![thick(k, m), line(c, m), line(m, w), line(m, o)]),
        ('┾', seq![thick(m, o), line(c, m), line(m, w), line(k, m)]),
        ('┿', seq![thick(k, m), thick(m, o), line(c, m), line(m, w)]),
        ('╀', seq![thick(c, m), line(k, m), line(m, o), line(m, w)]),
        ('╁', seq![thick(m, w), line(c, m), line(k, m), line(m, o)]),
        ('╂', seq![thick(c, m), thick(m, w), line(k, m), line(m, o)]),
        ('╃', seq![thick(k, m), thick(c, m), line(m, o), line(m, w)]),
        ('╄', seq![thick(c, m), thick(m, o), line(k, m), line(m, w)]),
        ('╅', seq![thick(k, m), thick(m, w), line(c, m), line(m, o)]),
        ('╆', seq![thick(m, w), thick(m, o), line(c, m), line(k, m)]),
        ('╇', seq![thick(c, m), thick(k, m), thick(m, o), line(m, w)]),
        ('╈', seq![thick(k, m), thick(m, o), thick(m, w), line(c, m)]),
        ('╉', seq![thick(k, m), thick(c, m), thick(m, w), line(m, o)]),
        ('╊', seq![thick(c, m), thick(m, w), thick(m, o), line(k, m)]),
    ]
}

/// Straight lines, one half thin and one half thick.
pub open spec fn joined_halves() -> Seq<(char, Seq<Fragment>)> {
    let c = Cell::C;
    let k = Cell::K;
    let m = Cell::M;
    let o = Cell::O;
    let w = Cell::W;
    seq![
        ('╼', seq![thick(m, o), line(k, m)]),
        ('╽', seq![thick(m, w), line(c, m)]),
        ('╾', seq![thick(k, m), line(m, o)]),
        ('╿', seq![thick(c, m), line(m, w)]),
    ]
}

/// The whole table as it is written down: each character with the
/// fragments that make it, in no particular order.
pub open spec fn unicode_map() -> Seq<(char, Seq<Fragment>)> {
    thin_lines() + curves() + thick_lines() + mixed_corners() + upright_tees() + level_tees()
        + crosses() + joined_halves()
}

/// A table with the fragments of every line put into canonical order.
pub open spec fn in_canonical_order(table: Seq<(char, Seq<Fragment>)>) -> Seq<
    (char, Seq<Fragment>),
> {
    table.map_values(|e: (char, Seq<Fragment>)| (e.0, canonical(e.1)))
}

/// The table as it is looked up in: from fragments in canonical order to
/// their character.
pub open spec fn fragment_char_map() -> Seq<(char, Seq<Fragment>)> {
    in_canonical_order(unicode_map())
}

/// The character that a table gives for fragments in canonical order: that
/// of the last line with these fragments, and none where no line has them.
pub open spec fn lookup(table: Seq<(char, Seq<Fragment>)>, key: Seq<Fragment>) -> Option<char>
    decreases table.len(),
{
    if table.len() == 0 {
        None
    } else if table.last().1 == key {
        Some(table.last().0)
    } else {
        lookup(table.drop_last(), key)
    }
}

/// The character for the fragments of a cell, in whatever order they are:
/// the one that the table gives for them in canonical order. The fragments
/// must be those of a line of the table exactly, no more and no fewer.
pub open spec fn fragment_char(fragments: Seq<Fragment>) -> Option<char> {
    lookup(fragment_char_map(), canonical(fragments))
}

/// The character of a cell does not depend on the order in which its
/// fragments were drawn: fragments that are the same, as often, make the
/// same character.
pub proof fn lemma_fragment_char_ignores_order(a: Seq<Fragment>, b: Seq<Fragment>)
    requires
        a.to_multiset() == b.to_multiset(),
    ensures
        fragment_char(a) == fragment_char(b),
{
    lemma_canonical_ignores_order(a, b);
}

/// Appends a line for `glyph` to the table.
fn push_entry(entries: &mut Vec<Entry>, glyph: char, fragments: Vec<Fragment>)
    ensures
        table_view(final(entries)@) == table_view(old(entries)@).push(
            (glyph, canonical(fragments@)),
        ),
{
    let sorted = sort(&fragments);
    entries.push(Entry { glyph, fragments: sorted });
}

/// One fragment.
fn one(a: Fragment) -> (v: Vec<Fragment>)
    ensures
        v@ == seq![a],
{
    let mut v: Vec<Fragment> = Vec::new();
    v.push(a);
    v
}

/// Two fragments.
fn two(a: Fragment, b: Fragment) -> (v: Vec<Fragment>)
    ensures
        v@ == seq![a, b],
{
    let mut v: Vec<Fragment> = Vec::new();
    v.push(a);
    v.push(b);
    v
}

/// Three fragments.
fn three(a: Fragment, b: Fragment, c: Fragment) -> (v: Vec<Fragment>)
    ensures
        v@ == seq![a, b, c],
{
    let mut v: Vec<Fragment> = Vec::new();
    v.push(a);
    v.push(b);
    v.push(c);
    v
}

/// Four fragments.
fn four(a: Fragment, b: Fragment, c: Fragment, d: Fragment) -> (v: Vec<Fragment>)
    ensures
        v@ == seq![a, b, c, d],
{
    let mut v: Vec<Fragment> = Vec::new();
    v.push(a);
    v.push(b);
    v.push(c);
    v.push(d);
    v
}

/// Appends the lines for the thin lines.
fn add_thin_lines(entries: &mut Vec<Entry>)
    ensures
        table_view(final(entries)@) == table_view(old(entries)@) + in_canonical_order(thin_lines()),
{
    let c = Cell::C;
    let k = Cell::K;
    let m = Cell::M;
    let o = Cell::O;
    let w = Cell::W;
    push_entry(entries, '╴', one(line(k, m)));
    push_entry(entries, '╵', one(line(c, m)));
    push_entry(entries, '╶', one(line(m, o)));
    push_entry(entries, '╷', one(line(m, w)));
    push_entry(entries, '─', two(line(k, m), line(m, o)));
    push_entry(entries, '│', two(line(c, m), line(m, w)));
    push_entry(entries, '┌', two(line(m, o), line(m, w)));
    push_entry(entries, '┐', two(line(k, m), line(m, w)));
    push_entry(entries, '└', two(line(c, m), line(m, o)));
    push_entry(entries, '┘', two(line(c, m), line(k, m)));
    push_entry(entries, '┬', three(line(k, m), line(m, o), line(m, w)));
    push_entry(entries, '┴', three(line(k, m), line(m, o), line(c, m)));
    push_entry(entries, '├', three(line(c, m), line(m, w), line(m, o)));
    push_entry(entries, '┤', three(line(k, m), line(c, m), line(m, w)));
    push_entry(entries, '┼', four(line(k, m), line(m, o), line(c, m), line(m, w)));
}

/// Appends the lines for the rounded corners.
fn add_curves(entries: &mut Vec<Entry>)
    ensures
        table_view(final(entries)@) == table_view(old(entries)@) + in_canonical_order(curves()),
{
    let c = Cell::C;
    let k = Cell::K;
    let o = Cell::O;
    let w = Cell::W;
    push_entry(entries, '╭', one(arc(o, w)));
    push_entry(entries, '╮', one(arc(w, k)));
    push_entry(entries, '╰', one(arc(c, o)));
    push_entry(entries, '╯', one(arc(k, c)));
}

/// Appends the lines for the thick lines.
fn add_thick_lines(entries: &mut Vec<Entry>)
    ensures
        table_view(final(entries)@) == table_view(old(entries)@) + in_canonical_order(
            thick_lines(),
        ),
{
    let c = Cell::C;
    let k = Cell::K;
    let m = Cell::M;
    let o = Cell::O;
    let w = Cell::W;
    push_entry(entries, '╸', one(thick(k, m)));
    push_entry(entries, '╹', one(thick(c, m)));
    push_entry(entries, '╺', one(thick(m, o)));
    push_entry(entries, '╻', one(thick(m, w)));
    push_entry(entries, '┛', two(thick(c, m), thick(k, m)));
    push_entry(entries, '┓', two(thick(k, m), thick(m, w)));
    push_entry(entries, '━', two(thick(k, m), thick(m, o)));
    push_entry(entries, '┃', two(thick(c, m), thick(m, w)));
    push_entry(entries, '┗', two(thick(c, m), thick(m, o)));
    push_entry(entries, '┻', three(thick(c, m), thick(k, m), thick(m, o)));
    push_entry(entries, '┳', three(thick(k, m), thick(m, o), thick(m, w)));
    push_entry(entries, '┣', three(thick(c, m), thick(m, w), thick(m, o)));
    push_entry(entries, '┏', two(thick(m, o), thick(m, w)));
    push_entry(entries, '┫', three(thick(k, m), thick(c, m), thick(m, w)));
    push_entry(entries, '╋', four(thick(c, m), thick(m, w), thick(k, m), thick(m, o)));
}

/// Appends the lines for the corners of thin and thick arms.
fn add_mixed_corners(entries: &mut Vec<Entry>)
    ensures
        table_view(final(entries)@) == table_view(old(entries)@) + in_canonical_order(
            mixed_corners(),
        ),
{
    let c = Cell::C;
    let k = Cell::K;
    let m = Cell::M;
    let o = Cell::O;
    let w = Cell::W;
    push_entry(entries, '┍', two(thick(m, o), line(m, w)));
    push_entry(entries, '┎', two(thick(m, w), line(m, o)));
    push_entry(entries, '┑', two(thick(k, m), line(m, w)));
    push_entry(entries, '┒', two(thick(m, w), line(k, m)));
    push_entry(entries, '┕', two(thick(m, o), line(c, m)));
    push_entry(entries, '┖', two(thick(c, m), line(m, o)));
    push_entry(entries, '┙', two(thick(k, m), line(c, m)));
    push_entry(entries, '┚', two(thick(c, m), line(k, m)));
}

/// Appends the lines for the tees on an upright bar.
fn add_upright_tees(entries: &mut Vec<Entry>)
    ensures
        table_view(final(entries)@) == table_view(old(entries)@) + in_canonical_order(
            upright_tees(),
        ),
{
    let c = Cell::C;
    let k = Cell::K;
    let m = Cell::M;
    let o = Cell::O;
    let w = Cell::W;
    push_entry(entries, '┝', three(thick(m, o), line(c, m), line(m, w)));
    push_entry(entries, '┞', three(thick(c, m), line(m, w), line(m, o)));
    push_entry(entries, '┟', three(thick(m, w), line(c, m), line(m, o)));
    push_entry(entries, '┠', three(thick(c, m), thick(m, w), line(m, o)));
    push_entry(entries, '┡', three(thick(c, m), thick(m, o), line(m, w)));
    push_entry(entries, '┢', three(thick(m, o), thick(m, w), line(c, m)));
    push_entry(entries, '┥', three(thick(k, m), line(c, m), line(m, w)));
    push_entry(entries, '┦', three(thick(c, m), line(k, m), line(m, w)));
    push_entry(entries, '┧', three(thick(m, w), line(k, m), line(c, m)));
    push_entry(entries, '┨', three(thick(c, m), thick(m, w), line(k, m)));
    push_entry(entries, '┩', three(thick(k, m), thick(c, m), line(m, w)));
    push_entry(entries, '┪', three(thick(k, m), thick(m, w), line(c, m)));
}

/// Appends the lines for the tees on a level bar.
fn add_level_tees(entries: &mut Vec<Entry>)
    ensures
        table_view(final(entries)@) == table_view(old(entries)@) + in_canonical_order(level_tees()),
{
    let c = Cell::C;
    let k = Cell::K;
    let m = Cell::M;
    let o = Cell::O;
    let w = Cell::W;
    push_entry(entries, '┭', three(thick(k, m), line(m, w), line(m, o)));
    push_entry(entries, '┮', three(thick(m, o), line(k, m), line(m, w)));
    push_entry(entries, '┯', three(thick(k, m), thick(m, o), line(m, w)));
    push_entry(entries, '┰', three(thick(m, w), line(k, m), line(m, o)));
    push_entry(entries, '┱', three(thick(k, m), thick(m, w), line(m, o)));
    push_entry(entries, '┲', three(thick(m, o), thick(m, w), line(k, m)));
    push_entry(entries, '┵', three(thick(k, m), line(c, m), line(m, o)));
    push_entry(entries, '┶', three(thick(m, o), line(k, m), line(c, m)));
    push_entry(entries, '┷', three(thick(k, m), thick(m, o), line(c, m)));
    push_entry(entries, '┸', three(thick(c, m), line(k, m), line(m, o)));
    push_entry(entries, '┹', three(thick(c, m), thick(k, m), line(m, o)));
    push_entry(entries, '┺', three(thick(c, m), thick(m, o), line(k, m)));
}

/// Appends the lines for the crosses of thin and thick arms.
fn add_crosses(entries: &mut Vec<Entry>)
    ensures
        table_view(final(entries)@) == table_view(old(entries)@) + in_canonical_order(crosses()),
{
    let c = Cell::C;
    let k = Cell::K;
    let m = Cell::M;
    let o = Cell::O;
    let w = Cell::W;
    push_entry(entries, '┽', four(thick(k, m), line(c, m), line(m, w), line(m, o)));
    push_entry(entries, '┾', four(thick(m, o), line(c, m), line(m, w), line(k, m)));
    push_entry(entries, '┿', four(thick(k, m), thick(m, o), line(c, m), line(m, w)));
    push_entry(entries, '╀', four(thick(c, m), line(k, m), line(m, o), line(m, w)));
    push_entry(entries, '╁', four(thick(m, w), line(c, m), line(k, m), line(m, o)));
    push_entry(entries, '╂', four(thick(c, m), thick(m, w), line(k, m), line(m, o)));
    push_entry(entries, '╃', four(thick(k, m), thick(c, m), line(m, o), line(m, w)));
    push_entry(entries, '╄', four(thick(c, m), thick(m, o), line(k, m), line(m, w)));
    push_entry(entries, '╅', four(thick(k, m), thick(m, w), line(c, m), line(m, o)));
    push_entry(entries, '╆', four(thick(m, w), thick(m, o), line(c, m), line(k, m)));
    push_entry(entries, '╇', four(thick(c, m), thick(k, m), thick(m, o), line(m, w)));
    push_entry(entries, '╈', four(thick(k, m), thick(m, o), thick(m, w), line(c, m)));
    push_entry(entries, '╉', four(thick(k, m), thick(c, m), thick(m, w), line(m, o)));
    push_entry(entries, '╊', four(thick(c, m), thick(m, w), thick(m, o), line(k, m)));
}

/// Appends the lines for the lines of a thin and a thick half.
fn add_joined_halves(entries: &mut Vec<Entry>)
    ensures
        table_view(final(entries)@) == table_view(old(entries)@) + in_canonical_order(
            joined_halves(),
        ),
{
    let c = Cell::C;
    let k = Cell::K;
    let m = Cell::M;
    let o = Cell::O;
    let w = Cell::W;
    push_entry(entries, '╼', two(thick(m, o), line(k, m)));
    push_entry(entries, '╽', two(thick(m, w), line(c, m)));
    push_entry(entries, '╾', two(thick(k, m), line(m, o)));
    push_entry(entries, '╿', two(thick(c, m), line(m, w)));
}

/// Whether two lists hold the same fragments in the same order.
fn same_fragments(a: &Vec<Fragment>, b: &Vec<Fragment>) -> (same: bool)
    ensures
        same == (a@ == b@),
{
    if a.len() != b.len() {
        return false;
    }
    let mut i: usize = 0;
    while i < a.len()
        invariant
            a@.len() == b@.len(),
            i <= a@.len(),
            forall|j: int| 0 <= j < i ==> a@[j] == b@[j],
        decreases a@.len() - i,
    {
        if a[i] != b[i] {
            return false;
        }
        i = i + 1;
    }
    assert(a@ =~= b@);
    true
}

/// The table of glyphs, built once and then only read.
pub struct FragmentTable {
    entries: Vec<Entry>,
}

impl FragmentTable {
    /// Every table is the one table.
    #[verifier::type_invariant]
    spec fn well_formed(self) -> bool {
        table_view(self.entries@) == fragment_char_map()
    }

    /// The lines of the table.
    pub closed spec fn view(&self) -> Seq<(char, Seq<Fragment>)> {
        table_view(self.entries@)
    }

    /// Builds the table.
    pub fn new() -> (table: FragmentTable)
        ensures
            table@ == fragment_char_map(),
    {
        let mut entries: Vec<Entry> = Vec::new();
        add_thin_lines(&mut entries);
        add_curves(&mut entries);
        add_thick_lines(&mut entries);
        add_mixed_corners(&mut entries);
        add_upright_tees(&mut entries);
        add_level_tees(&mut entries);
        add_crosses(&mut entries);
        add_joined_halves(&mut entries);
        assert(table_view(entries@) =~= fragment_char_map());
        FragmentTable { entries }
    }

    /// The character that stands for the fragments of a cell, where the
    /// table holds one for exactly these fragments; their order does not
    /// matter.
    pub fn resolve(&self, fragments: &Vec<Fragment>) -> (glyph: Option<char>)
        ensures
            glyph == fragment_char(fragments@),
    {
        proof {
            use_type_invariant(self);
        }
        let key = sort(fragments);
        let mut i: usize = self.entries.len();
        assert(table_view(self.entries@).take(i as int) =~= fragment_char_map());
        while i > 0
            invariant
                i <= self.entries@.len(),
                key@ == canonical(fragments@),
                lookup(table_view(self.entries@).take(i as int), key@) == fragment_char(
                    fragments@,
                ),
            decreases i,
        {
            let ghost prefix = table_view(self.entries@).take(i as int);
            assert(prefix.drop_last() =~= table_view(self.entries@).take(i as int - 1));
            i = i - 1;
            if same_fragments(&self.entries[i].fragments, &key) {
                return Some(self.entries[i].glyph);
            }
        }
        None
    }
}

} // verus!

//! A page of characters that grows as characters are put on it.
use vstd::prelude::*;

verus! {

/// Whether a character is white space: one of the characters to which
/// Unicode gives the property `White_Space`.
pub open spec fn is_white_space(c: char) -> bool {
    let code = c as u32;
    ||| 0x09 <= code <= 0x0d
    ||| code == 0x20
    ||| code == 0x85
    ||| code == 0xa0
    ||| code == 0x1680
    ||| 0x2000 <= code <= 0x200a
    ||| code == 0x2028
    ||| code == 0x2029
    ||| code == 0x202f
    ||| code == 0x205f
    ||| code == 0x3000
}

/// A row without the white space at its end.
pub open spec fn trim_end(row: Seq<char>) -> Seq<char>
    decreases row.len(),
{
    if row.len() > 0 && is_white_space(row.last()) {
        trim_end(row.drop_last())
    } else {
        row
    }
}

/// The text of a row: its characters but the null characters, without the
/// white space at the end.
pub open spec fn line_of(row: Seq<char>) -> Seq<char> {
    trim_end(row.filter(|c: char| c != '\0'))
}

/// The text of a page: the text of its rows, with a line break between two
/// rows.
pub open spec fn text_of_rows(rows: Seq<Seq<char>>) -> Seq<char>
    decreases rows.len(),
{
    if rows.len() == 0 {
        Seq::empty()
    } else if rows.len() == 1 {
        line_of(rows[0])
    } else {
        text_of_rows(rows.drop_last()).push('\n') + line_of(rows.last())
    }
}

/// `n` empty rows.
pub open spec fn empty_rows(n: int) -> Seq<Seq<char>> {
    Seq::new(n as nat, |i: int| Seq::<char>::empty())
}

/// `n` spaces.
pub open spec fn spaces(n: int) -> Seq<char> {
    Seq::new(n as nat, |i: int| ' ')
}

/// The rows with as many empty rows behind them as it takes to have a row
/// `y`.
pub open spec fn with_row(rows: Seq<Seq<char>>, y: int) -> Seq<Seq<char>> {
    if y >= rows.len() {
        rows + empty_rows(y + 1 - rows.len())
    } else {
        rows
    }
}

/// The row with as many spaces behind it as it takes to have a column `x`.
pub open spec fn with_column(row: Seq<char>, x: int) -> Seq<char> {
    if x >= row.len() {
        row + spaces(x + 1 - row.len())
    } else {
        row
    }
}

/// The page after `ch` is put in column `x` of row `y`: the page grows by
/// empty rows until it has the row and the row by spaces until it has the
/// column; then the character takes its place.
pub open spec fn char_put(rows: Seq<Seq<char>>, x: int, y: int, ch: char) -> Seq<Seq<char>> {
    let grown = with_row(rows, y);
    grown.update(y, with_column(grown[y], x).update(x, ch))
}

/// The page after `ch` is added at column `x` of row `y`: it is put there
/// where neither `x` nor `y` is negative, and left out else.
pub open spec fn char_added(rows: Seq<Seq<char>>, x: int, y: int, ch: char) -> Seq<Seq<char>> {
    if x >= 0 && y >= 0 {
        char_put(rows, x, y, ch)
    } else {
        rows
    }
}

/// Whether a character is white space.
pub fn is_blank(c: char) -> (blank: bool)
    ensures
        blank == is_white_space(c),
{
    let code = c as u32;
    (0x09 <= code && code <= 0x0d) || code == 0x20 || code == 0x85 || code == 0xa0 || code
        == 0x1680 || (0x2000 <= code && code <= 0x200a) || code == 0x2028 || code == 0x2029
        || code == 0x202f || code == 0x205f || code == 0x3000
}

/// A page of characters. Rows need not be of one length, and a page has no
/// more rows and a row no more columns than were written to.
pub struct StringBuffer {
    rows: Vec<Vec<char>>,
}

impl View for StringBuffer {
    type V = Seq<Seq<char>>;

    closed spec fn view(&self) -> Seq<Seq<char>> {
        self.rows@.map_values(|row: Vec<char>| row@)
    }
}

impl StringBuffer {
    /// A page without rows.
    pub fn new() -> (buffer: StringBuffer)
        ensures
            buffer@ == Seq::<Seq<char>>::empty(),
    {
        let buffer = StringBuffer { rows: Vec::new() };
        buffer
    }

    /// Number of rows.
    pub fn len(&self) -> (n: usize)
        ensures
            n == self@.len(),
    {
        self.rows.len()
    }

    /// Adds `n` empty rows at the end.
    pub fn add_rows(&mut self, n: usize)
        ensures
            final(self)@ == old(self)@ + empty_rows(n as int),
    {
        let mut i: usize = 0;
        while i < n
            invariant
                i <= n,
                self@ == old(self)@ + empty_rows(i as int),
            decreases n - i,
        {
            let ghost before = self@;
            self.rows.push(Vec::new());
            assert(self@ =~= before.push(Seq::<char>::empty()));
            i = i + 1;
        }
    }

    /// Adds `n` spaces at the end of the given row.
    pub fn add_column(&mut self, row: usize, n: usize)
        requires
            row < old(self)@.len(),
        ensures
            final(self)@ == old(self)@.update(
                row as int,
                old(self)@[row as int] + spaces(n as int),
            ),
    {
        let mut i: usize = 0;
        while i < n
            invariant
                i <= n,
                row < old(self)@.len(),
                self@ == old(self)@.update(row as int, old(self)@[row as int] + spaces(i as int)),
            decreases n - i,
        {
            let ghost before = self@;
            assert(self.rows@.len() == self@.len());
            self.rows[row].push(' ');
            assert(self@ =~= before.update(row as int, before[row as int].push(' ')));
            assert(before[row as int].push(' ') =~= old(self)@[row as int] + spaces(i as int + 1));
            i = i + 1;
        }
    }

    /// Puts `ch` in column `x` of row `y`. Nothing happens where `x` or `y`
    /// is negative.
    pub fn add_char(&mut self, x: i32, y: i32, ch: char)
        ensures
            final(self)@ == char_added(old(self)@, x as int, y as int, ch),
    {
        if x >= 0 && y >= 0 {
            let row_index = y as usize;
            let column_index = x as usize;
            let rows = self.rows.len();
            if row_index >= rows {
                self.add_rows(row_index - rows + 1);
            }
            let ghost grown = self@;
            assert(grown == with_row(old(self)@, y as int));
            let columns = self.rows[row_index].len();
            if column_index >= columns {
                self.add_column(row_index, column_index - columns + 1);
            }
            let ghost wide = self@;
            assert(wide == grown.update(y as int, with_column(grown[y as int], x as int)));
            assert(self.rows@[y as int]@ == wide[y as int]);
            self.rows[row_index][column_index] = ch;
            assert(self@ =~= wide.update(y as int, wide[y as int].update(x as int, ch)));
        }
    }

    /// The text of the page.
    pub fn to_string(&self) -> (text: String)
        ensures
            text@ == text_of_rows(self@),
    {
        let mut text = String::new();
        let mut i: usize = 0;
        while i < self.rows.len()
            invariant
                i <= self.rows@.len(),
                text@ == text_of_rows(self@.take(i as int)),
            decreases self.rows@.len() - i,
        {
            let ghost prefix = self@.take(i as int + 1);
            assert(prefix.drop_last() =~= self@.take(i as int));
            if i > 0 {
                text.push('\n');
            }
            let row = &self.rows[i];
            // The row without null characters.
            let mut kept: Vec<char> = Vec::new();
            let mut j: usize = 0;
            while j < row.len()
                invariant
                    j <= row@.len(),
                    kept@ == row@.take(j as int).filter(|c: char| c != '\0'),
                decreases row@.len() - j,
            {
                let ghost part = row@.take(j as int + 1);
                assert(part.drop_last() =~= row@.take(j as int));
                if row[j] != '\0' {
                    kept.push(row[j]);
                }
                reveal_with_fuel(Seq::filter, 2);
                j = j + 1;
            }
            assert(row@.take(j as int) =~= row@);
            // Where the white space at its end begins.
            let mut end: usize = kept.len();
            assert(kept@.take(end as int) =~= kept@);
            while end > 0 && is_blank(kept[end - 1])
                invariant
                    end <= kept@.len(),
                    trim_end(kept@.take(end as int)) == trim_end(kept@),
                decreases end,
            {
                assert(kept@.take(end as int).drop_last() =~= kept@.take(end as int - 1));
                end = end - 1;
            }
            let ghost before = text@;
            let mut k: usize = 0;
            while k < end
                invariant
                    k <= end <= kept@.len(),
                    text@ == before + kept@.take(k as int),
                decreases end - k,
            {
                text.push(kept[k]);
                k = k + 1;
            }
            i = i + 1;
        }
        assert(self@.take(i as int) =~= self@);
        text
    }
}

} // verus!

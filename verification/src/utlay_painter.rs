//! Text canvas for ticket layout records.
//!
//! A layout record places a block of text at a line and column of a page;
//! the canvas grows on demand and keeps every painted character. The
//! painting itself is specified by [`spec_paint`]: a left-to-right walk
//! over the text that fixes every written cell and leaves all others as
//! they were.

use vstd::prelude::*;
use vstd::string::StrSliceExecFns;

verus! {

/// One positioned text field of a layout record.
#[derive(Clone, Debug, PartialEq, Eq)]
pub struct Record {
    pub line: usize,
    pub column: usize,
    pub width: usize,
    pub height: usize,
    pub text: String,
}

/// A grid of characters, grown on demand while fields are painted on it.
#[derive(Debug)]
pub struct Canvas {
    canvas: Vec<Vec<char>>,
}

impl View for Canvas {
    type V = Seq<Seq<char>>;

    closed spec fn view(&self) -> Seq<Seq<char>> {
        self.canvas.deep_view()
    }
}

/// The rows extended with empty rows until the given line exists.
pub open spec fn spec_grow(rows: Seq<Seq<char>>, line: int) -> Seq<Seq<char>> {
    if rows.len() > line {
        rows
    } else {
        rows + Seq::new((line + 1 - rows.len()) as nat, |i: int| Seq::<char>::empty())
    }
}

/// The row extended with blanks until the given column exists.
pub open spec fn spec_pad(row: Seq<char>, column: int) -> Seq<char> {
    if row.len() > column {
        row
    } else {
        row + Seq::new((column + 1 - row.len()) as nat, |i: int| ' ')
    }
}

/// One character written into an existing row, the row padded with blanks
/// up to its column first; every other cell keeps its value.
pub open spec fn spec_put(rows: Seq<Seq<char>>, line: int, column: int, c: char) -> Seq<
    Seq<char>,
> {
    rows.update(line, spec_pad(rows[line], column).update(column, c))
}

/// The walk over the text: each character lands at the current line and
/// column, and a newline moves to the next line's home column, creating
/// the row.
pub open spec fn spec_paint_from(
    rows: Seq<Seq<char>>,
    line: int,
    column: int,
    home: int,
    text: Seq<char>,
) -> Seq<Seq<char>>
    decreases text.len(),
{
    if text.len() == 0 {
        rows
    } else if text[0] == '\n' {
        spec_paint_from(spec_grow(rows, line + 1), line + 1, home, home, text.drop_first())
    } else {
        spec_paint_from(spec_put(rows, line, column, text[0]), line, column + 1, home,
            text.drop_first())
    }
}

/// A record's text painted at its line and column: the starting row is
/// created, then the text is walked character by character.
pub open spec fn spec_paint(rows: Seq<Seq<char>>, line: int, column: int, text: Seq<char>) -> Seq<
    Seq<char>,
> {
    spec_paint_from(spec_grow(rows, line), line, column, column, text)
}

impl Canvas {
    /// An empty canvas.
    pub fn new() -> (r: Self)
        ensures
            r@.len() == 0,
    {
        Self { canvas: Vec::new() }
    }

    /// The number of rows painted so far.
    pub fn height(&self) -> (r: usize)
        ensures
            r == self@.len(),
    {
        self.canvas.len()
    }

    /// The width of the widest row.
    pub open spec fn spec_width(rows: Seq<Seq<char>>) -> int
        decreases rows.len(),
    {
        if rows.len() == 0 {
            0
        } else {
            let rest = Self::spec_width(rows.drop_last());
            if rows.last().len() > rest {
                rows.last().len() as int
            } else {
                rest
            }
        }
    }

    /// The width of the widest row painted so far.
    pub fn width(&self) -> (r: usize)
        ensures
            r == Self::spec_width(self@),
    {
        let mut best: usize = 0;
        let mut i: usize = 0;
        while i < self.canvas.len()
            invariant
                0 <= i <= self.canvas@.len(),
                self@.len() == self.canvas@.len(),
                best == Self::spec_width(self@.take(i as int)),
            decreases self.canvas@.len() - i,
        {
            let row_len = self.canvas[i].len();
            proof {
                assert(self@.take(i + 1).drop_last() =~= self@.take(i as int));
                assert(self@[i as int] =~= self.canvas@[i as int]@);
            }
            if row_len > best {
                best = row_len;
            }
            i += 1;
        }
        proof {
            assert(self@.take(self@.len() as int) =~= self@);
        }
        best
    }

    /// Paints one record's text onto the canvas, exactly as [`spec_paint`]
    /// says: each line of the text goes to its own row starting at the
    /// record's line, each starting at the record's column, rows and cells
    /// created on demand with blank filler, every untouched cell keeping
    /// its value. The canvas never shrinks and afterwards reaches past the
    /// record's line.
    pub fn paint_record(&mut self, record: &Record)
        requires
            record.line + record.text@.len() < usize::MAX,
            record.column + record.text@.len() < usize::MAX,
        ensures
            final(self)@ == spec_paint(
                old(self)@,
                record.line as int,
                record.column as int,
                record.text@,
            ),
            final(self)@.len() >= old(self)@.len(),
            final(self)@.len() > record.line,
    {
        let text_len = record.text.unicode_len();
        let mut line_index = record.line;
        let mut column_index = record.column;
        self.grow_to_line(line_index);
        proof {
            assert(record.text@.skip(0) =~= record.text@);
        }
        let mut i: usize = 0;
        while i < text_len
            invariant
                text_len == record.text@.len(),
                record.line + text_len < usize::MAX,
                record.column + text_len < usize::MAX,
                0 <= i <= text_len,
                record.line <= line_index <= record.line + i,
                record.column <= column_index <= record.column + i,
                self@.len() >= old(self)@.len(),
                self@.len() > line_index,
                self@.len() > record.line,
                spec_paint_from(
                    self@,
                    line_index as int,
                    column_index as int,
                    record.column as int,
                    record.text@.skip(i as int),
                ) == spec_paint(
                    old(self)@,
                    record.line as int,
                    record.column as int,
                    record.text@,
                ),
            decreases text_len - i,
        {
            let c = record.text.get_char(i);
            proof {
                assert(record.text@.skip(i as int).drop_first() =~= record.text@.skip(i + 1));
            }
            if c == '\n' {
                line_index += 1;
                column_index = record.column;
                self.grow_to_line(line_index);
            } else {
                self.put_char(line_index, column_index, c);
                column_index += 1;
            }
            i += 1;
        }
        proof {
            assert(record.text@.skip(text_len as int) =~= Seq::<char>::empty());
        }
    }

    /// Makes sure the row with the given index exists.
    fn grow_to_line(&mut self, line_index: usize)
        ensures
            final(self)@ == spec_grow(old(self)@, line_index as int),
            final(self)@.len() > line_index,
            final(self)@.len() >= old(self)@.len(),
    {
        while self.canvas.len() <= line_index
            invariant
                old(self)@.len() <= self@.len() <= vstd::math::max(
                    old(self)@.len() as int,
                    line_index + 1,
                ),
                self@ == old(self)@ + Seq::new(
                    (self@.len() - old(self)@.len()) as nat,
                    |i: int| Seq::<char>::empty(),
                ),
            decreases line_index + 1 - self.canvas@.len(),
        {
            let ghost prev = self@;
            self.canvas.push(Vec::new());
            proof {
                assert(self@ =~~= prev.push(Seq::<char>::empty()));
                assert(self@ =~= old(self)@ + Seq::new(
                    (self@.len() - old(self)@.len()) as nat,
                    |i: int| Seq::<char>::empty(),
                ));
            }
        }
        proof {
            if old(self)@.len() > line_index {
                assert(self@ =~= old(self)@);
            }
            assert(self@ =~= spec_grow(old(self)@, line_index as int));
        }
    }

    /// Writes one character into an existing row, padding the row with
    /// blanks up to the column first.
    fn put_char(&mut self, line_index: usize, column_index: usize, c: char)
        requires
            line_index < old(self)@.len(),
            column_index < usize::MAX,
        ensures
            final(self)@ == spec_put(old(self)@, line_index as int, column_index as int, c),
            final(self)@.len() == old(self)@.len(),
    {
        let ghost row0: Seq<char> = old(self)@[line_index as int];
        let row = &mut self.canvas[line_index];
        proof {
            assert(row@ =~= row0);
        }
        while row.len() <= column_index
            invariant
                column_index < usize::MAX,
                row0.len() <= row@.len() <= vstd::math::max(row0.len() as int, column_index + 1),
                row@ == row0 + Seq::new((row@.len() - row0.len()) as nat, |i: int| ' '),
            decreases column_index + 1 - row@.len(),
        {
            let ghost prev = row@;
            row.push(' ');
            proof {
                assert(row@ =~= prev.push(' '));
                assert(row@ =~= row0 + Seq::new((row@.len() - row0.len()) as nat, |i: int| ' '));
            }
        }
        proof {
            if row0.len() > column_index {
                assert(row@ =~= row0);
            }
            assert(row@ =~= spec_pad(row0, column_index as int));
        }
        row[column_index] = c;
        proof {
            assert(self.canvas@[line_index as int]@ =~= spec_pad(
                row0,
                column_index as int,
            ).update(column_index as int, c));
            assert(self@ =~~= spec_put(old(self)@, line_index as int, column_index as int, c));
        }
    }

    /// The rows painted so far.
    pub fn as_vec(&self) -> (r: &Vec<Vec<char>>)
        ensures
            r.deep_view() == self@,
    {
        &self.canvas
    }
}

/// The letter naming a row of the layout: `A` for the first row and so on,
/// or a blank past the alphabet.
pub fn row_to_letter(row: usize) -> (r: char)
    ensures
        row > 26 ==> r == ' ',
        row <= 26 ==> r == ((65 + row) as u8) as char,
{
    if row > 26 {
        return ' ';
    }
    ((65 + row) as u8) as char
}

} // verus!

//! The board as text.

use vstd::prelude::*;

use crate::board::{Cells, AREA};
use crate::coords::column_letter;
use crate::goban::{Color, Game, Point, COLS, SIZE};
use crate::text::{decimal, push_decimal};

verus! {

/// The handicap or star points lie where these lines cross.
pub open spec fn star_line(n: int) -> bool {
    n == 3 || n == 9 || n == 15
}

/// `X` black, `O` white, `+` star point, `.` empty.
pub open spec fn glyph(cells: Cells, row: int, col: int) -> char {
    match cells[row * SIZE + col] {
        Some(Color::Black) => 'X',
        Some(Color::White) => 'O',
        None => if star_line(row) && star_line(col) {
            '+'
        } else {
            '.'
        },
    }
}

/// The column letters with a space between them.
pub open spec fn header() -> Seq<char> {
    Seq::new(
        37,
        |i: int|
            if i % 2 == 0 {
                column_letter(i / 2)
            } else {
                ' '
            },
    )
}

/// What stands on a row, with a space between the points.
pub open spec fn row_cells(cells: Cells, row: int) -> Seq<char> {
    Seq::new(
        37,
        |i: int|
            if i % 2 == 0 {
                glyph(cells, row, i / 2)
            } else {
                ' '
            },
    )
}

/// A row number, right-aligned in two places.
pub open spec fn label(n: nat) -> Seq<char> {
    if n < 10 {
        seq![' '] + decimal(n)
    } else {
        decimal(n)
    }
}

/// One row between its two labels.
pub open spec fn row_line(cells: Cells, row: int) -> Seq<char> {
    let n = label((SIZE - row) as nat);
    n + seq![' '] + row_cells(cells, row) + seq![' '] + n + seq!['\n']
}

/// The first `n` rows.
pub open spec fn rows_text(cells: Cells, n: nat) -> Seq<char>
    decreases n,
{
    if n == 0 {
        Seq::empty()
    } else {
        rows_text(cells, (n - 1) as nat) + row_line(cells, n - 1)
    }
}

/// The board with coordinates on all four sides.
pub open spec fn board_text(cells: Cells) -> Seq<char> {
    "   "@ + header() + seq!['\n'] + rows_text(cells, SIZE as nat) + "   "@ + header()
}

impl Point {
    fn is_star(self) -> (r: bool)
        ensures
            r == (star_line(self.row as int) && star_line(self.col as int)),
    {
        (self.row == 3 || self.row == 9 || self.row == 15) && (self.col == 3 || self.col == 9
            || self.col == 15)
    }
}

fn push_header(out: &mut String)
    ensures
        final(out)@ == old(out)@ + header(),
{
    let ghost start = out@;
    proof {
        crate::coords::lemma_columns();
    }
    let mut col: usize = 0;
    while col < SIZE
        invariant
            col <= SIZE,
            forall|i: int| 0 <= i < 19 ==> #[trigger] COLS@[i] as char == column_letter(i),
            out@ == start + header().take(if col == 0 {
                0
            } else {
                2 * col - 1
            }),
        decreases SIZE - col,
    {
        if col > 0 {
            out.push(' ');
        }
        out.push(COLS[col] as char);
        assert(out@ =~= start + header().take(2 * (col + 1) - 1));
        col += 1;
    }
    assert(header().take(37) =~= header());
}

fn push_label(out: &mut String, n: usize)
    ensures
        final(out)@ == old(out)@ + label(n as nat),
{
    let ghost start = out@;
    if n < 10 {
        out.push(' ');
    }
    push_decimal(out, n as u64);
    assert(out@ =~= start + label(n as nat));
}

impl Game {
    fn push_row(&self, out: &mut String, row: usize)
        requires
            self.wf(),
            row < SIZE,
        ensures
            final(out)@ == old(out)@ + row_line(self@.cells, row as int),
    {
        let ghost cells = self@.cells;
        let ghost start = out@;
        push_label(out, SIZE - row);
        out.push(' ');
        let ghost lead = out@;
        let ghost line = row_cells(cells, row as int);
        let mut col: usize = 0;
        while col < SIZE
            invariant
                self.wf(),
                cells == self@.cells,
                row < SIZE,
                col <= SIZE,
                line == row_cells(cells, row as int),
                out@ == lead + line.take(if col == 0 {
                    0
                } else {
                    2 * col - 1
                }),
            decreases SIZE - col,
        {
            let p = Point { row, col };
            if col > 0 {
                out.push(' ');
            }
            let c = match self.at(p) {
                Some(Color::Black) => 'X',
                Some(Color::White) => 'O',
                None => if p.is_star() {
                    '+'
                } else {
                    '.'
                },
            };
            out.push(c);
            assert(out@ =~= lead + line.take(2 * (col + 1) - 1));
            col += 1;
        }
        assert(line.take(37) =~= line);
        out.push(' ');
        push_label(out, SIZE - row);
        out.push('\n');
        assert(out@ =~= start + row_line(cells, row as int));
    }

    /// Render with coordinates on all four sides. `X` black, `O` white, `+`
    /// star point, `.` empty.
    pub fn render_board(&self) -> (r: String)
        requires
            self.wf(),
        ensures
            r@ == board_text(self@.cells),
    {
        let ghost cells = self@.cells;
        let mut out = "   ".to_owned();
        push_header(&mut out);
        out.push('\n');
        let ghost top = "   "@ + header() + seq!['\n'];
        assert(out@ =~= top + rows_text(cells, 0));
        let mut row: usize = 0;
        while row < SIZE
            invariant
                self.wf(),
                cells == self@.cells,
                row <= SIZE,
                out@ == top + rows_text(cells, row as nat),
            decreases SIZE - row,
        {
            self.push_row(&mut out, row);
            assert(out@ =~= top + rows_text(cells, (row + 1) as nat));
            row += 1;
        }
        out.append("   ");
        push_header(&mut out);
        assert(out@ =~= board_text(cells));
        out
    }
}

// ---------------------------------------------------------------------------
// Where things stand in the text
// ---------------------------------------------------------------------------

proof fn lemma_label(n: nat)
    requires
        n < 100,
    ensures
        label(n).len() == 2,
{
    reveal_with_fuel(decimal, 2);
}

proof fn lemma_rows_text(cells: Cells, n: nat, row: int)
    requires
        n <= SIZE,
        0 <= row < n,
    ensures
        rows_text(cells, n).len() == 44 * n,
        rows_text(cells, n).subrange(44 * row, 44 * row + 44) == row_line(cells, row),
    decreases n,
{
    lemma_rows_len(cells, n);
    lemma_rows_len(cells, (n - 1) as nat);
    if row < n - 1 {
        lemma_rows_text(cells, (n - 1) as nat, row);
        assert(rows_text(cells, n).subrange(44 * row, 44 * row + 44) =~= rows_text(
            cells,
            (n - 1) as nat,
        ).subrange(44 * row, 44 * row + 44));
    } else {
        lemma_label((SIZE - row) as nat);
        assert(rows_text(cells, n).subrange(44 * row, 44 * row + 44) =~= row_line(cells, row));
    }
}

proof fn lemma_rows_len(cells: Cells, n: nat)
    requires
        n <= SIZE,
    ensures
        rows_text(cells, n).len() == 44 * n,
    decreases n,
{
    if n > 0 {
        lemma_rows_len(cells, (n - 1) as nat);
        lemma_label((SIZE - (n - 1)) as nat);
    }
}

/// Every point is drawn in the line that carries its row number, under the
/// letter of its column.
#[verifier::rlimit(40)]
pub proof fn law_points_are_drawn_where_they_are_labeled(cells: Cells, p: Point)
    requires
        cells.len() == AREA,
        p.on_board(),
    ensures
        board_text(cells).len() == 917,
        board_text(cells)[3 + 2 * p.col] == column_letter(p.col as int),
        board_text(cells).subrange(41 + 44 * p.row, 43 + 44 * p.row) == label(
            (SIZE - p.row) as nat,
        ),
        board_text(cells)[44 + 44 * p.row + 2 * p.col] == glyph(cells, p.row as int, p.col as int),
{
    reveal_strlit("   ");
    let text = board_text(cells);
    let rows = rows_text(cells, SIZE as nat);
    lemma_rows_text(cells, SIZE as nat, p.row as int);
    lemma_label((SIZE - p.row) as nat);
    let line = row_line(cells, p.row as int);
    assert(text.subrange(41, 877) =~= rows);
    assert forall|i: int| 0 <= i < 44 implies text[41 + 44 * p.row + i] == #[trigger] line[i] by {
        assert(rows.subrange(44 * p.row, 44 * p.row + 44)[i] == line[i]);
        assert(text.subrange(41, 877)[44 * p.row + i] == rows[44 * p.row + i]);
    }
    assert(line[3 + 2 * p.col] == row_cells(cells, p.row as int)[2 * p.col as int]);
    assert(text.subrange(41 + 44 * p.row, 43 + 44 * p.row) =~= label((SIZE - p.row) as nat)) by {
        assert(line[0] == label((SIZE - p.row) as nat)[0]);
        assert(line[1] == label((SIZE - p.row) as nat)[1]);
    }
    assert(text[3 + 2 * p.col] == header()[2 * p.col as int]);
}

/// The letters that stand above the board stand below it as well, and every row
/// has its number at both ends, with the same distance to the board.
pub proof fn law_the_frame_is_the_same_on_both_sides(cells: Cells, row: int, i: int)
    requires
        0 <= row < 19,
        0 <= i < 40,
    ensures
        board_text(cells)[i] == board_text(cells)[877 + i],
        i < 3 ==> board_text(cells)[i] == ' ',
        i < 2 ==> board_text(cells)[41 + 44 * row + i] == board_text(cells)[82 + 44 * row + i],
{
    reveal_strlit("   ");
    let text = board_text(cells);
    let rows = rows_text(cells, SIZE as nat);
    lemma_rows_text(cells, SIZE as nat, row);
    lemma_label((SIZE - row) as nat);
    let line = row_line(cells, row);
    assert(text.subrange(41, 877) =~= rows);
    assert forall|k: int| 0 <= k < 44 implies text[41 + 44 * row + k] == #[trigger] line[k] by {
        assert(rows.subrange(44 * row, 44 * row + 44)[k] == line[k]);
        assert(text.subrange(41, 877)[44 * row + k] == rows[44 * row + k]);
    }
    if i < 2 {
        assert(line[i] == label((SIZE - row) as nat)[i]);
        assert(line[41 + i] == label((SIZE - row) as nat)[i]);
    }
}

} // verus!

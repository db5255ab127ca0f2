//! Names: how points, moves, colors and refusals are written and read.

use vstd::prelude::*;
use vstd::utf8::encode_utf8;

use crate::goban::{Color, Illegal, Move, Point, COLS, SIZE};
use crate::text::{
    chars_of, decimal, is_digit, law_decimal_reads_back, lemma_decimal_digits, parse_number,
    push_decimal, read_number, text_of, to_upper, trim, trim_end, trim_start, trimmed, upper,
    upper_char, white_space,
};

verus! {

/// The column that a letter names. There is no column `I`.
pub open spec fn column(c: char) -> Option<int> {
    if 'A' <= c <= 'H' {
        Some(c as int - 65)
    } else if 'J' <= c <= 'T' {
        Some(c as int - 66)
    } else {
        None
    }
}

/// The letter of a column.
pub open spec fn column_letter(col: int) -> char {
    if col < 8 {
        (65 + col) as char
    } else {
        (66 + col) as char
    }
}

/// The name of a color.
pub open spec fn color_text(c: Color) -> Seq<char> {
    match c {
        Color::Black => "Black"@,
        Color::White => "White"@,
    }
}

impl Point {
    /// The point has a column letter and a row number.
    pub open spec fn nameable(self) -> bool {
        self.col < SIZE && self.row <= SIZE
    }
}

/// Column letter, then the row counted from the bottom.
pub open spec fn point_text(p: Point) -> Seq<char> {
    seq![column_letter(p.col as int)] + decimal((SIZE - p.row) as nat)
}

/// The point, or `pass`.
pub open spec fn move_text(mv: Move) -> Seq<char> {
    match mv {
        Move::Play(p) => point_text(p),
        Move::Pass => "pass"@,
    }
}

impl Move {
    /// The move can be written down.
    pub open spec fn nameable(self) -> bool {
        self matches Move::Play(p) ==> p.nameable()
    }
}

/// Why a move is refused, as the model and the player read it.
pub open spec fn illegal_text(why: Illegal) -> Seq<char> {
    match why {
        Illegal::Occupied(c) => "occupied by "@ + color_text(c),
        Illegal::Suicide => "suicide — that group would have no liberties"@,
        Illegal::Ko => "forbidden by ko — you may not immediately recapture"@,
        Illegal::GameOver => "the game is already over"@,
    }
}

/// What a coordinate names, or what is wrong with it.
pub open spec fn parse_text(s: Seq<char>) -> Result<Point, Seq<char>> {
    let t = upper(trimmed(s));
    if t.len() == 0 {
        Err("empty coordinate"@)
    } else if column(t[0]) is None {
        Err("bad column '"@ + seq![encode_utf8(t)[0] as char] + "' (use A-T, no I)"@)
    } else {
        match read_number(t.drop_first(), usize::MAX as nat) {
            Err(_) => Err("bad row in '"@ + t + "' (use 1-19)"@),
            Ok(num) => if num < 1 || num > SIZE {
                Err("row "@ + decimal(num) + " is off the board (use 1-19)"@)
            } else {
                Ok(Point { row: (SIZE - num) as usize, col: column(t[0])->0 as usize })
            },
        }
    }
}

impl Color {
    pub fn name(self) -> (r: &'static str)
        ensures
            r@ == color_text(self),
    {
        match self {
            Color::Black => "Black",
            Color::White => "White",
        }
    }

    pub fn to_string(&self) -> (r: String)
        ensures
            r@ == color_text(*self),
    {
        self.name().to_owned()
    }
}

pub proof fn lemma_columns()
    ensures
        forall|i: int| 0 <= i < 19 ==> #[trigger] COLS@[i] as char == column_letter(i),
{
    assert(COLS@[0] == 65 && COLS@[1] == 66 && COLS@[2] == 67 && COLS@[3] == 68 && COLS@[4] == 69
        && COLS@[5] == 70 && COLS@[6] == 71 && COLS@[7] == 72);
    assert(COLS@[8] == 74 && COLS@[9] == 75 && COLS@[10] == 76 && COLS@[11] == 77 && COLS@[12]
        == 78 && COLS@[13] == 79 && COLS@[14] == 80 && COLS@[15] == 81 && COLS@[16] == 82
        && COLS@[17] == 83 && COLS@[18] == 84);
}

impl Point {
    /// The name of the point, such as `Q16`.
    pub fn to_string(&self) -> (r: String)
        requires
            self.nameable(),
        ensures
            r@ == point_text(*self),
    {
        proof {
            lemma_columns();
        }
        let mut r = String::new();
        r.push(COLS[self.col] as char);
        push_decimal(&mut r, (SIZE - self.row) as u64);
        assert(r@ =~= point_text(*self));
        r
    }

    /// Parse standard Go coordinates ("Q16", "d4"). Rejects `I` and anything
    /// off the board.
    pub fn parse(s: &str) -> (r: Result<Point, String>)
        ensures
            match r {
                Ok(p) => parse_text(s@) == Ok::<Point, Seq<char>>(p),
                Err(e) => parse_text(s@) == Err::<Point, Seq<char>>(e@),
            },
    {
        let t = to_upper(trim(s).as_str());
        let chars = chars_of(t.as_str());
        if chars.len() == 0 {
            return Err("empty coordinate".to_owned());
        }
        let first = chars[0];
        let mut col: usize = 0;
        while col < SIZE && COLS[col] as char != first
            invariant
                col <= SIZE,
                forall|i: int| 0 <= i < col ==> #[trigger] COLS@[i] as char != first,
            decreases SIZE - col,
        {
            col += 1;
        }
        proof {
            lemma_columns();
            if column(first) is Some {
                let i = column(first)->0;
                assert(COLS@[i] as char == column_letter(i));
                assert(column_letter(i) == first);
            }
        }
        if col == SIZE {
            proof {
                lemma_encode_first(t@);
            }
            let mut e = "bad column '".to_owned();
            e.push(t.as_str().as_bytes()[0] as char);
            e.append("' (use A-T, no I)");
            assert(e@ =~= "bad column '"@ + seq![encode_utf8(t@)[0] as char]
                + "' (use A-T, no I)"@);
            return Err(e);
        }
        assert(COLS@[col as int] as char == column_letter(col as int));
        let rest = text_of(&chars, 1, chars.len());
        assert(rest@ =~= t@.drop_first());
        match parse_number(rest.as_str(), usize::MAX as u64) {
            Err(_) => {
                let mut e = "bad row in '".to_owned();
                e.append(t.as_str());
                e.append("' (use 1-19)");
                Err(e)
            },
            Ok(num) => {
                if num < 1 || num > SIZE as u64 {
                    let mut e = "row ".to_owned();
                    push_decimal(&mut e, num);
                    e.append(" is off the board (use 1-19)");
                    Err(e)
                } else {
                    Ok(Point { row: SIZE - num as usize, col })
                }
            },
        }
    }
}

proof fn lemma_encode_first(s: Seq<char>)
    requires
        s.len() > 0,
    ensures
        encode_utf8(s).len() > 0,
{
    vstd::utf8::encode_utf8_first_scalar(s);
}

impl Move {
    /// The point, or `pass`.
    pub fn to_string(&self) -> (r: String)
        requires
            self.nameable(),
        ensures
            r@ == move_text(*self),
    {
        match self {
            Move::Play(p) => p.to_string(),
            Move::Pass => "pass".to_owned(),
        }
    }
}

impl Illegal {
    pub fn to_string(&self) -> (r: String)
        ensures
            r@ == illegal_text(*self),
    {
        match self {
            Illegal::Occupied(c) => {
                let mut r = "occupied by ".to_owned();
                r.append(c.name());
                r
            },
            Illegal::Suicide => "suicide — that group would have no liberties".to_owned(),
            Illegal::Ko => "forbidden by ko — you may not immediately recapture".to_owned(),
            Illegal::GameOver => "the game is already over".to_owned(),
        }
    }
}

/// What parses names a point of the board.
pub proof fn law_parsed_points_lie_on_the_board(s: Seq<char>)
    ensures
        parse_text(s) matches Ok(p) ==> p.on_board(),
{
}

/// The name of a point of the board, in upper or lower case, parses to that
/// point.
pub proof fn law_names_read_back(p: Point, s: Seq<char>)
    requires
        p.on_board(),
        upper(s) == point_text(p),
    ensures
        parse_text(s) == Ok::<Point, Seq<char>>(p),
{
    let name = point_text(p);
    let num = (SIZE - p.row) as nat;
    let ws = |c: char| white_space(c);
    lemma_decimal_digits(num);
    assert(name.len() == 1 + decimal(num).len());
    assert(upper(s)[0] == column_letter(p.col as int));
    assert(upper_char(s[0]) == column_letter(p.col as int));
    assert(!white_space(s[0]));
    let n = s.len() - 1;
    assert(upper(s)[n] == decimal(num)[n - 1]);
    assert(is_digit(decimal(num)[n - 1]));
    assert(upper_char(s[n]) == decimal(num)[n - 1]);
    assert(!white_space(s.last()));
    assert(trim_start(s, ws) == s);
    assert(trim_end(s, ws) == s);
    assert(trimmed(s) == s);
    assert(name.drop_first() =~= decimal(num));
    law_decimal_reads_back(num, usize::MAX as nat);
}

/// Different points of the board have different names.
pub proof fn law_names_are_unique(p: Point, q: Point)
    requires
        p.on_board(),
        q.on_board(),
        point_text(p) == point_text(q),
    ensures
        p == q,
{
    lemma_name_is_upper(p);
    law_names_read_back(p, point_text(p));
    law_names_read_back(q, point_text(p));
}

proof fn lemma_name_is_upper(p: Point)
    requires
        p.on_board(),
    ensures
        upper(point_text(p)) == point_text(p),
{
    let name = point_text(p);
    let num = (SIZE - p.row) as nat;
    lemma_decimal_digits(num);
    assert forall|i: int| 0 <= i < name.len() implies upper_char(#[trigger] name[i]) == name[i] by {
        if i > 0 {
            assert(name[i] == decimal(num)[i - 1]);
            assert(is_digit(decimal(num)[i - 1]));
        }
    }
    assert(upper(name) =~= name);
}

} // verus!

//! Reproducibility: an SGF of the game next to the exact prompt of each turn.
//!
//! When the model plays something absurd at move 130 you want to see precisely
//! what it saw, not a reconstruction.

use vstd::prelude::*;

use crate::goban::{Color, Move, MoveRecord, Point};
use crate::text::{chars_of, decimal, lemma_texts_push, push_decimal, texts};

verus! {

/// The file that keeps every prompt next to what came back.
pub const LOG_FILE: &'static str = "prompts.log";

/// The file that keeps the game.
pub const SGF_FILE: &'static str = "game.sgf";

/// The log of the model's turns, kept in a directory.
pub struct Recorder {
    dir: String,
    turns: Vec<String>,
}

/// What a recorder holds: its directory and the entries so far.
#[verifier::ext_equal]
pub struct RecorderView {
    pub dir: Seq<char>,
    pub turns: Seq<Seq<char>>,
}

impl View for Recorder {
    type V = RecorderView;

    closed spec fn view(&self) -> RecorderView {
        RecorderView { dir: self.dir@, turns: texts(self.turns@) }
    }
}

/// The log entry of one turn: the fat block that was sent and what came back.
pub open spec fn entry_text(number: nat, prompt: Seq<char>, outcome: Seq<char>) -> Seq<char> {
    "=== move "@ + decimal(number) + " ===\n--- fat state block sent ---\n"@ + prompt
        + "\n--- outcome ---\n"@ + outcome + "\n\n"@
}

/// What the log file holds after one more turn.
pub open spec fn log_text(
    existing: Seq<char>,
    number: nat,
    prompt: Seq<char>,
    outcome: Seq<char>,
) -> Seq<char> {
    existing + entry_text(number, prompt, outcome)
}

impl Recorder {
    /// A log without entries, kept in `dir`.
    pub fn new(dir: &str) -> (r: Recorder)
        ensures
            r@ == (RecorderView { dir: dir@, turns: Seq::empty() }),
    {
        let r = Recorder { dir: dir.to_owned(), turns: Vec::new() };
        assert(texts(r.turns@) =~= Seq::<Seq<char>>::empty());
        r
    }

    /// Where the log is kept.
    pub fn dir(&self) -> (r: &str)
        ensures
            r@ == self@.dir,
    {
        self.dir.as_str()
    }

    /// Log one model turn: the fat block it was given and what came back.
    /// `existing` is what the log file holds; what it is to hold is returned.
    pub fn log_turn(&mut self, move_number: u32, prompt: &str, outcome: &str, existing: &str) -> (r:
        String)
        ensures
            r@ == log_text(existing@, move_number as nat, prompt@, outcome@),
            final(self)@ == (RecorderView {
                turns: old(self)@.turns.push(entry_text(move_number as nat, prompt@, outcome@)),
                ..old(self)@
            }),
    {
        let mut entry = "=== move ".to_owned();
        push_decimal(&mut entry, move_number as u64);
        entry.append(" ===\n--- fat state block sent ---\n");
        entry.append(prompt);
        entry.append("\n--- outcome ---\n");
        entry.append(outcome);
        entry.append("\n\n");
        let mut r = existing.to_owned();
        r.append(entry.as_str());
        proof {
            lemma_texts_push(self.turns@, entry);
        }
        self.turns.push(entry);
        r
    }
}

// ---------------------------------------------------------------------------
// SGF
// ---------------------------------------------------------------------------

/// The letter of a line. Only the last byte of its number counts.
pub open spec fn line_letter(n: int) -> char {
    (97 + n % 256) as char
}

/// A point that SGF has letters for, in one byte each.
pub open spec fn lettered(p: Point) -> bool {
    p.row % 256 <= 158 && p.col % 256 <= 158
}

/// Column, then row, both counted from the top left: the opposite origin from
/// the display grid, which is exactly where transcription bugs come from.
pub open spec fn coordinate(mv: Move) -> Seq<char> {
    match mv {
        Move::Play(p) => seq![line_letter(p.col as int), line_letter(p.row as int)],
        Move::Pass => Seq::empty(),
    }
}

/// The property that a move of `c` is written under.
pub open spec fn tag(c: Color) -> char {
    match c {
        Color::Black => 'B',
        Color::White => 'W',
    }
}

/// One move.
pub open spec fn node(color: Color, mv: Move) -> Seq<char> {
    seq![';', tag(color), '['] + coordinate(mv) + seq![']']
}

/// The moves in order.
pub open spec fn nodes(history: Seq<MoveRecord>) -> Seq<char>
    decreases history.len(),
{
    if history.len() == 0 {
        Seq::empty()
    } else {
        node(history[0].color, history[0].mv) + nodes(history.drop_first())
    }
}

/// A character, with a backslash before it if it needs one.
pub open spec fn escaped_char(c: char) -> Seq<char> {
    if c == '\\' || c == ']' {
        seq!['\\', c]
    } else {
        seq![c]
    }
}

/// A backslash before every backslash and every closing bracket.
pub open spec fn escaped(s: Seq<char>) -> Seq<char>
    decreases s.len(),
{
    if s.len() == 0 {
        Seq::empty()
    } else {
        escaped_char(s[0]) + escaped(s.drop_first())
    }
}

/// The game in SGF: what it is, who played, and the moves.
pub open spec fn sgf_text(history: Seq<MoveRecord>, black: Seq<char>, white: Seq<char>) -> Seq<
    char,
> {
    "(;FF[4]GM[1]CA[UTF-8]SZ[19]KM[6.5]RU[Japanese]PB["@ + escaped(black) + "]PW["@ + escaped(white)
        + "]"@ + nodes(history) + ")"@
}

fn escape(s: &str) -> (r: String)
    ensures
        r@ == escaped(s@),
{
    let chars = chars_of(s);
    let mut r = String::new();
    let mut i: usize = 0;
    assert(s@.skip(0) =~= s@);
    assert(r@ + escaped(s@) =~= escaped(s@));
    while i < chars.len()
        invariant
            chars@ == s@,
            i <= chars@.len(),
            r@ + escaped(s@.skip(i as int)) == escaped(s@),
        decreases chars@.len() - i,
    {
        let c = chars[i];
        let ghost before = r@;
        if c == '\\' || c == ']' {
            r.push('\\');
        }
        r.push(c);
        proof {
            let rest = s@.skip(i as int);
            assert(rest[0] == c);
            assert(rest.drop_first() =~= s@.skip(i + 1));
            assert(r@ =~= before + escaped_char(c));
            assert(before + escaped(rest) =~= r@ + escaped(s@.skip(i + 1)));
        }
        i += 1;
    }
    assert(r@ + escaped(s@.skip(i as int)) =~= r@);
    r
}

fn push_letter(out: &mut String, n: usize)
    requires
        n % 256 <= 158,
    ensures
        final(out)@ == old(out)@.push(line_letter(n as int)),
{
    assert(n as u8 == n % 256) by (bit_vector);
    let low: u8 = n as u8;
    out.push((97u8 + low) as char);
}

/// The game in SGF FF[4] with Japanese-style komi.
pub fn sgf(history: &[MoveRecord], black: &str, white: &str) -> (r: String)
    requires
        forall|i: int|
            0 <= i < history@.len() ==> ((#[trigger] history@[i]).mv matches Move::Play(p) ==> lettered(p)),
    ensures
        r@ == sgf_text(history@, black@, white@),
{
    let mut s = "(;FF[4]GM[1]CA[UTF-8]SZ[19]KM[6.5]RU[Japanese]PB[".to_owned();
    s.append(escape(black).as_str());
    s.append("]PW[");
    s.append(escape(white).as_str());
    s.append("]");
    let ghost head = s@;
    let mut i: usize = 0;
    let ghost goal = head + nodes(history@);
    assert(history@.skip(0) =~= history@);
    while i < history.len()
        invariant
            forall|k: int|
                0 <= k < history@.len() ==> ((#[trigger] history@[k]).mv matches Move::Play(p)
                    ==> lettered(p)),
            i <= history@.len(),
            s@ + nodes(history@.skip(i as int)) == goal,
        decreases history@.len() - i,
    {
        let rec = history[i];
        let ghost before = s@;
        s.push(';');
        s.push(match rec.color {
            Color::Black => 'B',
            Color::White => 'W',
        });
        s.push('[');
        if let Move::Play(p) = rec.mv {
            push_letter(&mut s, p.col);
            push_letter(&mut s, p.row);
        }
        s.push(']');
        proof {
            let rest = history@.skip(i as int);
            assert(rest[0] == rec);
            assert(rest.drop_first() =~= history@.skip(i + 1));
            assert(s@ =~= before + node(rec.color, rec.mv));
            assert(before + nodes(rest) =~= s@ + nodes(history@.skip(i + 1)));
        }
        i += 1;
    }
    assert(s@ + nodes(history@.skip(i as int)) =~= s@);
    s.append(")");
    s
}

// ---------------------------------------------------------------------------
// Reading it back
// ---------------------------------------------------------------------------

/// A property value read up to the bracket that closes it, and what follows.
pub open spec fn read_value(t: Seq<char>) -> (Seq<char>, Seq<char>)
    decreases t.len(),
{
    if t.len() == 0 {
        (Seq::empty(), Seq::empty())
    } else if t[0] == ']' {
        (Seq::empty(), t.drop_first())
    } else if t[0] == '\\' && t.len() > 1 {
        let (value, rest) = read_value(t.skip(2));
        (seq![t[1]] + value, rest)
    } else {
        let (value, rest) = read_value(t.drop_first());
        (seq![t[0]] + value, rest)
    }
}

/// An escaped text reads back as it was, whatever follows its closing bracket.
pub proof fn law_escaped_text_reads_back(s: Seq<char>, rest: Seq<char>)
    ensures
        read_value(escaped(s) + seq![']'] + rest) == (s, rest),
    decreases s.len(),
{
    let t = escaped(s) + seq![']'] + rest;
    if s.len() == 0 {
        assert(t.drop_first() =~= rest);
        assert(s =~= Seq::<char>::empty());
    } else {
        let tail = escaped(s.drop_first()) + seq![']'] + rest;
        law_escaped_text_reads_back(s.drop_first(), rest);
        assert(t =~= escaped_char(s[0]) + tail);
        assert(seq![s[0]] + s.drop_first() =~= s);
        if s[0] == '\\' || s[0] == ']' {
            assert(t.skip(2) =~= tail);
        } else {
            assert(t.drop_first() =~= tail);
        }
    }
}

/// The line that a letter names.
pub open spec fn line_of(c: char) -> usize {
    (c as int - 97) as usize
}

/// The moves that the nodes stand for, in order.
pub open spec fn read_nodes(t: Seq<char>) -> Seq<(Color, Move)>
    decreases t.len(),
{
    if t.len() < 4 || t[0] != ';' {
        Seq::empty()
    } else {
        let color = if t[1] == 'B' {
            Color::Black
        } else {
            Color::White
        };
        if t[3] == ']' {
            seq![(color, Move::Pass)] + read_nodes(t.skip(4))
        } else if t.len() < 6 {
            Seq::empty()
        } else {
            seq![(color, Move::Play(Point { row: line_of(t[4]), col: line_of(t[3]) }))]
                + read_nodes(t.skip(6))
        }
    }
}

/// Who played what.
pub open spec fn moves_of(history: Seq<MoveRecord>) -> Seq<(Color, Move)> {
    Seq::new(history.len(), |i: int| (history[i].color, history[i].mv))
}

/// A pass reads back, whatever follows it.
proof fn lemma_pass_reads_back(color: Color, tail: Seq<char>)
    ensures
        read_nodes(node(color, Move::Pass) + tail) == seq![(color, Move::Pass)] + read_nodes(tail),
{
    let t = node(color, Move::Pass) + tail;
    assert(t[0] == ';' && t[1] == tag(color) && t[3] == ']');
    assert(t.skip(4) =~= tail);
}

/// A placed stone reads back, whatever follows it.
proof fn lemma_play_reads_back(color: Color, p: Point, tail: Seq<char>)
    requires
        p.on_board(),
    ensures
        read_nodes(node(color, Move::Play(p)) + tail) == seq![(color, Move::Play(p))] + read_nodes(
            tail,
        ),
{
    let t = node(color, Move::Play(p)) + tail;
    assert(t[0] == ';' && t[1] == tag(color));
    assert(t[3] == line_letter(p.col as int) && t[4] == line_letter(p.row as int));
    assert(t[3] != ']');
    assert(line_of(t[3]) == p.col && line_of(t[4]) == p.row);
    assert(t.skip(6) =~= tail);
}

/// The moves of a game read back from its SGF as they were played.
pub proof fn law_moves_read_back(history: Seq<MoveRecord>)
    requires
        forall|i: int| 0 <= i < history.len() ==> (#[trigger] history[i]).mv.on_board(),
    ensures
        read_nodes(nodes(history) + ")"@) == moves_of(history),
    decreases history.len(),
{
    if history.len() == 0 {
        reveal_strlit(")");
        assert(moves_of(history) =~= Seq::<(Color, Move)>::empty());
    } else {
        let r = history[0];
        let rest = history.drop_first();
        assert forall|i: int| 0 <= i < rest.len() implies (#[trigger] rest[i]).mv.on_board() by {
            assert(rest[i] == history[i + 1]);
        }
        law_moves_read_back(rest);
        let tail = nodes(rest) + ")"@;
        assert(nodes(history) + ")"@ =~= node(r.color, r.mv) + tail);
        assert(r.mv.on_board());
        match r.mv {
            Move::Pass => {
                lemma_pass_reads_back(r.color, tail);
            },
            Move::Play(p) => {
                lemma_play_reads_back(r.color, p, tail);
            },
        }
        assert(moves_of(history) =~= seq![(r.color, r.mv)] + moves_of(rest));
    }
}

/// The game that a whole SGF text stands for: the name of Black, the name of
/// White, and the moves. What stands before the names has a fixed length.
pub open spec fn read_game(t: Seq<char>) -> (Seq<char>, Seq<char>, Seq<(Color, Move)>) {
    let (black, after_black) = read_value(t.skip(49));
    let (white, after_white) = read_value(after_black.skip(3));
    (black, white, read_nodes(after_white))
}

/// A whole SGF text reads back: both players by their names, whatever characters
/// these hold, and every move of the game, from the first to the last, under the
/// color that made it. Nothing is left out however long the game was.
pub proof fn law_a_game_reads_back(history: Seq<MoveRecord>, black: Seq<char>, white: Seq<char>)
    requires
        forall|i: int| 0 <= i < history.len() ==> (#[trigger] history[i]).mv.on_board(),
    ensures
        ({
            let (b, w, moves) = read_game(sgf_text(history, black, white));
            &&& b == black
            &&& w == white
            &&& moves.len() == history.len()
            &&& forall|i: int|
                0 <= i < history.len() ==> (#[trigger] moves[i]).0 == history[i].color
                    && moves[i].1 == history[i].mv
        }),
{
    let head = "(;FF[4]GM[1]CA[UTF-8]SZ[19]KM[6.5]RU[Japanese]PB["@;
    let moves = nodes(history) + ")"@;
    let rest = "PW["@ + escaped(white) + "]"@ + nodes(history) + ")"@;
    let t = sgf_text(history, black, white);
    reveal_strlit("(;FF[4]GM[1]CA[UTF-8]SZ[19]KM[6.5]RU[Japanese]PB[");
    reveal_strlit("]PW[");
    reveal_strlit("PW[");
    reveal_strlit("]");
    assert(head.len() == 49);
    assert("]PW["@ =~= seq![']'] + "PW["@);
    assert("]"@ =~= seq![']']);
    assert(t.skip(49) =~= escaped(black) + seq![']'] + rest);
    law_escaped_text_reads_back(black, rest);
    assert(rest.skip(3) =~= escaped(white) + seq![']'] + moves);
    law_escaped_text_reads_back(white, moves);
    law_moves_read_back(history);
}

/// What an SGF text says of the game before the names: the format, the game, the
/// encoding, the size of the board, the komi and the rules.
pub proof fn law_what_a_game_says_of_itself(
    history: Seq<MoveRecord>,
    black: Seq<char>,
    white: Seq<char>,
)
    ensures
        "(;FF[4]GM[1]CA[UTF-8]SZ[19]KM[6.5]RU[Japanese]PB["@.is_prefix_of(
            sgf_text(history, black, white),
        ),
        ("(;FF[4]GM[1]CA[UTF-8]SZ[19]KM[6.5]RU[Japanese]PB["@ + escaped(black)
            + "]PW["@).is_prefix_of(sgf_text(history, black, white)),
        sgf_text(history, black, white).last() == ')',
{
    let head = "(;FF[4]GM[1]CA[UTF-8]SZ[19]KM[6.5]RU[Japanese]PB["@;
    let both = head + escaped(black) + "]PW["@;
    let t = sgf_text(history, black, white);
    reveal_strlit(")");
    assert(t.take(head.len() as int) =~= head);
    assert(t.take(both.len() as int) =~= both);
}

/// A move is written under the color that made it: the column and then the row,
/// each counted from `a` at the top left corner, or nothing for a pass.
pub proof fn law_moves_are_written_from_the_top_left(color: Color, p: Point)
    requires
        p.on_board(),
    ensures
        ({
            let t = node(color, Move::Play(p));
            &&& t.len() == 6
            &&& t[0] == ';'
            &&& t[1] == 'B' <==> color == Color::Black
            &&& t[1] == 'W' <==> color == Color::White
            &&& t[2] == '['
            &&& t[3] as int - 'a' as int == p.col
            &&& t[4] as int - 'a' as int == p.row
            &&& t[5] == ']'
        }),
        node(color, Move::Pass) == seq![
            ';',
            if color == Color::Black {
                'B'
            } else {
                'W'
            },
            '[',
            ']',
        ],
{
    assert(node(color, Move::Pass) =~= seq![
        ';',
        if color == Color::Black {
            'B'
        } else {
            'W'
        },
        '[',
        ']',
    ]);
}

/// The moves of a longer game are those of the shorter one and then the rest.
pub proof fn law_games_are_written_move_by_move(history: Seq<MoveRecord>, r: MoveRecord)
    ensures
        nodes(history.push(r)) == nodes(history) + node(r.color, r.mv),
    decreases history.len(),
{
    let all = history.push(r);
    if history.len() == 0 {
        assert(all.drop_first() =~= Seq::<MoveRecord>::empty());
        assert(all[0] == r);
        assert(nodes(all.drop_first()) =~= Seq::<char>::empty());
        assert(nodes(all) =~= nodes(history) + node(r.color, r.mv));
    } else {
        law_games_are_written_move_by_move(history.drop_first(), r);
        assert(all.drop_first() =~= history.drop_first().push(r));
        assert(all[0] == history[0]);
        assert(nodes(all) =~= nodes(history) + node(r.color, r.mv));
    }
}

/// A log entry holds the number of the move, the whole block that was sent and
/// everything that came back.
pub proof fn law_a_log_entry_keeps_all(number: nat, prompt: Seq<char>, outcome: Seq<char>)
    ensures
        ({
            let t = entry_text(number, prompt, outcome);
            &&& ("=== move "@ + decimal(number) + " ===\n--- fat state block sent ---\n"@
                + prompt).is_prefix_of(t)
            &&& ("\n--- outcome ---\n"@ + outcome + "\n\n"@).is_suffix_of(t)
            &&& t.len() == ("=== move "@ + decimal(number)
                + " ===\n--- fat state block sent ---\n"@ + prompt).len() + (
            "\n--- outcome ---\n"@ + outcome + "\n\n"@).len()
        }),
{
    let t = entry_text(number, prompt, outcome);
    let first = "=== move "@ + decimal(number) + " ===\n--- fat state block sent ---\n"@ + prompt;
    let last = "\n--- outcome ---\n"@ + outcome + "\n\n"@;
    assert(t =~= first + last);
    assert(t.take(first.len() as int) =~= first);
    assert(t.subrange(t.len() - last.len(), t.len() as int) =~= last);
}

/// A turn is logged behind what the file held, of which nothing is lost.
pub proof fn law_the_log_only_grows(
    existing: Seq<char>,
    number: nat,
    prompt: Seq<char>,
    outcome: Seq<char>,
)
    ensures
        ({
            let t = log_text(existing, number, prompt, outcome);
            &&& existing.is_prefix_of(t)
            &&& entry_text(number, prompt, outcome).is_suffix_of(t)
            &&& t.len() == existing.len() + entry_text(number, prompt, outcome).len()
        }),
{
    let entry = entry_text(number, prompt, outcome);
    let t = log_text(existing, number, prompt, outcome);
    assert(t.take(existing.len() as int) =~= existing);
    assert(t.subrange(t.len() - entry.len(), t.len() as int) =~= entry);
}

} // verus!

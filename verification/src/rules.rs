//! The rules as a transition of game states.

use vstd::prelude::*;

use crate::board::{
    adjacent, connected, has_liberty, lemma_connected_holds, lemma_connected_symmetric,
    lemma_connected_transitive, lemma_listing_upto, liberty, listing,
    Cells, AREA, POSITIONS,
};
use crate::goban::{Color, Illegal, Move, MoveRecord, Point};

verus! {

/// Everything a game consists of.
#[verifier::ext_equal]
pub struct GameState {
    pub cells: Cells,
    pub to_move: Color,
    /// The point that may not be retaken by the next move.
    pub ko: Option<Point>,
    /// Stones taken by Black.
    pub black_captures: int,
    /// Stones taken by White.
    pub white_captures: int,
    pub history: Seq<MoveRecord>,
    /// Passes since the last stone was placed.
    pub passes: int,
    pub resigned: Option<Color>,
}

/// A stone of `color` has just been placed on `p`: the stone on `q` belongs to
/// a neighboring group of the other color that is left without liberties.
pub open spec fn captured(cells: Cells, p: Point, color: Color, q: Point) -> bool {
    exists|n: Point| #[trigger]
        adjacent(p, n) && cells[n.cell()] == Some(color.rival()) && connected(cells, n, q)
            && !has_liberty(cells, n)
}

/// The stones that a stone of `color` placed on `p` takes, in reading order.
pub open spec fn taken(cells: Cells, p: Point, color: Color) -> Seq<Point> {
    listing(|q: Point| captured(cells, p, color, q))
}

/// The position with the stones on `points` taken off.
pub open spec fn lift(cells: Cells, points: Seq<Point>) -> Cells {
    Seq::new(
        cells.len(),
        |i: int|
            if exists|k: int| 0 <= k < points.len() && (#[trigger] points[k]).cell() == i {
                None
            } else {
                cells[i]
            },
    )
}

/// The stones of the group of `p`, in reading order.
pub open spec fn stones_of(cells: Cells, p: Point) -> Seq<Point> {
    listing(|q: Point| connected(cells, p, q))
}

/// The liberties of the group of `p`, in reading order.
pub open spec fn liberties_of(cells: Cells, p: Point) -> Seq<Point> {
    listing(|l: Point| liberty(cells, p, l))
}

/// A group: its color, its stones and its liberties, in reading order.
#[verifier::ext_equal]
pub struct GroupView {
    pub color: Color,
    pub stones: Seq<Point>,
    pub liberties: Seq<Point>,
}

/// The group of the stone on `p`.
pub open spec fn group_of(cells: Cells, p: Point) -> GroupView {
    GroupView {
        color: cells[p.cell()]->0,
        stones: stones_of(cells, p),
        liberties: liberties_of(cells, p),
    }
}

/// The stone on `p` comes first within its group.
pub open spec fn heads_group(cells: Cells, p: Point) -> bool {
    &&& p.on_board()
    &&& cells[p.cell()] is Some
    &&& forall|q: Point| #[trigger] connected(cells, p, q) ==> p.rank() <= q.rank()
}

/// One stone of each group, in reading order.
pub open spec fn group_heads(cells: Cells) -> Seq<Point> {
    listing(|p: Point| heads_group(cells, p))
}

/// Every group on the board once, in the order of their first stones.
pub open spec fn groups_of(cells: Cells) -> Seq<GroupView> {
    Seq::new(group_heads(cells).len(), |i: int| group_of(cells, group_heads(cells)[i]))
}

/// The group or empty region of `p` touches a stone of color `c`.
pub open spec fn borders(cells: Cells, p: Point, c: Color) -> bool {
    exists|s: Point, t: Point|
        connected(cells, p, s) && #[trigger] adjacent(s, t) && cells[t.cell()] == Some(c)
}

/// Whose area the point belongs to: that of the stone on it, or that of the
/// only color which its empty region touches.
pub open spec fn owner(cells: Cells, p: Point) -> Option<Color> {
    if cells[p.cell()] is Some {
        cells[p.cell()]
    } else if borders(cells, p, Color::Black) && !borders(cells, p, Color::White) {
        Some(Color::Black)
    } else if borders(cells, p, Color::White) && !borders(cells, p, Color::Black) {
        Some(Color::White)
    } else {
        None
    }
}

/// The points of the board that belong to the area of `c`.
pub open spec fn area(cells: Cells, c: Color) -> Seq<Point> {
    listing(|p: Point| p.on_board() && owner(cells, p) == Some(c))
}

/// How many stones of `color` stand on the board.
pub open spec fn count(cells: Cells, color: Color) -> nat
    decreases cells.len(),
{
    if cells.len() == 0 {
        0
    } else {
        count(cells.drop_last(), color) + if cells.last() == Some(color) {
            1nat
        } else {
            0nat
        }
    }
}

/// How many stones of `color` were placed.
pub open spec fn placements(history: Seq<MoveRecord>, color: Color) -> nat
    decreases history.len(),
{
    if history.len() == 0 {
        0
    } else {
        placements(history.drop_last(), color) + if history.last().color == color
            && history.last().mv is Play {
            1nat
        } else {
            0nat
        }
    }
}

/// How many stones the moves of `color` took, by their records.
pub open spec fn tally(history: Seq<MoveRecord>, color: Color) -> nat
    decreases history.len(),
{
    if history.len() == 0 {
        0
    } else {
        tally(history.drop_last(), color) + if history.last().color == color {
            history.last().captured as nat
        } else {
            0nat
        }
    }
}

/// How many passes end the history.
pub open spec fn trailing_passes(history: Seq<MoveRecord>) -> nat
    decreases history.len(),
{
    if history.len() == 0 || history.last().mv is Play {
        0
    } else {
        trailing_passes(history.drop_last()) + 1
    }
}

/// Who makes the move that follows `n` moves.
pub open spec fn mover(n: int) -> Color {
    if n % 2 == 0 {
        Color::Black
    } else {
        Color::White
    }
}

impl GameState {
    /// An empty board with Black to move.
    pub open spec fn initial() -> GameState {
        GameState {
            cells: Seq::new(AREA as nat, |i: int| None),
            to_move: Color::Black,
            ko: None,
            black_captures: 0,
            white_captures: 0,
            history: Seq::empty(),
            passes: 0,
            resigned: None,
        }
    }

    /// Stones taken by `c`.
    pub open spec fn captures(self, c: Color) -> int {
        match c {
            Color::Black => self.black_captures,
            Color::White => self.white_captures,
        }
    }

    /// The game has ended.
    pub open spec fn over(self) -> bool {
        self.resigned is Some || self.passes >= 2
    }

    /// What holds of every state that play can lead to.
    pub open spec fn valid(self) -> bool {
        &&& self.cells.len() == AREA
        &&& self.to_move == mover(self.history.len() as int)
        &&& forall|i: int|
            0 <= i < self.history.len() ==> {
                &&& (#[trigger] self.history[i]).number == i + 1
                &&& self.history[i].color == mover(i)
                &&& self.history[i].mv.addressable()
            }
        &&& self.ko matches Some(k) ==> k.on_board() && self.cells[k.cell()] is None
        &&& self.passes == trailing_passes(self.history)
        &&& self.passes <= 2
        &&& forall|c: Color| #[trigger]
            self.captures(c) == tally(self.history, c)
        &&& forall|c: Color| #[trigger]
            count(self.cells, c) + self.captures(c.rival()) == placements(self.history, c)
    }

    /// The position with a stone of the player to move on `p`, before any
    /// stone is taken off.
    pub open spec fn placed(self, p: Point) -> Cells {
        self.cells.update(p.cell(), Some(self.to_move))
    }

    /// The record of a move that takes `n` stones.
    pub open spec fn record(self, mv: Move, n: nat) -> MoveRecord {
        MoveRecord {
            number: (self.history.len() + 1) as u32,
            color: self.to_move,
            mv,
            captured: n as usize,
        }
    }

    /// The state after the player to move has passed.
    pub open spec fn after_pass(self) -> GameState {
        GameState {
            to_move: self.to_move.rival(),
            ko: None,
            history: self.history.push(self.record(Move::Pass, 0)),
            passes: self.passes + 1,
            ..self
        }
    }

    /// The state after the player to move has placed a stone on `p`.
    pub open spec fn after_play(self, p: Point) -> GameState {
        let dead = taken(self.placed(p), p, self.to_move);
        let cells = lift(self.placed(p), dead);
        GameState {
            cells,
            to_move: self.to_move.rival(),
            ko: if dead.len() == 1 && stones_of(cells, p).len() == 1 && liberties_of(
                cells,
                p,
            ).len() == 1 {
                Some(dead[0])
            } else {
                None
            },
            black_captures: self.black_captures + if self.to_move == Color::Black {
                dead.len() as int
            } else {
                0
            },
            white_captures: self.white_captures + if self.to_move == Color::White {
                dead.len() as int
            } else {
                0
            },
            history: self.history.push(self.record(Move::Play(p), dead.len())),
            passes: 0,
            resigned: self.resigned,
        }
    }

    /// Why a move is refused, if it is. Captures come before the question of
    /// suicide: a stone that takes something may be placed without liberties.
    pub open spec fn refusal(self, mv: Move) -> Option<Illegal> {
        if self.over() {
            Some(Illegal::GameOver)
        } else {
            match mv {
                Move::Pass => None,
                Move::Play(p) => {
                    if self.cells[p.cell()] is Some {
                        Some(Illegal::Occupied(self.cells[p.cell()]->0))
                    } else if self.ko == Some(p) {
                        Some(Illegal::Ko)
                    } else if taken(self.placed(p), p, self.to_move).len() == 0 && !has_liberty(
                        self.placed(p),
                        p,
                    ) {
                        Some(Illegal::Suicide)
                    } else {
                        None
                    }
                },
            }
        }
    }

    /// The referee can answer the move. A game that is over refuses any move;
    /// otherwise the move must name a cell, and unless it is refused its number
    /// must fit into the record.
    pub open spec fn answers(self, mv: Move) -> bool {
        self.over() || (mv.addressable() && (self.refusal(mv) is Some || self.has_room()))
    }

    /// The number of one more move fits into a record.
    pub open spec fn has_room(self) -> bool {
        self.history.len() < u32::MAX
    }

    /// The points where the player to move may place a stone, in reading order.
    pub open spec fn legal_points(self) -> Seq<Point> {
        listing(|p: Point| p.on_board() && self.refusal(Move::Play(p)) is None)
    }

    /// The state after `c` has resigned.
    pub open spec fn after_resigning(self, c: Color) -> GameState {
        GameState { resigned: Some(c), ..self }
    }

    /// The state after an accepted move.
    pub open spec fn after(self, mv: Move) -> GameState {
        match mv {
            Move::Pass => self.after_pass(),
            Move::Play(p) => self.after_play(p),
        }
    }
}

proof fn lemma_count_empty(cells: Cells, color: Color)
    requires
        forall|i: int| 0 <= i < cells.len() ==> #[trigger] cells[i] is None,
    ensures
        count(cells, color) == 0,
    decreases cells.len(),
{
    if cells.len() > 0 {
        assert(cells.last() is None);
        lemma_count_empty(cells.drop_last(), color);
    }
}

/// The empty board is a valid state.
pub proof fn lemma_initial_valid()
    ensures
        GameState::initial().valid(),
{
    let s = GameState::initial();
    assert forall|c: Color| #[trigger]
        count(s.cells, c) + s.captures(c.rival()) == placements(s.history, c) by {
        lemma_count_empty(s.cells, c);
    }
}

/// Replacing what stands on one cell moves the counts by one at most.
proof fn lemma_count_update(cells: Cells, i: int, content: Option<Color>, color: Color)
    requires
        0 <= i < cells.len(),
    ensures
        count(cells.update(i, content), color) + (if cells[i] == Some(color) {
            1nat
        } else {
            0nat
        }) == count(cells, color) + (if content == Some(color) {
            1nat
        } else {
            0nat
        }),
    decreases cells.len(),
{
    let after = cells.update(i, content);
    if i == cells.len() - 1 {
        assert(after.drop_last() =~= cells.drop_last());
    } else {
        assert(after.drop_last() =~= cells.drop_last().update(i, content));
        lemma_count_update(cells.drop_last(), i, content, color);
    }
}

/// Taking off one stone more.
pub proof fn lemma_lift_last(cells: Cells, points: Seq<Point>)
    requires
        points.len() > 0,
        points.last().cell() < cells.len(),
    ensures
        lift(cells, points) == lift(cells, points.drop_last()).update(points.last().cell(), None),
{
    let a = lift(cells, points);
    let b = lift(cells, points.drop_last()).update(points.last().cell(), None);
    assert(a.len() == b.len());
    assert forall|i: int| 0 <= i < a.len() implies a[i] == b[i] by {
        let fewer = points.drop_last();
        if exists|k: int| 0 <= k < fewer.len() && (#[trigger] fewer[k]).cell() == i {
            let k = choose|k: int| 0 <= k < fewer.len() && (#[trigger] fewer[k]).cell() == i;
            assert(points[k].cell() == i);
        }
        if exists|k: int| 0 <= k < points.len() && (#[trigger] points[k]).cell() == i {
            let k = choose|k: int| 0 <= k < points.len() && (#[trigger] points[k]).cell() == i;
            if k < fewer.len() {
                assert(fewer[k].cell() == i);
            }
        }
    }
    assert(a =~= b);
}

/// What is known of the stones that a placed stone takes.
pub proof fn lemma_taken(cells: Cells, p: Point, color: Color)
    ensures
        forall|i: int|
            #![trigger taken(cells, p, color)[i]]
            0 <= i < taken(cells, p, color).len() ==> {
                &&& taken(cells, p, color)[i].on_board()
                &&& cells[taken(cells, p, color)[i].cell()] == Some(color.rival())
                &&& captured(cells, p, color, taken(cells, p, color)[i])
            },
        forall|i: int, j: int|
            #![trigger taken(cells, p, color)[i], taken(cells, p, color)[j]]
            0 <= i < j < taken(cells, p, color).len() ==> taken(cells, p, color)[i].rank()
                < taken(cells, p, color)[j].rank(),
        forall|q: Point| #[trigger]
            taken(cells, p, color).contains(q) <==> captured(cells, p, color, q),
{
    let pred = |q: Point| captured(cells, p, color, q);
    let s = taken(cells, p, color);
    lemma_listing_upto(pred, POSITIONS as nat);
    assert forall|q: Point| captured(cells, p, color, q) implies q.on_board() && cells[q.cell()]
        == Some(color.rival()) && #[trigger] s.contains(q) by {
        let n = choose|n: Point| #[trigger]
            adjacent(p, n) && cells[n.cell()] == Some(color.rival()) && connected(cells, n, q)
                && !has_liberty(cells, n);
        lemma_connected_holds(cells, n, q);
        assert(pred(q));
    }
    assert forall|i: int|
        #![trigger s[i]]
        0 <= i < s.len() implies s[i].on_board() && cells[s[i].cell()] == Some(color.rival())
            && captured(cells, p, color, s[i]) by {
        assert(s.contains(s[i]));
        assert(pred(s[i]));
    }
}

/// Taking off stones of one color lowers its count by as many, and leaves the
/// count of the other color alone.
proof fn lemma_lift_count(cells: Cells, points: Seq<Point>, color: Color, c: Color)
    requires
        cells.len() == AREA,
        forall|i: int|
            #![trigger points[i]]
            0 <= i < points.len() ==> points[i].on_board() && cells[points[i].cell()] == Some(color),
        forall|i: int, j: int|
            #![trigger points[i], points[j]]
            0 <= i < j < points.len() ==> points[i].rank() < points[j].rank(),
    ensures
        lift(cells, points).len() == AREA,
        count(lift(cells, points), c) + (if c == color {
            points.len()
        } else {
            0
        }) == count(cells, c),
    decreases points.len(),
{
    if points.len() == 0 {
        assert(lift(cells, points) =~= cells);
    } else {
        let fewer = points.drop_last();
        let at = points.last().cell();
        lemma_lift_count(cells, fewer, color, c);
        lemma_lift_last(cells, points);
        let partly = lift(cells, fewer);
        assert(partly[at] == Some(color)) by {
            if exists|k: int| 0 <= k < fewer.len() && (#[trigger] fewer[k]).cell() == at {
                let k = choose|k: int| 0 <= k < fewer.len() && (#[trigger] fewer[k]).cell() == at;
                assert(fewer[k] == points[k]);
                assert(points[k].rank() < points[points.len() - 1].rank());
            }
            assert(cells[points[points.len() - 1].cell()] == Some(color));
        }
        lemma_count_update(partly, at, None, c);
    }
}

proof fn lemma_placements_bound(history: Seq<MoveRecord>, color: Color)
    ensures
        placements(history, color) <= history.len(),
    decreases history.len(),
{
    if history.len() > 0 {
        lemma_placements_bound(history.drop_last(), color);
    }
}

/// The bookkeeping of a placed stone adds up.
pub proof fn lemma_after_play_counts(s: GameState, p: Point)
    requires
        s.valid(),
        p.addressable(),
        s.cells[p.cell()] is None,
        s.history.len() < u32::MAX,
    ensures
        ({
            let dead = taken(s.placed(p), p, s.to_move);
            let next = s.after_play(p);
            &&& next.cells.len() == AREA
            &&& s.captures(s.to_move) + dead.len() <= s.history.len()
            &&& dead.len() <= AREA
            &&& next.cells[p.cell()] == Some(s.to_move)
            &&& forall|c: Color| #[trigger]
                count(next.cells, c) + next.captures(c.rival()) == placements(next.history, c)
            &&& forall|c: Color| #[trigger] next.captures(c) == tally(next.history, c)
        }),
{
    let cells = s.placed(p);
    let dead = taken(cells, p, s.to_move);
    let next = s.after_play(p);
    lemma_taken(cells, p, s.to_move);
    let rival = s.to_move.rival();
    lemma_lift_count(cells, dead, rival, Color::Black);
    lemma_lift_count(cells, dead, rival, Color::White);
    lemma_count_update(s.cells, p.cell(), Some(s.to_move), Color::Black);
    lemma_count_update(s.cells, p.cell(), Some(s.to_move), Color::White);
    lemma_placements_bound(s.history, rival);
    assert(count(s.cells, rival) + s.captures(rival.rival()) == placements(s.history, rival));
    lemma_count_bound(s.cells, rival);
    assert(next.history.drop_last() =~= s.history);
    let r = s.record(Move::Play(p), dead.len());
    assert(next.history.last() == r);
    assert forall|c: Color| #[trigger]
        count(next.cells, c) + next.captures(c.rival()) == placements(next.history, c) by {
        assert(count(s.cells, c) + s.captures(c.rival()) == placements(s.history, c));
    }
    assert forall|c: Color| #[trigger] next.captures(c) == tally(next.history, c) by {
        assert(s.captures(c) == tally(s.history, c));
    }
    assert(next.cells[p.cell()] == Some(s.to_move)) by {
        if exists|k: int| 0 <= k < dead.len() && (#[trigger] dead[k]).cell() == p.cell() {
            let k = choose|k: int| 0 <= k < dead.len() && (#[trigger] dead[k]).cell() == p.cell();
            assert(cells[dead[k].cell()] == Some(rival));
        }
    }
}

proof fn lemma_count_bound(cells: Cells, color: Color)
    ensures
        count(cells, color) <= cells.len(),
    decreases cells.len(),
{
    if cells.len() > 0 {
        lemma_count_bound(cells.drop_last(), color);
    }
}

/// An accepted move leads from a valid state to a valid state.
pub proof fn lemma_after_valid(s: GameState, mv: Move)
    requires
        s.valid(),
        mv.addressable(),
        s.refusal(mv) is None,
        s.history.len() < u32::MAX,
    ensures
        s.after(mv).valid(),
{
    let next = s.after(mv);
    assert(next.history.drop_last() =~= s.history);
    match mv {
        Move::Pass => {
            assert forall|c: Color| #[trigger]
                count(next.cells, c) + next.captures(c.rival()) == placements(next.history, c) by {
                assert(count(s.cells, c) + s.captures(c.rival()) == placements(s.history, c));
            }
            assert forall|c: Color| #[trigger] next.captures(c) == tally(next.history, c) by {
                assert(s.captures(c) == tally(s.history, c));
            }
        },
        Move::Play(p) => {
            lemma_after_play_counts(s, p);
            let cells = s.placed(p);
            let dead = taken(cells, p, s.to_move);
            lemma_taken(cells, p, s.to_move);
            if next.ko is Some {
                let k = dead[0];
                assert(next.ko == Some(k));
                assert(dead[0].cell() == k.cell());
                assert(next.cells[k.cell()] is None);
            }
        },
    }
    assert forall|i: int| 0 <= i < next.history.len() implies {
        &&& (#[trigger] next.history[i]).number == i + 1
        &&& next.history[i].color == mover(i)
        &&& next.history[i].mv.addressable()
    } by {
        if i < s.history.len() {
            assert(next.history[i] == s.history[i]);
        }
    }
}

/// A group without liberties lists none.
pub proof fn lemma_liberties_listed(cells: Cells, p: Point)
    ensures
        liberties_of(cells, p).len() == 0 <==> !has_liberty(cells, p),
{
    let pred = |l: Point| liberty(cells, p, l);
    let s = liberties_of(cells, p);
    lemma_listing_upto(pred, POSITIONS as nat);
    if has_liberty(cells, p) {
        let l = choose|l: Point| #[trigger] liberty(cells, p, l);
        assert(pred(l));
        assert(s.contains(l));
    }
    if s.len() > 0 {
        assert(s.contains(s[0]));
        assert(pred(s[0]));
        assert(liberty(cells, p, s[0]));
    }
}

/// Connected points touch the same colors.
pub proof fn lemma_borders_shared(cells: Cells, p: Point, q: Point, c: Color)
    requires
        p.on_board(),
        connected(cells, p, q),
    ensures
        borders(cells, p, c) == borders(cells, q, c),
{
    lemma_connected_symmetric(cells, p, q);
    if borders(cells, p, c) {
        let (s, t) = choose|s: Point, t: Point|
            connected(cells, p, s) && #[trigger] adjacent(s, t) && cells[t.cell()] == Some(c);
        lemma_connected_transitive(cells, q, p, s);
        assert(adjacent(s, t));
    }
    if borders(cells, q, c) {
        let (s, t) = choose|s: Point, t: Point|
            connected(cells, q, s) && #[trigger] adjacent(s, t) && cells[t.cell()] == Some(c);
        lemma_connected_transitive(cells, p, q, s);
        assert(adjacent(s, t));
    }
}

} // verus!

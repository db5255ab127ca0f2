//! Authoritative 19x19 Go rules.
//!
//! The game, not the model, owns legality. Everything here is pure, so that a
//! move is either accepted or refused with a specific reason.

use vstd::prelude::*;

use crate::board::{
    adjacent, connected, empty_neighbors, has_liberty, lemma_connected_holds, lemma_listing_same,
    lemma_listing_upto, liberty, members, read_out, Cells, AREA, POSITIONS,
};
use crate::rules::{
    captured, group_of, lemma_after_play_counts, lemma_after_valid, lemma_liberties_listed,
    lemma_lift_last, lemma_taken, lift, taken, GameState, GroupView,
};

verus! {

/// Lines on a side of the board.
pub const SIZE: usize = 19;

/// Columns skip `I` by convention, so 19 letters span A to T.
pub const COLS: [u8; 19] = [
    65, 66, 67, 68, 69, 70, 71, 72, 74, 75, 76, 77, 78, 79, 80, 81, 82, 83, 84,
];

#[derive(Debug, Clone, Copy, PartialEq, Eq, Hash, Structural)]
pub enum Color {
    Black,
    White,
}

impl Color {
    /// The other player.
    pub open spec fn rival(self) -> Color {
        match self {
            Color::Black => Color::White,
            Color::White => Color::Black,
        }
    }

    /// The other player.
    pub fn opposite(self) -> (r: Color)
        ensures
            r == self.rival(),
    {
        match self {
            Color::Black => Color::White,
            Color::White => Color::Black,
        }
    }

    fn index(self) -> (r: usize)
        ensures
            r == (if self == Color::Black { 0usize } else { 1usize }),
    {
        match self {
            Color::Black => 0,
            Color::White => 1,
        }
    }
}

/// A board intersection. `row` is measured from the top, so row 0 renders as
/// board row 19 and `Point { row: 18, col: 0 }` is A1.
#[derive(Debug, Clone, Copy, PartialEq, Eq, Hash, PartialOrd, Ord, Structural)]
pub struct Point {
    pub row: usize,
    pub col: usize,
}

impl Point {
    pub fn new(row: usize, col: usize) -> (r: Point)
        ensures
            r == (Point { row, col }),
    {
        Point { row, col }
    }
}

#[derive(Debug, Clone, Copy, PartialEq, Eq, Structural)]
pub enum Move {
    Play(Point),
    Pass,
}

impl Move {
    /// The move names a cell, if it places a stone.
    pub open spec fn addressable(self) -> bool {
        self matches Move::Play(p) ==> p.addressable()
    }

    /// The move names a point of the board, if it places a stone.
    pub open spec fn on_board(self) -> bool {
        self matches Move::Play(p) ==> p.on_board()
    }
}

/// Why a placement was refused. Each variant renders into the tool error the
/// model sees, so the wording is part of the interface.
#[derive(Debug, Clone, Copy, PartialEq, Eq, Structural)]
pub enum Illegal {
    Occupied(Color),
    Suicide,
    Ko,
    GameOver,
}

/// One group of connected same-color stones.
#[derive(Debug, Clone)]
pub struct Group {
    pub color: Color,
    pub stones: Vec<Point>,
    pub liberties: Vec<Point>,
}

impl View for Group {
    type V = GroupView;

    open spec fn view(&self) -> GroupView {
        GroupView { color: self.color, stones: self.stones@, liberties: self.liberties@ }
    }
}

#[derive(Debug, Clone, Copy, PartialEq, Eq, Structural)]
pub struct MoveRecord {
    pub number: u32,
    pub color: Color,
    pub mv: Move,
    pub captured: usize,
}

#[derive(Debug)]
pub struct Game {
    cells: Vec<Option<Color>>,
    to_move: Color,
    /// Simple ko: the single point that may not be retaken next move.
    ko: Option<Point>,
    captures: [u32; 2],
    history: Vec<MoveRecord>,
    consecutive_passes: u32,
    resigned: Option<Color>,
}

impl View for Game {
    type V = GameState;

    closed spec fn view(&self) -> GameState {
        GameState {
            cells: self.cells@,
            to_move: self.to_move,
            ko: self.ko,
            black_captures: self.captures@[0] as int,
            white_captures: self.captures@[1] as int,
            history: self.history@,
            passes: self.consecutive_passes as int,
            resigned: self.resigned,
        }
    }
}

impl Game {
    /// What holds of every state that play can lead to: the board has all its
    /// cells, and the records, captures and stones add up.
    pub open spec fn wf(&self) -> bool {
        self@.valid()
    }

    /// An empty board with Black to move.
    pub fn new() -> (g: Game)
        ensures
            g.wf(),
            g@ == GameState::initial(),
    {
        let g = Game {
            cells: vec![None; AREA],
            to_move: Color::Black,
            ko: None,
            captures: [0, 0],
            history: Vec::new(),
            consecutive_passes: 0,
            resigned: None,
        };
        proof {
            assert(g@.cells =~= GameState::initial().cells);
            assert(g@ == GameState::initial());
            crate::rules::lemma_initial_valid();
        }
        g
    }

    /// What stands on the cell that `p` addresses.
    pub fn at(&self, p: Point) -> (r: Option<Color>)
        requires
            self.wf(),
            p.addressable(),
        ensures
            r == self@.cells[p.cell()],
    {
        self.cells[p.row * SIZE + p.col]
    }

    /// What stands on each cell.
    pub(crate) fn cells(&self) -> (r: &Vec<Option<Color>>)
        ensures
            r@ == self@.cells,
    {
        &self.cells
    }

    /// Put `c` on the cell that `p` addresses.
    fn set(&mut self, p: Point, c: Option<Color>)
        requires
            old(self)@.cells.len() == AREA,
            p.addressable(),
        ensures
            final(self)@ == (GameState { cells: old(self)@.cells.update(p.cell(), c), ..old(self)@ }),
    {
        self.cells[p.row * SIZE + p.col] = c;
    }

    /// Who makes the next move.
    pub fn to_move(&self) -> (r: Color)
        ensures
            r == self@.to_move,
    {
        self.to_move
    }

    /// The point that may not be retaken by the next move.
    pub fn ko_point(&self) -> (r: Option<Point>)
        ensures
            r == self@.ko,
    {
        self.ko
    }

    /// Stones taken by `c`.
    pub fn captures(&self, c: Color) -> (r: u32)
        ensures
            r == self@.captures(c),
    {
        self.captures[c.index()]
    }

    /// The moves so far.
    pub fn history(&self) -> (r: &[MoveRecord])
        ensures
            r@ == self@.history,
    {
        self.history.as_slice()
    }

    /// Number of the move about to be played (1-based).
    pub fn move_number(&self) -> (r: u32)
        requires
            self@.history.len() < u32::MAX,
        ensures
            r == self@.history.len() + 1,
    {
        self.history.len() as u32 + 1
    }

    /// Two passes in a row, or a resignation, end the game.
    pub fn is_over(&self) -> (r: bool)
        ensures
            r == self@.over(),
    {
        self.resigned.is_some() || self.consecutive_passes >= 2
    }

    /// Who gave up the game, if anyone did.
    pub fn resigned_by(&self) -> (r: Option<Color>)
        ensures
            r == self@.resigned,
    {
        self.resigned
    }

    /// `c` gives up the game.
    pub fn resign(&mut self, c: Color)
        ensures
            final(self)@ == old(self)@.after_resigning(c),
            old(self).wf() ==> final(self).wf(),
            final(self)@.over(),
    {
        self.resigned = Some(c);
        assert(forall|d: Color| self@.captures(d) == old(self)@.captures(d));
    }

    /// The group containing `p`, or `None` if the point is empty.
    pub fn group_at(&self, p: Point) -> (r: Option<Group>)
        requires
            self@.cells.len() == AREA,
            p.addressable(),
        ensures
            r is None <==> self@.cells[p.cell()] is None,
            r matches Some(g) ==> g@ == group_of(self@.cells, p),
    {
        let color = match self.cells[p.row * SIZE + p.col] {
            Some(c) => c,
            None => {
                return None;
            },
        };
        let stones = members(&self.cells, p);
        let ghost cells = self@.cells;
        let ghost inside = |q: Point| connected(cells, p, q);
        proof {
            lemma_listing_upto(inside, POSITIONS as nat);
            assert forall|i: int| 0 <= i < stones@.len() implies (
            #[trigger] stones@[i]).addressable() by {
                assert(stones@.contains(stones@[i]));
                lemma_connected_holds(cells, p, stones@[i]);
            }
        }
        let liberties = empty_neighbors(&self.cells, &stones);
        proof {
            let a = |l: Point|
                cells[l.cell()] is None && exists|s: Point| #[trigger]
                    stones@.contains(s) && adjacent(s, l);
            let b = |l: Point| liberty(cells, p, l);
            assert forall|l: Point| l.row < SIZE && l.col < AREA implies #[trigger] a(l) == b(l) by {
                if a(l) {
                    let s = choose|s: Point| #[trigger]
                        stones@.contains(s) && adjacent(s, l);
                    assert(connected(cells, p, s));
                }
                if b(l) {
                    let s = choose|s: Point| #[trigger]
                        connected(cells, p, s) && adjacent(s, l);
                    lemma_connected_holds(cells, p, s);
                    assert(inside(s));
                    assert(stones@.contains(s));
                }
            }
            lemma_listing_same(a, b, POSITIONS as nat);
        }
        Some(Group { color, stones, liberties })
    }

    /// The stones of the other color that the stone just placed on `p` leaves
    /// without liberties, in reading order.
    fn dead_stones(&self, p: Point, color: Color) -> (r: Vec<Point>)
        requires
            self@.cells.len() == AREA,
            p.addressable(),
        ensures
            r@ == taken(self@.cells, p, color),
    {
        let ghost cells = self@.cells;
        let around = p.neighbors();
        let mut marks: Vec<bool> = vec![false; AREA];
        let mut k: usize = 0;
        while k < around.len()
            invariant
                self@.cells.len() == AREA,
                cells == self@.cells,
                marks@.len() == AREA,
                k <= around@.len(),
                forall|q: Point| #[trigger] around@.contains(q) <==> adjacent(p, q),
                forall|q: Point|
                    #![trigger marks@[q.cell()]]
                    q.on_board() ==> (marks@[q.cell()] <==> exists|j: int|
                        0 <= j < k && dies_with(cells, #[trigger] around@[j], color, q)),
            decreases around@.len() - k,
        {
            let n = around[k];
            assert(around@.contains(n));
            let ghost before = marks@;
            let mut hit = false;
            let mut group: Vec<Point> = Vec::new();
            if self.cells[n.row * SIZE + n.col] == Some(color.opposite()) {
                match self.group_at(n) {
                    Some(g) => {
                        proof {
                            lemma_liberties_listed(cells, n);
                        }
                        if g.liberties.is_empty() {
                            hit = true;
                            group = g.stones;
                        }
                    },
                    None => {},
                }
            }
            proof {
                lemma_listing_upto(|q: Point| connected(cells, n, q), POSITIONS as nat);
                assert forall|q: Point| hit implies (#[trigger] group@.contains(q) <==> connected(
                    cells,
                    n,
                    q,
                )) by {
                    if connected(cells, n, q) {
                        lemma_connected_holds(cells, n, q);
                    }
                }
                assert forall|i: int| 0 <= i < group@.len() implies (
                #[trigger] group@[i]).on_board() by {
                    assert(group@.contains(group@[i]));
                    lemma_connected_holds(cells, n, group@[i]);
                }
            }
            let mut i: usize = 0;
            while i < group.len()
                invariant
                    marks@.len() == AREA,
                    before.len() == AREA,
                    i <= group@.len(),
                    forall|j: int| 0 <= j < group@.len() ==> (#[trigger] group@[j]).on_board(),
                    forall|q: Point|
                        #![trigger marks@[q.cell()]]
                        q.on_board() ==> (marks@[q.cell()] <==> before[q.cell()] || exists|j: int|
                            0 <= j < i && #[trigger] group@[j] == q),
                decreases group@.len() - i,
            {
                let s = group[i];
                let ghost prior = marks@;
                marks[s.row * SIZE + s.col] = true;
                proof {
                    assert forall|q: Point|
                        #![trigger marks@[q.cell()]]
                        q.on_board() implies (marks@[q.cell()] <==> before[q.cell()] || exists|
                        j: int,
                    |
                        0 <= j < i + 1 && #[trigger] group@[j] == q) by {
                        assert(prior[q.cell()] <==> before[q.cell()] || exists|j: int|
                            0 <= j < i && #[trigger] group@[j] == q);
                        if q.cell() == s.cell() {
                            assert(q == s);
                            assert(group@[i as int] == q);
                        }
                    }
                }
                i += 1;
            }
            proof {
                assert forall|q: Point|
                    #![trigger marks@[q.cell()]]
                    q.on_board() implies (marks@[q.cell()] <==> exists|j: int|
                    0 <= j < k + 1 && dies_with(cells, #[trigger] around@[j], color, q)) by {
                    assert(before[q.cell()] <==> exists|j: int|
                        0 <= j < k && dies_with(cells, #[trigger] around@[j], color, q));
                    if exists|j: int| 0 <= j < group@.len() && #[trigger] group@[j] == q {
                        assert(group@.contains(q));
                        assert(dies_with(cells, around@[k as int], color, q));
                    }
                    if dies_with(cells, around@[k as int], color, q) {
                        assert(group@.contains(q));
                    }
                }
            }
            k += 1;
        }
        let r = read_out(&marks, None);
        proof {
            let a = |q: Point| (q.on_board() && marks@[q.cell()]) || None::<Point> == Some(q);
            let b = |q: Point| captured(cells, p, color, q);
            assert forall|q: Point| q.row < SIZE && q.col < AREA implies #[trigger] a(q) == b(q) by {
                if a(q) {
                    let j = choose|j: int|
                        0 <= j < around@.len() && dies_with(cells, #[trigger] around@[j], color, q);
                    assert(around@.contains(around@[j]));
                    assert(adjacent(p, around@[j]));
                }
                if b(q) {
                    let n = choose|n: Point| #[trigger]
                        adjacent(p, n) && cells[n.cell()] == Some(color.rival()) && connected(
                            cells,
                            n,
                            q,
                        ) && !has_liberty(cells, n);
                    lemma_connected_holds(cells, n, q);
                    assert(around@.contains(n));
                    let j = choose|j: int| 0 <= j < around@.len() && around@[j] == n;
                    assert(dies_with(cells, around@[j], color, q));
                    assert(marks@[q.cell()]);
                }
            }
            lemma_listing_same(a, b, POSITIONS as nat);
        }
        r
    }

    /// Validate and apply a move by the player to move.
    pub fn play(&mut self, mv: Move) -> (res: Result<MoveRecord, Illegal>)
        requires
            old(self).wf(),
            old(self)@.answers(mv),
        ensures
            final(self).wf(),
            match old(self)@.refusal(mv) {
                Some(why) => {
                    &&& res == Err::<MoveRecord, Illegal>(why)
                    &&& final(self)@ == old(self)@
                },
                None => {
                    &&& res == Ok::<MoveRecord, Illegal>(final(self)@.history.last())
                    &&& final(self)@ == old(self)@.after(mv)
                },
            },
    {
        let ghost start = self@;
        if self.is_over() {
            return Err(Illegal::GameOver);
        }
        let color = self.to_move;
        let record = match mv {
            Move::Pass => {
                self.consecutive_passes += 1;
                self.ko = None;
                MoveRecord { number: self.move_number(), color, mv: Move::Pass, captured: 0 }
            },
            Move::Play(p) => {
                if let Some(c) = self.at(p) {
                    return Err(Illegal::Occupied(c));
                }
                if self.ko == Some(p) {
                    return Err(Illegal::Ko);
                }
                // Tentatively place, then resolve captures before checking
                // suicide: a move that kills is legal even with no liberties
                // of its own beforehand.

                self.set(p, Some(color));
                let dead = self.dead_stones(p, color);
                if dead.is_empty() {
                    proof {
                        lemma_liberties_listed(start.placed(p), p);
                    }
                    let breathes = match self.group_at(p) {
                        Some(own) => !own.liberties.is_empty(),
                        None => false,
                    };
                    if !breathes {
                        self.set(p, None);
                        assert(self@.cells =~= start.cells);
                        return Err(Illegal::Suicide);
                    }
                }
                proof {
                    lemma_after_play_counts(start, p);
                    lemma_taken(start.placed(p), p, color);
                    assert(lift(start.placed(p), dead@.take(0)) =~= start.placed(p));
                }
                let mut i: usize = 0;
                while i < dead.len()
                    invariant
                        i <= dead@.len(),
                        start.cells.len() == AREA,
                        p.addressable(),
                        forall|j: int| 0 <= j < dead@.len() ==> (#[trigger] dead@[j]).on_board(),
                        self@ == (GameState {
                            cells: lift(start.placed(p), dead@.take(i as int)),
                            ..start
                        }),
                    decreases dead@.len() - i,
                {
                    let c = dead[i];
                    self.set(c, None);
                    proof {
                        let more = dead@.take(i + 1);
                        assert(more.drop_last() =~= dead@.take(i as int));
                        lemma_lift_last(start.placed(p), more);
                    }
                    i += 1;
                }
                assert(dead@.take(dead@.len() as int) =~= dead@);
                let mine = color.index();
                self.captures[mine] = self.captures[mine] + dead.len() as u32;
                // Simple ko: exactly one stone taken by a lone stone that is
                // itself left on one liberty.

                let single = match self.group_at(p) {
                    Some(own) => own.stones.len() == 1 && own.liberties.len() == 1,
                    None => false,
                };
                self.ko = if dead.len() == 1 && single {
                    Some(dead[0])
                } else {
                    None
                };
                self.consecutive_passes = 0;
                MoveRecord {
                    number: self.move_number(),
                    color,
                    mv: Move::Play(p),
                    captured: dead.len(),
                }
            },
        };
        self.history.push(record);
        self.to_move = color.opposite();
        proof {
            assert(self@ =~= start.after(mv));
            lemma_after_valid(start, mv);
        }
        Ok(record)
    }

    /// Check legality without mutating, keeping the specific reason.
    pub fn validate(&self, mv: Move) -> (res: Result<(), Illegal>)
        requires
            self.wf(),
            self@.answers(mv),
        ensures
            res == match self@.refusal(mv) {
                Some(why) => Err::<(), Illegal>(why),
                None => Ok(()),
            },
    {
        let mut probe = self.clone();
        match probe.play(mv) {
            Ok(_) => Ok(()),
            Err(why) => Err(why),
        }
    }

    /// Would this move be legal?
    pub fn is_legal(&self, mv: Move) -> (r: bool)
        requires
            self.wf(),
            self@.answers(mv),
        ensures
            r == (self@.refusal(mv) is None),
    {
        self.validate(mv).is_ok()
    }
}

impl Clone for Game {
    fn clone(&self) -> (r: Game)
        ensures
            r@ == self@,
    {
        let mut cells: Vec<Option<Color>> = Vec::new();
        let mut i: usize = 0;
        while i < self.cells.len()
            invariant
                i <= self.cells@.len(),
                cells@ == self.cells@.take(i as int),
            decreases self.cells@.len() - i,
        {
            cells.push(self.cells[i]);
            i += 1;
            assert(self.cells@.take(i as int) =~= self.cells@.take(i - 1).push(
                self.cells@[i - 1],
            ));
        }
        let mut history: Vec<MoveRecord> = Vec::new();
        let mut k: usize = 0;
        while k < self.history.len()
            invariant
                k <= self.history@.len(),
                history@ == self.history@.take(k as int),
            decreases self.history@.len() - k,
        {
            history.push(self.history[k]);
            k += 1;
            assert(self.history@.take(k as int) =~= self.history@.take(k - 1).push(
                self.history@[k - 1],
            ));
        }
        proof {
            assert(cells@ =~= self.cells@);
            assert(history@ =~= self.history@);
        }
        Game {
            cells,
            to_move: self.to_move,
            ko: self.ko,
            captures: self.captures,
            history,
            consecutive_passes: self.consecutive_passes,
            resigned: self.resigned,
        }
    }
}

impl Default for Game {
    fn default() -> (g: Game)
        ensures
            g.wf(),
            g@ == GameState::initial(),
    {
        Game::new()
    }
}

/// The stone on `q` is taken with the group of the neighbor `n`.
spec fn dies_with(cells: Cells, n: Point, color: Color, q: Point) -> bool {
    cells[n.cell()] == Some(color.rival()) && connected(cells, n, q) && !has_liberty(cells, n)
}

} // verus!

//! An opponent that plays by itself.

use vstd::prelude::*;

use crate::board::{lemma_listing_upto, Cells, POSITIONS};
use crate::goban::{Game, Move, Point, SIZE};
use crate::rules::GameState;

verus! {

/// The state that follows a state of the generator.
pub open spec fn next_state(x: u64) -> u64 {
    let a = x ^ (x >> 12);
    let b = a ^ (a << 25);
    b ^ (b >> 27)
}

/// The number drawn from a state: the high half of its product with a constant,
/// of which the low 64 bits are kept.
pub open spec fn drawn(x: u64) -> u32 {
    ((x * 0x2545_F491_4F6C_DD1D) % 0x1_0000_0000_0000_0000 / 0x1_0000_0000) as u32
}

/// xorshift64*, so that the bot is reproducible.
pub struct Rng(u64);

impl View for Rng {
    type V = u64;

    closed spec fn view(&self) -> u64 {
        self.0
    }
}

impl Rng {
    /// A generator that starts from `seed`, or from 1 if that is zero.
    pub fn new(seed: u64) -> (r: Rng)
        ensures
            r@ == (if seed == 0 {
                1
            } else {
                seed
            }),
    {
        Rng(
            if seed == 0 {
                1
            } else {
                seed
            },
        )
    }

    /// Draw the next number.
    pub fn next_u32(&mut self) -> (r: u32)
        ensures
            final(self)@ == next_state(old(self)@),
            r == drawn(final(self)@),
    {
        let mut x = self.0;
        x = x ^ (x >> 12);
        x = x ^ (x << 25);
        x = x ^ (x >> 27);
        self.0 = x;
        let y = x.wrapping_mul(0x2545_F491_4F6C_DD1D);
        assert(y >> 32 == y / 0x1_0000_0000) by (bit_vector);
        (y >> 32) as u32
    }
}

/// The generator never falls into the state zero, which would repeat forever.
pub proof fn law_generator_does_not_stick(x: u64)
    requires
        x != 0,
    ensures
        next_state(x) != 0,
{
    let a = x ^ (x >> 12);
    let b = a ^ (a << 25);
    assert(x != 0 ==> x ^ (x >> 12) != 0) by (bit_vector);
    assert(a != 0 ==> a ^ (a << 25) != 0) by (bit_vector);
    assert(b != 0 ==> b ^ (b >> 27) != 0) by (bit_vector);
}

/// `q` is one of the up to eight points around `p`.
pub open spec fn around(p: Point, q: Point) -> bool {
    &&& q.on_board()
    &&& q != p
    &&& p.row <= q.row + 1
    &&& q.row <= p.row + 1
    &&& p.col <= q.col + 1
    &&& q.col <= p.col + 1
}

/// A stone stands next to `p`, be it across a corner.
pub open spec fn touches(cells: Cells, p: Point) -> bool {
    exists|q: Point| #[trigger] around(p, q) && cells[q.cell()] is Some
}

fn has_neighbor_stone(game: &Game, p: Point) -> (r: bool)
    requires
        game.wf(),
        p.on_board(),
    ensures
        r == touches(game@.cells, p),
{
    let ghost cells = game@.cells;
    let top: usize = if p.row == 0 {
        0
    } else {
        p.row - 1
    };
    let left: usize = if p.col == 0 {
        0
    } else {
        p.col - 1
    };
    let mut row: usize = top;
    while row < SIZE && row <= p.row + 1
        invariant
            game.wf(),
            cells == game@.cells,
            p.on_board(),
            top <= row <= SIZE,
            top <= p.row <= top + 1,
            left <= p.col <= left + 1,
            row <= p.row + 2,
            p.row > 0 ==> top == p.row - 1,
            p.col > 0 ==> left == p.col - 1,
            forall|q: Point| #[trigger] around(p, q) && q.row < row ==> cells[q.cell()] is None,
        decreases SIZE - row,
    {
        let mut col: usize = left;
        while col < SIZE && col <= p.col + 1
            invariant
                game.wf(),
                cells == game@.cells,
                p.on_board(),
                top <= row < SIZE,
                row <= p.row + 1,
                top <= p.row <= top + 1,
                left <= col <= SIZE,
                left <= p.col <= left + 1,
                col <= p.col + 2,
                p.row > 0 ==> top == p.row - 1,
                p.col > 0 ==> left == p.col - 1,
                forall|q: Point| #[trigger]
                    around(p, q) && (q.row < row || (q.row == row && q.col < col))
                        ==> cells[q.cell()] is None,
            decreases SIZE - col,
        {
            let q = Point { row, col };
            if (row != p.row || col != p.col) && game.at(q).is_some() {
                assert(around(p, q));
                return true;
            }
            col += 1;
        }
        row += 1;
    }
    false
}

/// Points that a stone stands next to.
pub open spec fn in_contact(cells: Cells) -> spec_fn(Point) -> bool {
    |p: Point| touches(cells, p)
}

/// The move that the bot makes in a state of the game and of its generator, and
/// the state of the generator then: mostly next to a stone, so that fights
/// happen; now and then anywhere, so that the game does not collapse into one
/// corner.
pub open spec fn choice(s: GameState, x: u64) -> (Move, u64) {
    let legal = s.legal_points();
    let contact = legal.filter(in_contact(s.cells));
    if legal.len() == 0 {
        (Move::Pass, x)
    } else if contact.len() == 0 {
        let y = next_state(x);
        (Move::Play(legal[drawn(y) as int % legal.len() as int]), y)
    } else {
        let y = next_state(x);
        let z = next_state(y);
        let pool = if drawn(y) % 4 != 0 {
            contact
        } else {
            legal
        };
        (Move::Play(pool[drawn(z) as int % pool.len() as int]), z)
    }
}

/// Choose a move for the player to move.
pub fn bot_move(game: &Game, rng: &mut Rng) -> (r: Move)
    requires
        game.wf(),
        game@.over() || game@.has_room(),
    ensures
        (r, final(rng)@) == choice(game@, old(rng)@),
{
    let legal = game.legal_moves();
    if legal.is_empty() {
        return Move::Pass;
    }
    let ghost points = legal@;
    let ghost wanted = in_contact(game@.cells);
    let mut contact: Vec<Point> = Vec::new();
    let mut i: usize = 0;
    proof {
        lemma_legal_points(game@);
        reveal(Seq::filter);
        assert(points.take(0).filter(wanted) =~= Seq::<Point>::empty());
    }
    while i < legal.len()
        invariant
            game.wf(),
            points == legal@,
            points == game@.legal_points(),
            forall|k: int| 0 <= k < points.len() ==> (#[trigger] points[k]).on_board(),
            wanted == in_contact(game@.cells),
            i <= points.len(),
            contact@ == points.take(i as int).filter(wanted),
        decreases points.len() - i,
    {
        let p = legal[i];
        proof {
            reveal(Seq::filter);
            assert(points.take(i + 1).drop_last() =~= points.take(i as int));
        }
        if has_neighbor_stone(game, p) {
            contact.push(p);
        }
        i += 1;
    }
    assert(points.take(i as int) =~= points);
    if !contact.is_empty() {
        if rng.next_u32() % 4 != 0 {
            let k = rng.next_u32() as usize % contact.len();
            return Move::Play(contact[k]);
        }
    }
    let k = rng.next_u32() as usize % legal.len();
    Move::Play(legal[k])
}

proof fn lemma_legal_points(s: GameState)
    ensures
        forall|k: int|
            0 <= k < s.legal_points().len() ==> (#[trigger] s.legal_points()[k]).on_board()
                && s.refusal(Move::Play(s.legal_points()[k])) is None,
{
    let pred = |p: Point| p.on_board() && s.refusal(Move::Play(p)) is None;
    let points = s.legal_points();
    lemma_listing_upto(pred, POSITIONS as nat);
    assert forall|k: int| 0 <= k < points.len() implies (#[trigger] points[k]).on_board()
        && s.refusal(Move::Play(points[k])) is None by {
        assert(points.contains(points[k]));
        assert(pred(points[k]));
    }
}

/// While the game lasts, the bot makes a move that is not refused.
pub proof fn law_bot_moves_are_legal(s: GameState, x: u64)
    requires
        !s.over(),
    ensures
        s.refusal(choice(s, x).0) is None,
        choice(s, x).0.on_board(),
{
    let legal = s.legal_points();
    let contact = legal.filter(in_contact(s.cells));
    lemma_legal_points(s);
    legal.lemma_filter_len(in_contact(s.cells));
    assert forall|k: int| 0 <= k < contact.len() implies legal.contains(#[trigger] contact[k]) by {
        lemma_filter_from(legal, in_contact(s.cells), k);
    }
    match choice(s, x).0 {
        Move::Pass => {},
        Move::Play(p) => {
            let y = next_state(x);
            let z = next_state(y);
            if contact.len() > 0 && drawn(y) % 4 != 0 {
                let k = drawn(z) as int % contact.len() as int;
                assert(p == contact[k]);
                assert(legal.contains(contact[k]));
            } else {
                assert(legal.contains(p));
            }
            let j = choose|j: int| 0 <= j < legal.len() && legal[j] == p;
            assert(legal[j] == p);
        },
    }
}

proof fn lemma_filter_from(s: Seq<Point>, pred: spec_fn(Point) -> bool, k: int)
    requires
        0 <= k < s.filter(pred).len(),
    ensures
        s.contains(s.filter(pred)[k]),
    decreases s.len(),
{
    reveal(Seq::filter);
    let rest = s.drop_last();
    if k < rest.filter(pred).len() {
        lemma_filter_from(rest, pred, k);
        let j = choose|j: int| 0 <= j < rest.len() && rest[j] == s.filter(pred)[k];
        assert(s[j] == s.filter(pred)[k]);
    } else {
        assert(s[s.len() - 1] == s.filter(pred)[k]);
    }
}

} // verus!

//! What neighborhood, connection, groups and areas amount to.

use vstd::prelude::*;

use crate::board::{
    adjacent, connected, lemma_connected_holds, lemma_connected_self, lemma_connected_step,
    lemma_listing_same, lemma_listing_upto, liberty, reach_in, step, Cells, AREA, POSITIONS,
};
use crate::goban::{Color, Point};
use crate::rules::{area, borders, group_of, owner};

verus! {

/// How far apart two numbers are.
pub open spec fn apart(a: int, b: int) -> int {
    if a < b {
        b - a
    } else {
        a - b
    }
}

/// Two points of the board are neighbors exactly if they lie one line apart in
/// one direction and on the same line in the other.
pub proof fn law_neighbors_lie_one_line_apart(p: Point, q: Point)
    requires
        p.on_board(),
    ensures
        adjacent(p, q) <==> q.row < 19 && q.col < 19 && apart(p.row as int, q.row as int) + apart(
            p.col as int,
            q.col as int,
        ) == 1,
        adjacent(p, q) ==> adjacent(q, p),
{
}

/// A point is connected with itself, and whatever is connected with it carries
/// on to the neighbors that hold the same.
pub proof fn law_connection_carries_on(cells: Cells, p: Point, a: Point, b: Point)
    requires
        connected(cells, p, a),
        adjacent(a, b),
        cells[b.cell()] == cells[a.cell()],
    ensures
        connected(cells, p, p),
        connected(cells, p, b),
{
    lemma_connected_self(cells, p);
    assert(step(cells, a, b));
    lemma_connected_step(cells, p, a, b);
}

/// Nothing else is connected: any set of points that holds `p`, and with a point
/// the neighbors that hold the same, holds all that is connected with `p`.
pub proof fn law_connection_goes_no_further(
    cells: Cells,
    p: Point,
    q: Point,
    inside: spec_fn(Point) -> bool,
)
    requires
        inside(p),
        forall|a: Point, b: Point|
            inside(a) && #[trigger] adjacent(a, b) && cells[b.cell()] == cells[a.cell()] ==> inside(
                b,
            ),
        connected(cells, p, q),
    ensures
        inside(q),
        cells[q.cell()] == cells[p.cell()],
{
    lemma_connected_holds(cells, p, q);
    let n = choose|n: nat| reach_in(cells, p, q, n);
    lemma_reach_stays(cells, p, q, n, inside);
}

proof fn lemma_reach_stays(
    cells: Cells,
    p: Point,
    q: Point,
    n: nat,
    inside: spec_fn(Point) -> bool,
)
    requires
        inside(p),
        forall|a: Point, b: Point|
            inside(a) && #[trigger] adjacent(a, b) && cells[b.cell()] == cells[a.cell()] ==> inside(
                b,
            ),
        reach_in(cells, p, q, n),
    ensures
        inside(q),
    decreases n,
{
    if n > 0 {
        let m = choose|m: Point|
            reach_in(cells, p, m, (n - 1) as nat) && #[trigger] step(cells, m, q);
        lemma_reach_stays(cells, p, m, (n - 1) as nat, inside);
        assert(adjacent(m, q));
    }
}

/// A group holds its stone, only stones of that color, and every stone of that
/// color next to one of its own; its liberties are the empty points next to one
/// of its stones. Both are listed once each, from the top left.
pub proof fn law_a_group_is_whole(cells: Cells, p: Point)
    requires
        cells.len() == AREA,
        p.on_board(),
        cells[p.cell()] is Some,
    ensures
        ({
            let g = group_of(cells, p);
            &&& cells[p.cell()] == Some(g.color)
            &&& g.stones.contains(p)
            &&& forall|q: Point| #[trigger]
                g.stones.contains(q) ==> q.on_board() && cells[q.cell()] == Some(g.color)
            &&& forall|a: Point, b: Point|
                g.stones.contains(a) && #[trigger] adjacent(a, b) && cells[b.cell()] == Some(
                    g.color,
                ) ==> g.stones.contains(b)
            &&& forall|l: Point| #[trigger]
                g.liberties.contains(l) <==> (cells[l.cell()] is None && exists|a: Point|
                    g.stones.contains(a) && #[trigger] adjacent(a, l))
            &&& forall|i: int, j: int|
                #![trigger g.stones[i], g.stones[j]]
                0 <= i < j < g.stones.len() ==> g.stones[i].rank() < g.stones[j].rank()
            &&& forall|i: int, j: int|
                #![trigger g.liberties[i], g.liberties[j]]
                0 <= i < j < g.liberties.len() ==> g.liberties[i].rank() < g.liberties[j].rank()
        }),
{
    let g = group_of(cells, p);
    let inside = |q: Point| connected(cells, p, q);
    let free = |l: Point| liberty(cells, p, l);
    lemma_listing_upto(inside, POSITIONS as nat);
    lemma_listing_upto(free, POSITIONS as nat);
    lemma_connected_self(cells, p);
    assert(inside(p));
    assert forall|q: Point| #[trigger] g.stones.contains(q) <==> connected(cells, p, q) by {
        if connected(cells, p, q) {
            lemma_connected_holds(cells, p, q);
            assert(inside(q));
        }
    }
    assert forall|q: Point| #[trigger] g.stones.contains(q) implies q.on_board() && cells[q.cell()]
        == Some(g.color) by {
        lemma_connected_holds(cells, p, q);
    }
    assert forall|a: Point, b: Point|
        g.stones.contains(a) && #[trigger] adjacent(a, b) && cells[b.cell()] == Some(
            g.color,
        ) implies g.stones.contains(b) by {
        lemma_connected_holds(cells, p, a);
        law_connection_carries_on(cells, p, a, b);
    }
    assert forall|l: Point| #[trigger]
        g.liberties.contains(l) <==> (cells[l.cell()] is None && exists|a: Point|
            g.stones.contains(a) && #[trigger] adjacent(a, l)) by {
        if g.liberties.contains(l) {
            assert(free(l));
            let a = choose|a: Point| #[trigger] connected(cells, p, a) && adjacent(a, l);
            assert(g.stones.contains(a));
            assert(adjacent(a, l));
        }
        if cells[l.cell()] is None && exists|a: Point|
            g.stones.contains(a) && #[trigger] adjacent(a, l) {
            let a = choose|a: Point| g.stones.contains(a) && #[trigger] adjacent(a, l);
            assert(connected(cells, p, a));
            assert(free(l));
        }
    }
}

/// The stones of a group are no more than they have to be: any set of points
/// that holds one of them, and with a stone the neighbors of its color, holds
/// the whole group.
pub proof fn law_a_group_is_one(
    cells: Cells,
    p: Point,
    q: Point,
    inside: spec_fn(Point) -> bool,
)
    requires
        cells.len() == AREA,
        p.on_board(),
        group_of(cells, p).stones.contains(q),
        inside(p),
        forall|a: Point, b: Point|
            inside(a) && #[trigger] adjacent(a, b) && cells[b.cell()] == cells[a.cell()] ==> inside(
                b,
            ),
    ensures
        inside(q),
{
    lemma_listing_upto(|r: Point| connected(cells, p, r), POSITIONS as nat);
    law_connection_goes_no_further(cells, p, q, inside);
}

// ---------------------------------------------------------------------------
// Areas
// ---------------------------------------------------------------------------

/// An empty point next to which, or next to a point of whose empty region, a
/// stone of color `c` stands.
pub open spec fn reaches(cells: Cells, p: Point, c: Color) -> bool {
    exists|s: Point, t: Point|
        connected(cells, p, s) && #[trigger] adjacent(s, t) && cells[t.cell()] == Some(c)
}

/// The area of a color: its stones, and the empty points whose region touches a
/// stone of that color and none of the other. Each point counts once. It is the
/// same for both colors.
pub proof fn law_area_is_stones_and_what_they_surround(cells: Cells, c: Color)
    requires
        cells.len() == AREA,
    ensures
        forall|p: Point| #[trigger]
            area(cells, c).contains(p) <==> p.on_board() && (cells[p.cell()] == Some(c) || (
            cells[p.cell()] is None && reaches(cells, p, c) && !reaches(cells, p, c.rival()))),
        forall|i: int, j: int|
            #![trigger area(cells, c)[i], area(cells, c)[j]]
            0 <= i < j < area(cells, c).len() ==> area(cells, c)[i].rank() < area(
                cells,
                c,
            )[j].rank(),
{
    let pred = |p: Point| p.on_board() && owner(cells, p) == Some(c);
    lemma_listing_upto(pred, POSITIONS as nat);
    assert forall|p: Point| #[trigger]
        area(cells, c).contains(p) <==> p.on_board() && (cells[p.cell()] == Some(c) || (
        cells[p.cell()] is None && reaches(cells, p, c) && !reaches(cells, p, c.rival()))) by {
        assert(area(cells, c).contains(p) <==> pred(p) && p.row < 19 && p.col < 361 && p.rank()
            < POSITIONS);
        assert(reaches(cells, p, Color::Black) == borders(cells, p, Color::Black));
        assert(reaches(cells, p, Color::White) == borders(cells, p, Color::White));
    }
}

/// The position with the colors of all stones exchanged.
pub open spec fn exchanged(cells: Cells) -> Cells {
    Seq::new(
        cells.len(),
        |i: int|
            match cells[i] {
                Some(c) => Some(c.rival()),
                None => None,
            },
    )
}

proof fn lemma_exchanged_reach(cells: Cells, p: Point, q: Point, n: nat)
    requires
        cells.len() == AREA,
        p.on_board(),
        reach_in(cells, p, q, n),
    ensures
        reach_in(exchanged(cells), p, q, n),
        q.on_board(),
    decreases n,
{
    if n > 0 {
        let m = choose|m: Point|
            reach_in(cells, p, m, (n - 1) as nat) && #[trigger] step(cells, m, q);
        lemma_exchanged_reach(cells, p, m, (n - 1) as nat);
        assert(step(exchanged(cells), m, q));
    }
}

proof fn lemma_exchanged_reaches(cells: Cells, p: Point, c: Color)
    requires
        cells.len() == AREA,
        p.on_board(),
        reaches(cells, p, c),
    ensures
        reaches(exchanged(cells), p, c.rival()),
{
    let (s, t) = choose|s: Point, t: Point|
        connected(cells, p, s) && #[trigger] adjacent(s, t) && cells[t.cell()] == Some(c);
    let n = choose|n: nat| reach_in(cells, p, s, n);
    lemma_exchanged_reach(cells, p, s, n);
    assert(connected(exchanged(cells), p, s));
    assert(exchanged(cells)[t.cell()] == Some(c.rival()));
}

/// Exchanging the colors of all stones exchanges the two areas.
pub proof fn law_areas_exchange_with_the_colors(cells: Cells, c: Color)
    requires
        cells.len() == AREA,
    ensures
        area(exchanged(cells), c.rival()) == area(cells, c),
{
    let other = exchanged(cells);
    assert(exchanged(other) =~= cells);
    let a = |p: Point| p.on_board() && owner(other, p) == Some(c.rival());
    let b = |p: Point| p.on_board() && owner(cells, p) == Some(c);
    assert forall|p: Point| p.row < 19 && p.col < 361 implies #[trigger] a(p) == b(p) by {
        if p.on_board() {
            assert forall|d: Color| #[trigger] borders(cells, p, d) == borders(
                other,
                p,
                d.rival(),
            ) by {
                assert(d.rival().rival() == d);
                if reaches(cells, p, d) {
                    lemma_exchanged_reaches(cells, p, d);
                }
                if reaches(other, p, d.rival()) {
                    lemma_exchanged_reaches(other, p, d.rival());
                }
                assert(reaches(cells, p, d) == borders(cells, p, d));
                assert(reaches(other, p, d.rival()) == borders(other, p, d.rival()));
            }
            assert(borders(cells, p, Color::Black) == borders(other, p, Color::White));
            assert(borders(cells, p, Color::White) == borders(other, p, Color::Black));
        }
    }
    lemma_listing_same(a, b, POSITIONS as nat);
}

} // verus!

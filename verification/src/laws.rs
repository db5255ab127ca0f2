//! What holds of a game as a whole.

use vstd::prelude::*;
use vstd::set_lib::{lemma_int_range, lemma_len_subset, set_int_range};

use crate::board::{
    adjacent, connected, has_liberty, lemma_adjacent_symmetric, lemma_connected_holds,
    lemma_connected_self, lemma_connected_step, lemma_connected_symmetric,
    lemma_connected_transitive, lemma_listing_upto, liberty, reach_in, step, Cells, AREA, POSITIONS,
};
use crate::geometry::law_connection_goes_no_further;
use crate::goban::{Color, Illegal, Move, Point};
use crate::rules::{
    area, captured, count, group_heads, group_of, groups_of, heads_group, lemma_after_play_counts,
    lemma_taken, liberties_of, lift, owner, placements, stones_of, taken, trailing_passes,
    GameState,
};

verus! {

/// Every stone on the board belongs to a group with a liberty.
pub open spec fn all_breathe(cells: Cells) -> bool {
    forall|p: Point| #[trigger] p.on_board() && cells[p.cell()] is Some ==> has_liberty(cells, p)
}

proof fn lemma_reach_carries(a: Cells, b: Cells, p: Point, q: Point, n: nat)
    requires
        forall|r: Point| #[trigger] connected(a, p, r) ==> b[r.cell()] == a[r.cell()],
        reach_in(a, p, q, n),
    ensures
        connected(b, p, q),
    decreases n,
{
    if n == 0 {
        lemma_connected_self(b, p);
    } else {
        let m = choose|m: Point|
            reach_in(a, p, m, (n - 1) as nat) && #[trigger] step(a, m, q);
        lemma_reach_carries(a, b, p, m, (n - 1) as nat);
        assert(connected(a, p, m));
        lemma_connected_step(a, p, m, q);
        assert(step(b, m, q));
        lemma_connected_step(b, p, m, q);
    }
}

/// A connection survives a change of the position that leaves the whole group
/// as it was.
proof fn lemma_connection_carries(a: Cells, b: Cells, p: Point, q: Point)
    requires
        forall|r: Point| #[trigger] connected(a, p, r) ==> b[r.cell()] == a[r.cell()],
        connected(a, p, q),
    ensures
        connected(b, p, q),
{
    let n = choose|n: nat| reach_in(a, p, q, n);
    lemma_reach_carries(a, b, p, q, n);
}

/// A stone that is not taken stays where it is, and an empty point stays empty.
proof fn lemma_lift_keeps(cells: Cells, p: Point, color: Color, q: Point)
    requires
        cells.len() == AREA,
        q.on_board(),
    ensures
        !captured(cells, p, color, q) ==> lift(cells, taken(cells, p, color))[q.cell()]
            == cells[q.cell()],
        captured(cells, p, color, q) ==> lift(cells, taken(cells, p, color))[q.cell()] is None,
        cells[q.cell()] is None ==> lift(cells, taken(cells, p, color))[q.cell()] is None,
{
    let dead = taken(cells, p, color);
    lemma_taken(cells, p, color);
    if exists|k: int| 0 <= k < dead.len() && (#[trigger] dead[k]).cell() == q.cell() {
        let k = choose|k: int| 0 <= k < dead.len() && (#[trigger] dead[k]).cell() == q.cell();
        assert(dead[k] == q);
    }
    if captured(cells, p, color, q) {
        assert(dead.contains(q));
        let k = choose|k: int| 0 <= k < dead.len() && dead[k] == q;
        assert(dead[k].cell() == q.cell());
    }
}

/// Taking is of whole groups.
proof fn lemma_captured_together(cells: Cells, p: Point, color: Color, q: Point, r: Point)
    requires
        captured(cells, p, color, q),
        connected(cells, q, r),
    ensures
        captured(cells, p, color, r),
{
    let n = choose|n: Point| #[trigger]
        adjacent(p, n) && cells[n.cell()] == Some(color.rival()) && connected(cells, n, q)
            && !has_liberty(cells, n);
    lemma_connected_transitive(cells, n, q, r);
    assert(adjacent(p, n));
}

/// A group that survives a capture keeps its liberties.
proof fn lemma_survivor_breathes(cells: Cells, p: Point, color: Color, q: Point)
    requires
        cells.len() == AREA,
        q.on_board(),
        has_liberty(cells, q),
        !captured(cells, p, color, q),
    ensures
        has_liberty(lift(cells, taken(cells, p, color)), q),
{
    let after = lift(cells, taken(cells, p, color));
    let l = choose|l: Point| #[trigger] liberty(cells, q, l);
    let s = choose|s: Point| #[trigger] connected(cells, q, s) && adjacent(s, l);
    assert forall|r: Point| #[trigger] connected(cells, q, r) implies after[r.cell()]
        == cells[r.cell()] by {
        lemma_connected_holds(cells, q, r);
        if captured(cells, p, color, r) {
            lemma_connected_symmetric(cells, q, r);
            lemma_captured_together(cells, p, color, r, q);
        }
        lemma_lift_keeps(cells, p, color, r);
    }
    lemma_connection_carries(cells, after, q, s);
    lemma_lift_keeps(cells, p, color, l);
    assert(liberty(after, q, l));
}

/// Before anything is taken off, a group of the other color that is not about
/// to be taken has a liberty.
proof fn lemma_rival_breathes(s: GameState, p: Point, q: Point)
    requires
        s.cells.len() == AREA,
        p.on_board(),
        q.on_board(),
        s.cells[p.cell()] is None,
        s.cells[q.cell()] == Some(s.to_move.rival()),
        has_liberty(s.cells, q),
        !captured(s.placed(p), p, s.to_move, q),
    ensures
        has_liberty(s.placed(p), q),
{
    let cells = s.placed(p);
    let l = choose|l: Point| #[trigger] liberty(s.cells, q, l);
    let st = choose|st: Point| #[trigger] connected(s.cells, q, st) && adjacent(st, l);
    assert forall|r: Point| #[trigger] connected(s.cells, q, r) implies cells[r.cell()]
        == s.cells[r.cell()] by {
        lemma_connected_holds(s.cells, q, r);
    }
    lemma_connection_carries(s.cells, cells, q, st);
    lemma_connected_holds(s.cells, q, st);
    if l == p {
        lemma_adjacent_symmetric(st, p);
        lemma_connected_symmetric(cells, q, st);
        if !has_liberty(cells, st) {
            assert(adjacent(p, st));
            assert(captured(cells, p, s.to_move, q));
        }
        let l2 = choose|l2: Point| #[trigger] liberty(cells, st, l2);
        let s2 = choose|s2: Point| #[trigger] connected(cells, st, s2) && adjacent(s2, l2);
        lemma_connected_transitive(cells, q, st, s2);
        assert(liberty(cells, q, l2));
    } else {
        assert(l.cell() != p.cell());
        assert(liberty(cells, q, l));
    }
}

/// An accepted placement leaves the group of the placed stone with a liberty.
proof fn lemma_own_group_breathes(s: GameState, p: Point, q: Point)
    requires
        s.cells.len() == AREA,
        p.on_board(),
        q.on_board(),
        s.refusal(Move::Play(p)) is None,
        connected(s.placed(p), q, p),
    ensures
        has_liberty(s.after_play(p).cells, q),
{
    let cells = s.placed(p);
    let dead = taken(cells, p, s.to_move);
    let after = s.after_play(p).cells;
    lemma_taken(cells, p, s.to_move);
    lemma_connected_holds(cells, q, p);
    assert forall|r: Point| #[trigger] connected(cells, q, r) implies after[r.cell()]
        == cells[r.cell()] by {
        lemma_connected_holds(cells, q, r);
        lemma_lift_keeps(cells, p, s.to_move, r);
        if captured(cells, p, s.to_move, r) {
            assert(dead.contains(r));
            let k = choose|k: int| 0 <= k < dead.len() && dead[k] == r;
            assert(cells[dead[k].cell()] == Some(s.to_move.rival()));
        }
    }
    if dead.len() == 0 {
        let l = choose|l: Point| #[trigger] liberty(cells, p, l);
        let st = choose|st: Point| #[trigger] connected(cells, p, st) && adjacent(st, l);
        lemma_connected_transitive(cells, q, p, st);
        lemma_connection_carries(cells, after, q, st);
        lemma_lift_keeps(cells, p, s.to_move, l);
        assert(liberty(after, q, l));
    } else {
        let d = dead[0];
        let n = choose|n: Point| #[trigger]
            adjacent(p, n) && cells[n.cell()] == Some(s.to_move.rival()) && connected(cells, n, d)
                && !has_liberty(cells, n);
        lemma_connected_self(cells, n);
        assert(captured(cells, p, s.to_move, n));
        lemma_lift_keeps(cells, p, s.to_move, n);
        lemma_connection_carries(cells, after, q, p);
        assert(liberty(after, q, n));
    }
}

/// Captures keep the board alive: where every group had a liberty before an
/// accepted move, every group has one after it.
pub proof fn law_every_group_keeps_a_liberty(s: GameState, mv: Move)
    requires
        s.valid(),
        mv.on_board(),
        s.refusal(mv) is None,
        all_breathe(s.cells),
    ensures
        all_breathe(s.after(mv).cells),
{
    if let Move::Play(p) = mv {
        let cells = s.placed(p);
        let after = s.after(mv).cells;
        assert forall|q: Point| #[trigger] q.on_board() && after[q.cell()] is Some
            implies has_liberty(after, q) by {
            lemma_lift_keeps(cells, p, s.to_move, q);
            assert(!captured(cells, p, s.to_move, q));
            if connected(cells, q, p) {
                lemma_own_group_breathes(s, p, q);
            } else {
                if q == p {
                    lemma_connected_self(cells, p);
                }
                assert(q.cell() != p.cell());
                assert(s.cells[q.cell()] is Some);
                assert(has_liberty(s.cells, q));
                if s.cells[q.cell()] == Some(s.to_move.rival()) {
                    lemma_rival_breathes(s, p, q);
                } else {
                    let l = choose|l: Point| #[trigger] liberty(s.cells, q, l);
                    let st = choose|st: Point| #[trigger]
                        connected(s.cells, q, st) && adjacent(st, l);
                    assert forall|r: Point| #[trigger] connected(s.cells, q, r) implies cells[r.cell()]
                        == s.cells[r.cell()] by {
                        lemma_connected_holds(s.cells, q, r);
                    }
                    lemma_connection_carries(s.cells, cells, q, st);
                    lemma_connected_holds(s.cells, q, st);
                    if l == p {
                        assert(s.cells[q.cell()] == Some(s.to_move)) by {
                            match s.cells[q.cell()] {
                                Some(c) => {
                                    assert(c == s.to_move || c == s.to_move.rival());
                                },
                                None => {},
                            }
                        }
                        assert(cells[st.cell()] == Some(s.to_move));
                        assert(cells[p.cell()] == Some(s.to_move));
                        assert(step(cells, st, p));
                        lemma_connected_step(cells, q, st, p);
                    }
                    assert(liberty(cells, q, l));
                }
                lemma_survivor_breathes(cells, p, s.to_move, q);
            }
        }
    }
}

/// On the empty board every group has a liberty.
pub proof fn law_empty_board_breathes()
    ensures
        all_breathe(GameState::initial().cells),
{
}

/// The ko point is closed: the next player may not take it back.
pub proof fn law_ko_point_is_closed(s: GameState, k: Point)
    requires
        s.valid(),
        !s.over(),
        s.ko == Some(k),
    ensures
        s.refusal(Move::Play(k)) == Some(Illegal::Ko),
{
}

/// The ko point is closed for one move only: any accepted move opens it.
pub proof fn law_ko_lasts_one_move(s: GameState, mv: Move, k: Point)
    requires
        s.valid(),
        s.ko == Some(k),
        s.refusal(mv) is None,
        mv.addressable(),
    ensures
        s.after(mv).ko != Some(k),
{
    if let Move::Play(p) = mv {
        let dead = taken(s.placed(p), p, s.to_move);
        lemma_taken(s.placed(p), p, s.to_move);
        if s.after(mv).ko is Some {
            assert(s.placed(p)[dead[0].cell()] == Some(s.to_move.rival()));
        }
    }
}

/// Two passes in a row end the game.
pub proof fn law_two_passes_end_the_game(s: GameState)
    requires
        s.valid(),
        s.refusal(Move::Pass) is None,
        s.after(Move::Pass).refusal(Move::Pass) is None,
    ensures
        s.after(Move::Pass).after(Move::Pass).over(),
{
}

/// Nothing can be played once the game is over.
pub proof fn law_over_is_over(s: GameState, mv: Move)
    requires
        s.over(),
    ensures
        s.refusal(mv) == Some(Illegal::GameOver),
{
}

/// Whoever resigns, every move is refused from then on, and the board, the turn,
/// the ko point, the captures and the history stay as they were.
pub proof fn law_a_resignation_is_final(s: GameState, c: Color, mv: Move)
    ensures
        ({
            let after = GameState { resigned: Some(c), ..s };
            &&& after.over()
            &&& after.answers(mv)
            &&& after.refusal(mv) == Some(Illegal::GameOver)
            &&& after.cells == s.cells
            &&& after.to_move == s.to_move
            &&& after.ko == s.ko
            &&& after.history == s.history
            &&& after.captures(Color::Black) == s.captures(Color::Black)
            &&& after.captures(Color::White) == s.captures(Color::White)
        }),
{
}

/// The listed moves are those that are not refused: every such point once, from
/// the top row down and within a row from the left.
pub proof fn law_legal_points_are_complete(s: GameState)
    ensures
        forall|p: Point| #[trigger]
            s.legal_points().contains(p) <==> p.on_board() && s.refusal(Move::Play(p)) is None,
        forall|i: int, j: int|
            #![trigger s.legal_points()[i], s.legal_points()[j]]
            0 <= i < j < s.legal_points().len() ==> {
                let (p, q) = (s.legal_points()[i], s.legal_points()[j]);
                p.row < q.row || (p.row == q.row && p.col < q.col)
            },
        s.over() ==> s.legal_points().len() == 0,
{
    let pred = |p: Point| p.on_board() && s.refusal(Move::Play(p)) is None;
    let points = s.legal_points();
    lemma_listing_upto(pred, POSITIONS as nat);
    assert forall|p: Point| #[trigger] points.contains(p) <==> p.on_board() && s.refusal(
        Move::Play(p),
    ) is None by {
        assert(pred(p) <==> p.on_board() && s.refusal(Move::Play(p)) is None);
    }
    assert forall|i: int, j: int|
        #![trigger points[i], points[j]]
        0 <= i < j < points.len() implies {
        let (p, q) = (points[i], points[j]);
        p.row < q.row || (p.row == q.row && p.col < q.col)
    } by {
        assert(points.contains(points[i]));
        assert(points.contains(points[j]));
        assert(points[i].rank() < points[j].rank());
    }
    if points.len() > 0 {
        assert(points.contains(points[0]));
    }
}

/// On the empty board every one of the points is open.
pub proof fn law_an_empty_board_is_open()
    ensures
        forall|p: Point|
            p.on_board() ==> #[trigger] GameState::initial().refusal(Move::Play(p)) is None,
        GameState::initial().legal_points().len() == AREA,
{
    let s = GameState::initial();
    assert forall|p: Point| p.on_board() implies #[trigger] s.refusal(Move::Play(p)) is None by {
        let cells = s.placed(p);
        let q = if p.row > 0 {
            Point { row: (p.row - 1) as usize, col: p.col }
        } else {
            Point { row: 1, col: p.col }
        };
        lemma_connected_self(cells, p);
        assert(adjacent(p, q));
        assert(cells[q.cell()] is None);
        assert(liberty(cells, p, q));
    }
    law_legal_points_are_complete(s);
    let points = s.legal_points();
    let at = Seq::new(points.len(), |i: int| points[i].cell());
    assert forall|i: int| 0 <= i < points.len() implies (#[trigger] points[i]).on_board() by {
        assert(points.contains(points[i]));
    }
    assert forall|i: int, j: int| 0 <= i < j < at.len() implies at[i] != at[j] by {
        assert(points[i].on_board() && points[j].on_board());
    }
    assert(at.no_duplicates());
    at.unique_seq_to_set();
    lemma_int_range(0, AREA as int);
    assert forall|x: int| at.to_set().contains(x) <==> set_int_range(0, AREA as int).contains(
        x,
    ) by {
        if at.to_set().contains(x) {
            let i = choose|i: int| 0 <= i < at.len() && at[i] == x;
            assert(points[i].on_board());
        }
        if 0 <= x < AREA {
            let p = Point { row: (x / 19) as usize, col: (x % 19) as usize };
            assert(p.on_board() && p.cell() == x);
            assert(s.refusal(Move::Play(p)) is None);
            assert(points.contains(p));
            let i = choose|i: int| 0 <= i < points.len() && points[i] == p;
            assert(at[i] == x);
            assert(at.contains(x));
        }
    }
    assert(at.to_set() =~= set_int_range(0, AREA as int));
}

/// Passing is refused only when the game is over.
pub proof fn law_pass_is_always_open(s: GameState)
    ensures
        s.refusal(Move::Pass) is None <==> !s.over(),
{
}

/// A placed stone stands, stones of the same color stay, and the only stones
/// that leave are those of the other color counted in the record.
pub proof fn law_only_rival_stones_are_taken(s: GameState, p: Point, q: Point)
    requires
        s.valid(),
        p.on_board(),
        q.on_board(),
        s.refusal(Move::Play(p)) is None,
    ensures
        ({
            let after = s.after(Move::Play(p));
            &&& after.cells[p.cell()] == Some(s.to_move)
            &&& q != p && after.cells[q.cell()] != s.cells[q.cell()] ==> {
                &&& s.cells[q.cell()] == Some(s.to_move.rival())
                &&& after.cells[q.cell()] is None
                &&& taken(s.placed(p), p, s.to_move).contains(q)
            }
        }),
{
    let cells = s.placed(p);
    lemma_taken(cells, p, s.to_move);
    lemma_lift_keeps(cells, p, s.to_move, q);
    lemma_lift_keeps(cells, p, s.to_move, p);
    let dead = taken(cells, p, s.to_move);
    if captured(cells, p, s.to_move, p) {
        assert(dead.contains(p));
        let k = choose|k: int| 0 <= k < dead.len() && dead[k] == p;
        assert(cells[dead[k].cell()] == Some(s.to_move.rival()));
    }
    if captured(cells, p, s.to_move, q) {
        assert(dead.contains(q));
        let k = choose|k: int| 0 <= k < dead.len() && dead[k] == q;
        assert(cells[dead[k].cell()] == Some(s.to_move.rival()));
    }
}

/// Every stone is connected to the first stone of its group.
proof fn lemma_group_has_head(cells: Cells, p: Point) -> (h: Point)
    requires
        p.on_board(),
        cells[p.cell()] is Some,
    ensures
        heads_group(cells, h),
        connected(cells, p, h),
    decreases p.rank(),
{
    lemma_connected_self(cells, p);
    if heads_group(cells, p) {
        p
    } else {
        let q = choose|q: Point| #[trigger] connected(cells, p, q) && q.rank() < p.rank();
        lemma_connected_holds(cells, p, q);
        let h = lemma_group_has_head(cells, q);
        lemma_connected_transitive(cells, p, q, h);
        h
    }
}

/// The groups that are listed divide up the stones: every stone belongs to one
/// of them, of its own color, and to no other.
pub proof fn law_groups_divide_up_the_stones(cells: Cells, p: Point)
    requires
        cells.len() == AREA,
        p.on_board(),
        cells[p.cell()] is Some,
    ensures
        exists|i: int|
            0 <= i < groups_of(cells).len() && (#[trigger] groups_of(cells)[i]).stones.contains(p)
                && cells[p.cell()] == Some(groups_of(cells)[i].color),
        forall|i: int, j: int|
            0 <= i < groups_of(cells).len() && 0 <= j < groups_of(cells).len() && (
            #[trigger] groups_of(cells)[i]).stones.contains(p) && (
            #[trigger] groups_of(cells)[j]).stones.contains(p) ==> i == j,
{
    let groups = groups_of(cells);
    let heads = group_heads(cells);
    let first = |q: Point| heads_group(cells, q);
    lemma_listing_upto(first, POSITIONS as nat);
    let h = lemma_group_has_head(cells, p);
    assert(first(h));
    assert(heads.contains(h));
    let k = choose|k: int| 0 <= k < heads.len() && heads[k] == h;
    lemma_connected_holds(cells, p, h);
    lemma_connected_symmetric(cells, p, h);
    let inside = |q: Point| connected(cells, h, q);
    lemma_listing_upto(inside, POSITIONS as nat);
    assert(inside(p));
    assert(groups[k].stones.contains(p));
    assert forall|i: int, j: int|
        0 <= i < groups.len() && 0 <= j < groups.len() && (#[trigger] groups[i]).stones.contains(p)
            && (#[trigger] groups[j]).stones.contains(p) implies i == j by {
        lemma_stone_of_listed_group(cells, i, p);
        lemma_stone_of_listed_group(cells, j, p);
        lemma_connected_symmetric(cells, heads[i], p);
        lemma_connected_symmetric(cells, heads[j], p);
        lemma_connected_transitive(cells, heads[i], p, heads[j]);
        lemma_connected_transitive(cells, heads[j], p, heads[i]);
        assert(heads[i].rank() == heads[j].rank());
        if i < j {
            assert(heads[i].rank() < heads[j].rank());
        }
        if j < i {
            assert(heads[j].rank() < heads[i].rank());
        }
    }
}

proof fn lemma_stone_of_listed_group(cells: Cells, i: int, p: Point)
    requires
        0 <= i < groups_of(cells).len(),
        groups_of(cells)[i].stones.contains(p),
    ensures
        heads_group(cells, group_heads(cells)[i]),
        connected(cells, group_heads(cells)[i], p),
{
    let heads = group_heads(cells);
    let h = heads[i];
    lemma_listing_upto(|q: Point| heads_group(cells, q), POSITIONS as nat);
    assert(heads.contains(h));
    lemma_listing_upto(|q: Point| connected(cells, h, q), POSITIONS as nat);
    assert(groups_of(cells)[i].stones == stones_of(cells, h));
}

/// No point belongs to the areas of both players, so that the two scores
/// together do not exceed the number of points.
pub proof fn law_areas_are_apart(cells: Cells)
    requires
        cells.len() == AREA,
    ensures
        forall|p: Point|
            !(#[trigger] area(cells, Color::Black).contains(p) && area(
                cells,
                Color::White,
            ).contains(p)),
        area(cells, Color::Black).len() + area(cells, Color::White).len() <= AREA,
{
    let b = area(cells, Color::Black);
    let w = area(cells, Color::White);
    let in_b = |p: Point| p.on_board() && owner(cells, p) == Some(Color::Black);
    let in_w = |p: Point| p.on_board() && owner(cells, p) == Some(Color::White);
    lemma_listing_upto(in_b, POSITIONS as nat);
    lemma_listing_upto(in_w, POSITIONS as nat);
    assert forall|p: Point| !(#[trigger] b.contains(p) && w.contains(p)) by {
        if b.contains(p) && w.contains(p) {
            assert(in_b(p));
            assert(in_w(p));
        }
    }
    let all = b + w;
    let cell = |i: int| all[i].cell();
    let at = Seq::new(all.len(), cell);
    assert forall|i: int| 0 <= i < all.len() implies (#[trigger] all[i]).on_board() by {
        if i < b.len() {
            assert(b.contains(b[i]));
            assert(in_b(b[i]));
        } else {
            assert(w.contains(w[i - b.len()]));
            assert(in_w(w[i - b.len()]));
        }
    }
    assert forall|i: int, j: int| 0 <= i < j < at.len() implies at[i] != at[j] by {
        assert(all[i].on_board() && all[j].on_board());
        if all[i] == all[j] {
            if j < b.len() {
                assert(b[i].rank() < b[j].rank());
            } else if i >= b.len() {
                assert(w[i - b.len()].rank() < w[j - b.len()].rank());
            } else {
                assert(b.contains(b[i]));
                assert(w.contains(w[j - b.len()]));
            }
        }
    }
    assert(at.no_duplicates());
    at.unique_seq_to_set();
    lemma_int_range(0, AREA as int);
    assert forall|x: int| #[trigger] at.to_set().contains(x) implies set_int_range(
        0,
        AREA as int,
    ).contains(x) by {
        let i = choose|i: int| 0 <= i < at.len() && at[i] == x;
        assert(all[i].on_board());
    }
    lemma_len_subset(at.to_set(), set_int_range(0, AREA as int));
}

/// Every group that is listed is the group of a stone on the board.
pub proof fn law_listed_groups_are_groups(cells: Cells, i: int)
    requires
        cells.len() == AREA,
        0 <= i < groups_of(cells).len(),
    ensures
        exists|p: Point| #[trigger]
            p.on_board() && cells[p.cell()] is Some && groups_of(cells)[i] == group_of(cells, p),
{
    let heads = group_heads(cells);
    lemma_listing_upto(|q: Point| heads_group(cells, q), POSITIONS as nat);
    assert(heads.contains(heads[i]));
    assert(heads_group(cells, heads[i]));
    assert(heads[i].on_board());
}

// ---------------------------------------------------------------------------
// What a move does, seen on the board
// ---------------------------------------------------------------------------

/// A stone is taken exactly if its group is left without a liberty.
proof fn lemma_taken_without_liberty(s: GameState, p: Point, q: Point)
    requires
        s.cells.len() == AREA,
        p.on_board(),
        q.on_board(),
        s.cells[p.cell()] is None,
        s.cells[q.cell()] == Some(s.to_move.rival()),
        has_liberty(s.cells, q),
    ensures
        captured(s.placed(p), p, s.to_move, q) <==> !has_liberty(s.placed(p), q),
{
    let cells = s.placed(p);
    if captured(cells, p, s.to_move, q) {
        let n = choose|n: Point| #[trigger]
            adjacent(p, n) && cells[n.cell()] == Some(s.to_move.rival()) && connected(cells, n, q)
                && !has_liberty(cells, n);
        if has_liberty(cells, q) {
            let l = choose|l: Point| #[trigger] liberty(cells, q, l);
            let st = choose|st: Point| #[trigger] connected(cells, q, st) && adjacent(st, l);
            lemma_connected_transitive(cells, n, q, st);
            assert(liberty(cells, n, l));
        }
    } else {
        lemma_rival_breathes(s, p, q);
    }
}

/// A placed stone stands, and of the other stones exactly those of the rival
/// leave whose group has no liberty once it is placed. Nothing else changes.
pub proof fn law_what_a_placement_does(s: GameState, p: Point, q: Point)
    requires
        s.valid(),
        all_breathe(s.cells),
        p.on_board(),
        q.on_board(),
        s.refusal(Move::Play(p)) is None,
    ensures
        ({
            let placed = s.cells.update(p.cell(), Some(s.to_move));
            let after = s.after(Move::Play(p)).cells;
            &&& q == p ==> after[q.cell()] == Some(s.to_move)
            &&& q != p && s.cells[q.cell()] != Some(s.to_move.rival()) ==> after[q.cell()]
                == s.cells[q.cell()]
            &&& s.cells[q.cell()] == Some(s.to_move.rival()) ==> after[q.cell()] == (if has_liberty(
                placed,
                q,
            ) {
                Some(s.to_move.rival())
            } else {
                None
            })
        }),
{
    let cells = s.placed(p);
    law_only_rival_stones_are_taken(s, p, q);
    lemma_lift_keeps(cells, p, s.to_move, q);
    if s.cells[q.cell()] == Some(s.to_move.rival()) {
        assert(has_liberty(s.cells, q));
        lemma_taken_without_liberty(s, p, q);
    }
}

/// A rival group whose last liberty is filled is taken, even if the filling
/// stone has no liberty of its own; a group with another liberty stays.
pub proof fn law_filling_the_last_liberty_takes(s: GameState, p: Point, q: Point)
    requires
        s.valid(),
        !s.over(),
        all_breathe(s.cells),
        p.on_board(),
        q.on_board(),
        s.cells[p.cell()] is None,
        s.ko != Some(p),
        s.cells[q.cell()] == Some(s.to_move.rival()),
    ensures
        (forall|l: Point| #[trigger] liberty(s.cells, q, l) ==> l == p) ==> {
            &&& s.refusal(Move::Play(p)) is None
            &&& s.after(Move::Play(p)).cells[q.cell()] is None
        },
        (exists|l: Point| #[trigger] liberty(s.cells, q, l) && l != p) && s.refusal(Move::Play(p))
            is None ==> s.after(Move::Play(p)).cells[q.cell()] == Some(s.to_move.rival()),
{
    let cells = s.placed(p);
    assert(has_liberty(s.cells, q));
    lemma_lift_keeps(cells, p, s.to_move, q);
    lemma_taken_without_liberty(s, p, q);
    lemma_taken(cells, p, s.to_move);
    assert forall|r: Point| #[trigger] connected(s.cells, q, r) implies cells[r.cell()]
        == s.cells[r.cell()] by {
        lemma_connected_holds(s.cells, q, r);
    }
    assert forall|r: Point| #[trigger] connected(cells, q, r) implies s.cells[r.cell()]
        == cells[r.cell()] by {
        lemma_connected_holds(cells, q, r);
    }
    if forall|l: Point| #[trigger] liberty(s.cells, q, l) ==> l == p {
        if has_liberty(cells, q) {
            let l = choose|l: Point| #[trigger] liberty(cells, q, l);
            let st = choose|st: Point| #[trigger] connected(cells, q, st) && adjacent(st, l);
            lemma_connection_carries(cells, s.cells, q, st);
            assert(l.cell() != p.cell());
            assert(liberty(s.cells, q, l));
        }
        assert(taken(cells, p, s.to_move).contains(q));
    }
    if exists|l: Point| #[trigger] liberty(s.cells, q, l) && l != p {
        let l = choose|l: Point| #[trigger] liberty(s.cells, q, l) && l != p;
        let st = choose|st: Point| #[trigger] connected(s.cells, q, st) && adjacent(st, l);
        lemma_connection_carries(s.cells, cells, q, st);
        assert(l.cell() != p.cell());
        assert(liberty(cells, q, l));
    }
}

/// A placement is refused for one reason: the game is over; else a stone of the
/// named color stands there; else it would retake a ko; else the placed stone's
/// group would have no liberty while every rival group still has one.
pub proof fn law_why_a_placement_is_refused(s: GameState, p: Point)
    requires
        s.valid(),
        all_breathe(s.cells),
        p.on_board(),
    ensures
        ({
            let placed = s.cells.update(p.cell(), Some(s.to_move));
            let why = s.refusal(Move::Play(p));
            &&& why == Some(Illegal::GameOver) <==> s.over()
            &&& !s.over() && s.cells[p.cell()] is Some ==> why == Some(
                Illegal::Occupied(s.cells[p.cell()]->0),
            )
            &&& why matches Some(Illegal::Occupied(c)) ==> s.cells[p.cell()] == Some(c)
            &&& why == Some(Illegal::Ko) <==> !s.over() && s.ko == Some(p)
            &&& why == Some(Illegal::Suicide) <==> {
                &&& !s.over()
                &&& s.cells[p.cell()] is None
                &&& s.ko != Some(p)
                &&& !has_liberty(placed, p)
                &&& forall|q: Point| #[trigger]
                    q.on_board() && s.cells[q.cell()] == Some(s.to_move.rival()) ==> has_liberty(
                        placed,
                        q,
                    )
            }
        }),
{
    let placed = s.placed(p);
    let dead = taken(placed, p, s.to_move);
    lemma_taken(placed, p, s.to_move);
    if s.cells[p.cell()] is None {
        if dead.len() > 0 {
            let q = dead[0];
            assert(q.on_board() && s.cells[q.cell()] == Some(s.to_move.rival()));
            assert(has_liberty(s.cells, q));
            lemma_taken_without_liberty(s, p, q);
            assert(!has_liberty(placed, q));
        } else {
            assert forall|q: Point| #[trigger] q.on_board() && s.cells[q.cell()] == Some(
                s.to_move.rival(),
            ) implies has_liberty(placed, q) by {
                assert(has_liberty(s.cells, q));
                lemma_taken_without_liberty(s, p, q);
                if !has_liberty(placed, q) {
                    assert(dead.contains(q));
                }
            }
        }
    }
}

/// After a placement on `p` the point `k` is closed by ko exactly if the stone on
/// `k` is the only one that left, and the placed stone has no stone of its color
/// beside it and no empty point beside it but `k`. A stone that joins a group, or
/// keeps another liberty, leaves no ko: it may be taken in a snapback.
pub proof fn law_when_ko_arises(s: GameState, p: Point, k: Point)
    requires
        s.valid(),
        p.on_board(),
        s.refusal(Move::Play(p)) is None,
    ensures
        ({
            let after = s.after(Move::Play(p));
            after.ko == Some(k) <==> {
                &&& k.on_board()
                &&& k != p
                &&& s.cells[k.cell()] is Some
                &&& after.cells[k.cell()] is None
                &&& forall|q: Point| #[trigger]
                    q.on_board() && q != p && q != k ==> after.cells[q.cell()] == s.cells[q.cell()]
                &&& forall|q: Point| #[trigger]
                    adjacent(p, q) ==> after.cells[q.cell()] != Some(s.to_move) && (
                    after.cells[q.cell()] is None <==> q == k)
            }
        }),
{
    let cells = s.placed(p);
    let dead = taken(cells, p, s.to_move);
    let next = s.after(Move::Play(p));
    let after = next.cells;
    let stones = stones_of(after, p);
    let open = liberties_of(after, p);
    let inside = |q: Point| connected(after, p, q);
    let free = |l: Point| liberty(after, p, l);
    lemma_taken(cells, p, s.to_move);
    lemma_listing_upto(inside, POSITIONS as nat);
    lemma_listing_upto(free, POSITIONS as nat);
    lemma_connected_self(after, p);
    assert(inside(p));
    assert(stones.contains(p));
    assert(!captured(cells, p, s.to_move, p)) by {
        if captured(cells, p, s.to_move, p) {
            assert(dead.contains(p));
            let i = choose|i: int| 0 <= i < dead.len() && dead[i] == p;
            assert(cells[dead[i].cell()] == Some(s.to_move.rival()));
        }
    }
    lemma_lift_keeps(cells, p, s.to_move, p);
    assert(after[p.cell()] == Some(s.to_move));
    assert forall|q: Point| #[trigger] q.on_board() implies (captured(cells, p, s.to_move, q)
        <==> q != p && s.cells[q.cell()] is Some && after[q.cell()] is None) && (!captured(
        cells,
        p,
        s.to_move,
        q,
    ) && q != p ==> after[q.cell()] == s.cells[q.cell()]) by {
        lemma_lift_keeps(cells, p, s.to_move, q);
        if captured(cells, p, s.to_move, q) {
            assert(dead.contains(q));
            let i = choose|i: int| 0 <= i < dead.len() && dead[i] == q;
            assert(cells[dead[i].cell()] == Some(s.to_move.rival()));
        }
        if q != p {
            assert(q.cell() != p.cell());
        }
    }
    // A stone that is taken alone stands beside the placed one.
    assert forall|d: Point|
        captured(cells, p, s.to_move, d) && (forall|q: Point| #[trigger]
            captured(cells, p, s.to_move, q) ==> q == d) implies #[trigger] adjacent(p, d) by {
        let n = choose|n: Point| #[trigger]
            adjacent(p, n) && cells[n.cell()] == Some(s.to_move.rival()) && connected(cells, n, d)
                && !has_liberty(cells, n);
        lemma_connected_self(cells, n);
        assert(captured(cells, p, s.to_move, n));
    }
    if next.ko == Some(k) {
        assert(dead.len() == 1 && dead[0] == k && stones.len() == 1 && open.len() == 1);
        assert(dead.contains(k));
        assert forall|q: Point| #[trigger] captured(cells, p, s.to_move, q) implies q == k by {
            assert(dead.contains(q));
        }
        assert(captured(cells, p, s.to_move, k));
        assert(adjacent(p, k));
        assert(liberty(after, p, k));
        assert(free(k));
        assert(open.contains(k));
        assert forall|q: Point| #[trigger] adjacent(p, q) implies after[q.cell()] != Some(s.to_move)
            && (after[q.cell()] is None <==> q == k) by {
            if after[q.cell()] == Some(s.to_move) {
                assert(step(after, p, q));
                lemma_connected_step(after, p, p, q);
                assert(inside(q));
                assert(stones.contains(q));
            }
            if after[q.cell()] is None {
                assert(liberty(after, p, q));
                assert(free(q));
                assert(open.contains(q));
            }
        }
    }
    if k.on_board() && k != p && s.cells[k.cell()] is Some && after[k.cell()] is None && (forall|
        q: Point,
    | #[trigger]
        q.on_board() && q != p && q != k ==> after[q.cell()] == s.cells[q.cell()]) && (forall|
        q: Point,
    | #[trigger]
        adjacent(p, q) ==> after[q.cell()] != Some(s.to_move) && (after[q.cell()] is None <==> q
            == k)) {
        assert(captured(cells, p, s.to_move, k));
        assert(dead.contains(k));
        assert forall|q: Point| #[trigger] captured(cells, p, s.to_move, q) implies q == k by {
            assert(dead.contains(q));
            let i = choose|i: int| 0 <= i < dead.len() && dead[i] == q;
            assert(dead[i].on_board());
            assert(q.on_board());
        }
        assert(adjacent(p, k));
        assert forall|i: int| 0 <= i < dead.len() implies #[trigger] dead[i] == k by {
            assert(captured(cells, p, s.to_move, dead[i]));
        }
        lemma_single(dead, k);
        let alone = |q: Point| q == p;
        assert forall|i: int| 0 <= i < stones.len() implies #[trigger] stones[i] == p by {
            assert(stones.contains(stones[i]));
            assert(inside(stones[i]));
            law_connection_goes_no_further(after, p, stones[i], alone);
        }
        lemma_single(stones, p);
        assert(liberty(after, p, k));
        assert(free(k));
        assert(open.contains(k));
        assert forall|i: int| 0 <= i < open.len() implies #[trigger] open[i] == k by {
            assert(open.contains(open[i]));
            assert(free(open[i]));
            let st = choose|st: Point| #[trigger] connected(after, p, st) && adjacent(st, open[i]);
            law_connection_goes_no_further(after, p, st, alone);
        }
        lemma_single(open, k);
    }
}

/// A list in order that holds one point only has one element.
proof fn lemma_single(points: Seq<Point>, p: Point)
    requires
        points.contains(p),
        forall|i: int| 0 <= i < points.len() ==> #[trigger] points[i] == p,
        forall|i: int, j: int|
            #![trigger points[i], points[j]]
            0 <= i < j < points.len() ==> points[i].rank() < points[j].rank(),
    ensures
        points.len() == 1,
        points[0] == p,
{
    if points.len() > 1 {
        assert(points[0].rank() < points[1].rank());
    }
}

/// The turn passes to the rival, the move is recorded under the next number with
/// the stones that it took, and those are added to the captures of the player
/// who took them. The stones of that player grow by the one placed.
pub proof fn law_moves_are_recorded(s: GameState, mv: Move)
    requires
        s.valid(),
        s.has_room(),
        mv.addressable(),
        s.refusal(mv) is None,
    ensures
        ({
            let next = s.after(mv);
            let r = next.history.last();
            let (me, you) = (s.to_move, s.to_move.rival());
            &&& next.to_move == you
            &&& next.history.len() == s.history.len() + 1
            &&& next.history.drop_last() == s.history
            &&& r.number == s.history.len() + 1
            &&& r.color == me
            &&& r.mv == mv
            &&& count(next.cells, you) + r.captured == count(s.cells, you)
            &&& count(next.cells, me) == count(s.cells, me) + (if mv is Play {
                1nat
            } else {
                0nat
            })
            &&& next.captures(me) == s.captures(me) + r.captured
            &&& next.captures(you) == s.captures(you)
            &&& next.resigned == s.resigned
        }),
{
    let next = s.after(mv);
    let (me, you) = (s.to_move, s.to_move.rival());
    assert(next.history.drop_last() =~= s.history);
    if let Move::Play(p) = mv {
        lemma_after_play_counts(s, p);
        assert(count(next.cells, me) + next.captures(me.rival()) == placements(next.history, me));
        assert(count(next.cells, you) + next.captures(you.rival()) == placements(
            next.history,
            you,
        ));
        assert(count(s.cells, me) + s.captures(me.rival()) == placements(s.history, me));
        assert(count(s.cells, you) + s.captures(you.rival()) == placements(s.history, you));
    }
}

/// A pass leaves the board alone and opens the ko.
pub proof fn law_a_pass_changes_no_stone(s: GameState)
    ensures
        s.after(Move::Pass).cells == s.cells,
        s.after(Move::Pass).ko is None,
        s.after(Move::Pass).captures(Color::Black) == s.captures(Color::Black),
        s.after(Move::Pass).captures(Color::White) == s.captures(Color::White),
{
}

/// A game is over exactly if somebody resigned or its last two moves were
/// passes.
pub proof fn law_when_a_game_is_over(s: GameState)
    requires
        s.valid(),
    ensures
        s.over() <==> s.resigned is Some || (s.history.len() >= 2 && s.history[s.history.len()
            - 1].mv is Pass && s.history[s.history.len() - 2].mv is Pass),
{
    reveal_with_fuel(trailing_passes, 3);
    let h = s.history;
    if h.len() >= 2 {
        assert(h.drop_last().last() == h[h.len() - 2]);
    }
}

/// Whoever resigns ends the game: the record says who it was, no move is taken
/// any more, and all else stays as it was.
pub proof fn law_a_resignation_ends_the_game(s: GameState, c: Color, mv: Move)
    ensures
        ({
            let next = s.after_resigning(c);
            &&& next.resigned == Some(c)
            &&& next.over()
            &&& next.refusal(mv) == Some(Illegal::GameOver)
            &&& next.cells == s.cells
            &&& next.to_move == s.to_move
            &&& next.ko == s.ko
            &&& next.black_captures == s.black_captures
            &&& next.white_captures == s.white_captures
            &&& next.history == s.history
            &&& next.passes == s.passes
        }),
{
}

} // verus!

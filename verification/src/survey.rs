//! Surveying a position: its groups, the moves it allows, and whose area is
//! how large.

use vstd::prelude::*;

use crate::board::{
    adjacent, connected, flood, lemma_connected_holds, lemma_connected_self,
    lemma_connected_symmetric, lemma_connected_transitive, lemma_listing_bound, lemma_listing_gap,
    lemma_listing_same, lemma_listing_upto, lemma_point_at, lemma_rank, listing_upto, point_at,
    read_out, Cells, AREA, POSITIONS,
};
use crate::goban::{Color, Game, Group, Move, Point, SIZE};
use crate::rules::{
    area, borders, group_of, groups_of, heads_group, lemma_borders_shared, owner, stones_of,
};

verus! {

impl Game {
    /// Every group on the board, each reported once, in the order of their
    /// first stones.
    pub fn groups(&self) -> (r: Vec<Group>)
        requires
            self.wf(),
        ensures
            r@.len() == groups_of(self@.cells).len(),
            forall|i: int|
                #![trigger r@[i]]
                0 <= i < r@.len() ==> r@[i]@ == groups_of(self@.cells)[i],
    {
        let ghost cells = self@.cells;
        let ghost first = |p: Point| heads_group(cells, p);
        let mut seen: Vec<bool> = vec![false; AREA];
        let mut out: Vec<Group> = Vec::new();
        let mut row: usize = 0;
        proof {
            assert(listing_upto(first, 0) =~= Seq::<Point>::empty());
        }
        while row < SIZE
            invariant
                self.wf(),
                cells == self@.cells,
                first == (|p: Point| heads_group(cells, p)),
                row <= SIZE,
                seen@.len() == AREA,
                groups_upto(cells, seen@, out@, first, (row * AREA) as nat),
            decreases SIZE - row,
        {
            let mut col: usize = 0;
            while col < SIZE
                invariant
                    self.wf(),
                    cells == self@.cells,
                    first == (|p: Point| heads_group(cells, p)),
                    row < SIZE,
                    col <= SIZE,
                    seen@.len() == AREA,
                    groups_upto(cells, seen@, out@, first, (row * AREA + col) as nat),
                decreases SIZE - col,
            {
                let p = Point { row, col };
                let ghost pos = (row * AREA + col) as nat;
                let ghost seen_before = seen@;
                let ghost out_before = out@;
                proof {
                    lemma_rank(p);
                    assert(point_at(pos as int) == p);
                    lemma_head_unseen(cells, seen@, p);
                }
                if self.at(p).is_some() && !seen[row * SIZE + col] {
                    if let Some(g) = self.group_at(p) {
                        proof {
                            lemma_listing_upto(|q: Point| connected(cells, p, q), POSITIONS as nat);
                        }
                        let mut i: usize = 0;
                        while i < g.stones.len()
                            invariant
                                seen@.len() == AREA,
                                seen_before.len() == AREA,
                                i <= g.stones@.len(),
                                p.on_board(),
                                g.stones@ == stones_of(cells, p),
                                forall|q: Point| #[trigger]
                                    g.stones@.contains(q) ==> connected(cells, p, q),
                                forall|q: Point|
                                    #![trigger seen@[q.cell()]]
                                    q.on_board() ==> (seen@[q.cell()] <==> seen_before[q.cell()]
                                        || g.stones@.take(i as int).contains(q)),
                            decreases g.stones@.len() - i,
                        {
                            let s = g.stones[i];
                            let ghost prior = seen@;
                            assert(g.stones@.contains(s));
                            proof {
                                lemma_connected_holds(cells, p, s);
                            }
                            seen[s.row * SIZE + s.col] = true;
                            proof {
                                let more = g.stones@.take(i + 1);
                                let less = g.stones@.take(i as int);
                                assert(more =~= less.push(s));
                                assert(more[i as int] == s);
                                assert forall|q: Point|
                                    #![trigger seen@[q.cell()]]
                                    q.on_board() implies (seen@[q.cell()] <==> seen_before[q.cell()]
                                    || more.contains(q)) by {
                                    assert(prior[q.cell()] <==> seen_before[q.cell()]
                                        || less.contains(q));
                                    if less.contains(q) {
                                        let j = choose|j: int| 0 <= j < less.len() && less[j] == q;
                                        assert(more[j] == q);
                                    }
                                    if more.contains(q) && q != s {
                                        let j = choose|j: int| 0 <= j < more.len() && more[j] == q;
                                        assert(less[j] == q);
                                    }
                                    if q.cell() == s.cell() {
                                        assert(q == s);
                                    }
                                }
                            }
                            i += 1;
                        }
                        proof {
                            assert(g.stones@.take(g.stones@.len() as int) =~= g.stones@);
                            assert forall|q: Point|
                                #![trigger seen@[q.cell()]]
                                q.on_board() implies (seen@[q.cell()] <==> seen_before[q.cell()]
                                || connected(cells, p, q)) by {
                                assert(g.stones@.contains(q) <==> connected(cells, p, q));
                            }
                        }
                        out.push(g);
                    }
                }
                proof {
                    lemma_groups_step(cells, seen_before, seen@, p);
                    assert forall|i: int|
                        #![trigger out@[i]]
                        0 <= i < out@.len() implies out@[i]@ == group_of(
                        cells,
                        listing_upto(first, pos + 1)[i],
                    ) by {
                        if i < out_before.len() {
                            assert(out@[i] == out_before[i]);
                        }
                    }
                }
                col += 1;
            }
            proof {
                let done = (row * AREA + SIZE) as nat;
                let end = ((row + 1) * AREA) as nat;
                assert forall|i: int| done <= i < end implies !first(#[trigger] point_at(i)) by {
                    lemma_point_at(i);
                }
                lemma_listing_gap(first, done, end);
                lemma_seen_gap(cells, seen@, done, end);
            }
            row += 1;
        }
        out
    }

    /// All empty points where the player to move could legally play.
    pub fn legal_moves(&self) -> (r: Vec<Point>)
        requires
            self.wf(),
            self@.over() || self@.has_room(),
        ensures
            r@ == self@.legal_points(),
    {
        let mut marks: Vec<bool> = vec![false; AREA];
        let mut i: usize = 0;
        while i < AREA
            invariant
                self.wf(),
                self@.over() || self@.has_room(),
                i <= AREA,
                marks@.len() == AREA,
                forall|p: Point|
                    #![trigger marks@[p.cell()]]
                    p.on_board() && p.cell() < i ==> marks@[p.cell()] == (self@.refusal(
                        Move::Play(p),
                    ) is None),
            decreases AREA - i,
        {
            let p = Point { row: i / SIZE, col: i % SIZE };
            let ghost before = marks@;
            if self.at(p).is_none() && self.is_legal(Move::Play(p)) {
                marks[i] = true;
            } else {
                marks[i] = false;
            }
            proof {
                assert forall|q: Point|
                    #![trigger marks@[q.cell()]]
                    q.on_board() && q.cell() < i + 1 implies marks@[q.cell()] == (self@.refusal(
                    Move::Play(q),
                ) is None) by {
                    if q.cell() == i {
                        assert(q == p);
                    } else {
                        assert(before[q.cell()] == (self@.refusal(Move::Play(q)) is None));
                    }
                }
            }
            i += 1;
        }
        let r = read_out(&marks, None);
        proof {
            let a = |q: Point| (q.on_board() && marks@[q.cell()]) || None::<Point> == Some(q);
            let s = self@;
            let b = |p: Point| p.on_board() && s.refusal(Move::Play(p)) is None;
            assert forall|q: Point| q.row < SIZE && q.col < AREA implies #[trigger] a(q) == b(q) by {
                if q.on_board() {
                    assert(marks@[q.cell()] == (self@.refusal(Move::Play(q)) is None));
                }
            }
            lemma_listing_same(a, b, POSITIONS as nat);
        }
        r
    }

    /// The points of the marked region, and the colors of the stones around it.
    fn region_borders(&self, region: &Vec<bool>, p: Point) -> (r: (bool, bool))
        requires
            self.wf(),
            p.on_board(),
            region@.len() == AREA,
            forall|q: Point|
                #![trigger region@[q.cell()]]
                q.on_board() ==> region@[q.cell()] == connected(self@.cells, p, q),
        ensures
            r.0 == borders(self@.cells, p, Color::Black),
            r.1 == borders(self@.cells, p, Color::White),
    {
        let ghost cells = self@.cells;
        let mut black = false;
        let mut white = false;
        let mut i: usize = 0;
        while i < AREA
            invariant
                self.wf(),
                cells == self@.cells,
                p.on_board(),
                region@.len() == AREA,
                forall|q: Point|
                    #![trigger region@[q.cell()]]
                    q.on_board() ==> region@[q.cell()] == connected(cells, p, q),
                i <= AREA,
                black ==> borders(cells, p, Color::Black),
                white ==> borders(cells, p, Color::White),
                forall|s: Point, t: Point|
                    #![trigger adjacent(s, t)]
                    s.on_board() && s.cell() < i && connected(cells, p, s) && adjacent(s, t) ==> {
                        &&& cells[t.cell()] == Some(Color::Black) ==> black
                        &&& cells[t.cell()] == Some(Color::White) ==> white
                    },
            decreases AREA - i,
        {
            let s = Point { row: i / SIZE, col: i % SIZE };
            let ghost black_before = black;
            let ghost white_before = white;
            assert(s.cell() == i);
            if region[i] {
                assert(region@[s.cell()]);
                assert(connected(cells, p, s));
                let around = s.neighbors();
                let mut k: usize = 0;
                while k < around.len()
                    invariant
                        self.wf(),
                        cells == self@.cells,
                        connected(cells, p, s),
                        k <= around@.len(),
                        forall|q: Point| #[trigger] around@.contains(q) <==> adjacent(s, q),
                        black_before ==> black,
                        white_before ==> white,
                        black ==> borders(cells, p, Color::Black),
                        white ==> borders(cells, p, Color::White),
                        forall|j: int|
                            #![trigger around@[j]]
                            0 <= j < k ==> {
                                &&& cells[around@[j].cell()] == Some(Color::Black) ==> black
                                &&& cells[around@[j].cell()] == Some(Color::White) ==> white
                            },
                    decreases around@.len() - k,
                {
                    let t = around[k];
                    assert(around@.contains(t));
                    assert(adjacent(s, t));
                    match self.at(t) {
                        Some(Color::Black) => {
                            black = true;
                        },
                        Some(Color::White) => {
                            white = true;
                        },
                        None => {},
                    }
                    k += 1;
                }
                proof {
                    assert forall|t: Point| #[trigger] adjacent(s, t) implies {
                        &&& cells[t.cell()] == Some(Color::Black) ==> black
                        &&& cells[t.cell()] == Some(Color::White) ==> white
                    } by {
                        assert(around@.contains(t));
                    }
                }
            }
            proof {
                assert forall|u: Point, t: Point|
                    #![trigger adjacent(u, t)]
                    u.on_board() && u.cell() < i + 1 && connected(cells, p, u) && adjacent(
                        u,
                        t,
                    ) implies {
                    &&& cells[t.cell()] == Some(Color::Black) ==> black
                    &&& cells[t.cell()] == Some(Color::White) ==> white
                } by {
                    if u.cell() == i {
                        assert(u == s);
                        assert(region@[u.cell()]);
                    }
                }
            }
            i += 1;
        }
        proof {
            assert forall|c: Color| #[trigger] borders(cells, p, c) implies (if c == Color::Black {
                black
            } else {
                white
            }) by {
                let (s, t) = choose|s: Point, t: Point|
                    connected(cells, p, s) && #[trigger] adjacent(s, t) && cells[t.cell()] == Some(
                        c,
                    );
                lemma_connected_holds(cells, p, s);
                assert(adjacent(s, t));
            }
        }
        (black, white)
    }

    /// Area score (stones plus surrounded empty area), before komi.
    ///
    /// No dead-stone detection: this is only meaningful once the position is
    /// played out, which is why it is reported as provisional.
    pub fn area_score(&self) -> (r: (u32, u32))
        requires
            self.wf(),
        ensures
            r.0 == area(self@.cells, Color::Black).len(),
            r.1 == area(self@.cells, Color::White).len(),
    {
        let ghost cells = self@.cells;
        let mut black: Vec<bool> = vec![false; AREA];
        let mut white: Vec<bool> = vec![false; AREA];
        let mut seen: Vec<bool> = vec![false; AREA];
        let mut i: usize = 0;
        while i < AREA
            invariant
                self.wf(),
                cells == self@.cells,
                i <= AREA,
                black@.len() == AREA,
                white@.len() == AREA,
                seen@.len() == AREA,
                settled(cells, seen@, black@, white@),
                forall|j: int| 0 <= j < i ==> #[trigger] seen@[j],
            decreases AREA - i,
        {
            let p = Point { row: i / SIZE, col: i % SIZE };
            assert(p.cell() == i);
            if !seen[i] {
                match self.at(p) {
                    Some(c) => {
                        let ghost seen_before = seen@;
                        let ghost black_before = black@;
                        let ghost white_before = white@;
                        seen[i] = true;
                        black[i] = (c == Color::Black);
                        white[i] = (c == Color::White);
                        proof {
                            assert forall|q: Point|
                                #![trigger seen@[q.cell()]]
                                q.on_board() && seen@[q.cell()] implies {
                                &&& black@[q.cell()] == (owner(cells, q) == Some(Color::Black))
                                &&& white@[q.cell()] == (owner(cells, q) == Some(Color::White))
                            } by {
                                if q.cell() == i {
                                    assert(q == p);
                                } else {
                                    assert(seen_before[q.cell()]);
                                }
                            }
                        }
                    },
                    None => {
                        // Flood the empty region and see which colors border it.

                        let region = flood(self.cells(), p);
                        let (by_black, by_white) = self.region_borders(&region, p);
                        self.settle(
                            &region,
                            p,
                            by_black && !by_white,
                            by_white && !by_black,
                            &mut seen,
                            &mut black,
                            &mut white,
                        );
                        proof {
                            lemma_connected_self(cells, p);
                            assert(region@[p.cell()]);
                        }
                    },
                }
            }
            i += 1;
        }
        let black_area = read_out(&black, None);
        let white_area = read_out(&white, None);
        proof {
            let ab = |q: Point| (q.on_board() && black@[q.cell()]) || None::<Point> == Some(q);
            let bb = |p: Point| p.on_board() && owner(cells, p) == Some(Color::Black);
            assert forall|q: Point| q.row < SIZE && q.col < AREA implies #[trigger] ab(q) == bb(
                q,
            ) by {
                if q.on_board() {
                    assert(seen@[q.cell()]);
                }
            }
            lemma_listing_same(ab, bb, POSITIONS as nat);
            lemma_listing_bound(bb, POSITIONS as nat);
            let aw = |q: Point| (q.on_board() && white@[q.cell()]) || None::<Point> == Some(q);
            let bw = |p: Point| p.on_board() && owner(cells, p) == Some(Color::White);
            assert forall|q: Point| q.row < SIZE && q.col < AREA implies #[trigger] aw(q) == bw(
                q,
            ) by {
                if q.on_board() {
                    assert(seen@[q.cell()]);
                }
            }
            lemma_listing_same(aw, bw, POSITIONS as nat);
            lemma_listing_bound(bw, POSITIONS as nat);
        }
        (black_area.len() as u32, white_area.len() as u32)
    }

    /// Enter the whole region of `p` as owned.
    fn settle(
        &self,
        region: &Vec<bool>,
        p: Point,
        is_black: bool,
        is_white: bool,
        seen: &mut Vec<bool>,
        black: &mut Vec<bool>,
        white: &mut Vec<bool>,
    )
        requires
            self.wf(),
            p.on_board(),
            self@.cells[p.cell()] is None,
            is_black == (owner(self@.cells, p) == Some(Color::Black)),
            is_white == (owner(self@.cells, p) == Some(Color::White)),
            region@.len() == AREA,
            forall|q: Point|
                #![trigger region@[q.cell()]]
                q.on_board() ==> region@[q.cell()] == connected(self@.cells, p, q),
            old(seen)@.len() == AREA,
            old(black)@.len() == AREA,
            old(white)@.len() == AREA,
            settled(self@.cells, old(seen)@, old(black)@, old(white)@),
        ensures
            final(seen)@.len() == AREA,
            final(black)@.len() == AREA,
            final(white)@.len() == AREA,
            settled(self@.cells, final(seen)@, final(black)@, final(white)@),
            forall|j: int|
                #![trigger final(seen)@[j]]
                0 <= j < AREA ==> final(seen)@[j] == (old(seen)@[j] || region@[j]),
    {
        let ghost cells = self@.cells;
        let ghost seen_at_start = seen@;
        let mut i: usize = 0;
        while i < AREA
            invariant
                i <= AREA,
                p.on_board(),
                cells == self@.cells,
                cells[p.cell()] is None,
                is_black == (owner(cells, p) == Some(Color::Black)),
                is_white == (owner(cells, p) == Some(Color::White)),
                region@.len() == AREA,
                forall|q: Point|
                    #![trigger region@[q.cell()]]
                    q.on_board() ==> region@[q.cell()] == connected(cells, p, q),
                seen@.len() == AREA,
                black@.len() == AREA,
                white@.len() == AREA,
                seen_at_start.len() == AREA,
                settled(cells, seen@, black@, white@),
                forall|j: int|
                    #![trigger seen@[j]]
                    0 <= j < AREA ==> seen@[j] == (seen_at_start[j] || (j < i && region@[j])),
            decreases AREA - i,
        {
            if region[i] {
                let ghost seen_before = seen@;
                let ghost black_before = black@;
                let ghost white_before = white@;
                let ghost s = Point { row: (i / SIZE) as usize, col: (i % SIZE) as usize };
                seen[i] = true;
                black[i] = is_black;
                white[i] = is_white;
                proof {
                    assert(s.cell() == i);
                    assert(region@[s.cell()]);
                    lemma_borders_shared(cells, p, s, Color::Black);
                    lemma_borders_shared(cells, p, s, Color::White);
                    lemma_connected_holds(cells, p, s);
                    assert forall|q: Point|
                        #![trigger seen@[q.cell()]]
                        q.on_board() && seen@[q.cell()] implies {
                        &&& black@[q.cell()] == (owner(cells, q) == Some(Color::Black))
                        &&& white@[q.cell()] == (owner(cells, q) == Some(Color::White))
                    } by {
                        if q.cell() == i {
                            assert(q == s);
                        } else {
                            assert(seen_before[q.cell()]);
                        }
                    }
                }
            }
            i += 1;
        }
    }
}

/// The marks say whose area each of the points seen so far belongs to.
spec fn settled(cells: Cells, seen: Seq<bool>, black: Seq<bool>, white: Seq<bool>) -> bool {
    forall|q: Point|
        #![trigger seen[q.cell()]]
        q.on_board() && seen[q.cell()] ==> {
            &&& black[q.cell()] == (owner(cells, q) == Some(Color::Black))
            &&& white[q.cell()] == (owner(cells, q) == Some(Color::White))
        }
}

/// The marked points are those of the groups with a stone before position `n`.
spec fn seen_upto(cells: Cells, seen: Seq<bool>, n: nat) -> bool {
    forall|q: Point|
        #![trigger seen[q.cell()]]
        q.on_board() ==> (seen[q.cell()] <==> exists|s: Point|
            s.on_board() && cells[s.cell()] is Some && s.rank() < n && #[trigger] connected(
                cells,
                s,
                q,
            ))
}

/// The groups found among the first `n` positions.
spec fn groups_upto(
    cells: Cells,
    seen: Seq<bool>,
    out: Seq<Group>,
    first: spec_fn(Point) -> bool,
    n: nat,
) -> bool {
    &&& seen_upto(cells, seen, n)
    &&& out.len() == listing_upto(first, n).len()
    &&& forall|i: int|
        #![trigger out[i]]
        0 <= i < out.len() ==> out[i]@ == group_of(cells, listing_upto(first, n)[i])
}

/// A stone comes first within its group exactly if no earlier stone is
/// connected with it.
proof fn lemma_head_unseen(cells: Cells, seen: Seq<bool>, p: Point)
    requires
        p.on_board(),
        seen_upto(cells, seen, p.rank() as nat),
    ensures
        heads_group(cells, p) <==> cells[p.cell()] is Some && !seen[p.cell()],
{
    if cells[p.cell()] is Some {
        assert(seen[p.cell()] <==> exists|s: Point|
            s.on_board() && cells[s.cell()] is Some && s.rank() < p.rank() && #[trigger] connected(
                cells,
                s,
                p,
            ));
        if seen[p.cell()] {
            let s = choose|s: Point|
                s.on_board() && cells[s.cell()] is Some && s.rank() < p.rank()
                    && #[trigger] connected(cells, s, p);
            lemma_connected_symmetric(cells, s, p);
        } else {
            assert forall|q: Point| #[trigger] connected(cells, p, q) implies p.rank()
                <= q.rank() by {
                lemma_connected_holds(cells, p, q);
                lemma_connected_symmetric(cells, p, q);
            }
        }
    }
}

proof fn lemma_groups_step(cells: Cells, before: Seq<bool>, after: Seq<bool>, p: Point)
    requires
        p.on_board(),
        seen_upto(cells, before, p.rank() as nat),
        cells[p.cell()] is Some && !before[p.cell()] ==> forall|q: Point|
            #![trigger after[q.cell()]]
            q.on_board() ==> (after[q.cell()] <==> before[q.cell()] || connected(cells, p, q)),
        cells[p.cell()] is None || before[p.cell()] ==> after == before,
    ensures
        seen_upto(cells, after, (p.rank() + 1) as nat),
{
    let n = p.rank();
    assert forall|q: Point|
        #![trigger after[q.cell()]]
        q.on_board() implies (after[q.cell()] <==> exists|s: Point|
        s.on_board() && cells[s.cell()] is Some && s.rank() < n + 1 && #[trigger] connected(
            cells,
            s,
            q,
        )) by {
        assert(before[q.cell()] <==> exists|s: Point|
            s.on_board() && cells[s.cell()] is Some && s.rank() < n && #[trigger] connected(
                cells,
                s,
                q,
            ));
        if after[q.cell()] && !before[q.cell()] {
            assert(connected(cells, p, q));
        }
        if exists|s: Point|
            s.on_board() && cells[s.cell()] is Some && s.rank() < n + 1 && #[trigger] connected(
                cells,
                s,
                q,
            ) {
            let s = choose|s: Point|
                s.on_board() && cells[s.cell()] is Some && s.rank() < n + 1
                    && #[trigger] connected(cells, s, q);
            if s.rank() == n {
                assert(s == p);
                if before[p.cell()] {
                    let t = choose|t: Point|
                        t.on_board() && cells[t.cell()] is Some && t.rank() < n
                            && #[trigger] connected(cells, t, p);
                    lemma_connected_transitive(cells, t, p, q);
                }
            }
        }
    }
}

/// Positions past the right edge hold no stones.
proof fn lemma_seen_gap(cells: Cells, seen: Seq<bool>, from: nat, to: nat)
    requires
        seen_upto(cells, seen, from),
        from <= to <= POSITIONS,
        forall|s: Point| s.on_board() && #[trigger] s.rank() < to ==> s.rank() < from,
    ensures
        seen_upto(cells, seen, to),
{
    assert forall|q: Point|
        #![trigger seen[q.cell()]]
        q.on_board() implies (seen[q.cell()] <==> exists|s: Point|
        s.on_board() && cells[s.cell()] is Some && s.rank() < to && #[trigger] connected(
            cells,
            s,
            q,
        )) by {
        if exists|s: Point|
            s.on_board() && cells[s.cell()] is Some && s.rank() < to && #[trigger] connected(
                cells,
                s,
                q,
            ) {
            let s = choose|s: Point|
                s.on_board() && cells[s.cell()] is Some && s.rank() < to && #[trigger] connected(
                    cells,
                    s,
                    q,
                );
            assert(s.rank() < from);
        }
    }
}

} // verus!

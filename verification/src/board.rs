//! The geometry of a position: which points touch, which are connected, and
//! what a group needs to stay alive.

use vstd::prelude::*;

use crate::goban::{Color, Point, SIZE};

verus! {

/// What stands on each of the 361 intersections, row by row from the top.
pub type Cells = Seq<Option<Color>>;

/// Number of intersections.
pub const AREA: usize = 361;

/// Number of positions in reading order: the rows of the board, each as long
/// as a column index of an addressable point can be.
pub const POSITIONS: usize = 6859;

impl Point {
    /// The index of the cell that this point addresses.
    pub open spec fn cell(self) -> int {
        self.row * SIZE + self.col
    }

    /// The point lies on the board.
    pub open spec fn on_board(self) -> bool {
        self.row < SIZE && self.col < SIZE
    }

    /// The point addresses one of the cells. Every point of the board does; a
    /// point past the right edge addresses a cell of a later row.
    pub open spec fn addressable(self) -> bool {
        self.cell() < AREA
    }

    /// Position of an addressable point in reading order: rows from the top,
    /// and within a row from the left.
    pub open spec fn rank(self) -> int {
        self.row * AREA + self.col
    }
}

/// The point at position `i` of the reading order.
pub open spec fn point_at(i: int) -> Point {
    Point { row: (i / AREA as int) as usize, col: (i % AREA as int) as usize }
}

/// The points among the first `n` positions that satisfy `pred`.
pub open spec fn listing_upto(pred: spec_fn(Point) -> bool, n: nat) -> Seq<Point>
    decreases n,
{
    if n == 0 {
        Seq::empty()
    } else if pred(point_at(n - 1)) {
        listing_upto(pred, (n - 1) as nat).push(point_at(n - 1))
    } else {
        listing_upto(pred, (n - 1) as nat)
    }
}

/// The points that satisfy `pred`, each once, in reading order.
pub open spec fn listing(pred: spec_fn(Point) -> bool) -> Seq<Point> {
    listing_upto(pred, POSITIONS as nat)
}

/// `q` is a point of the board one step up, down, left or right of `p`.
pub open spec fn adjacent(p: Point, q: Point) -> bool {
    &&& q.on_board()
    &&& {
        ||| p.col == q.col && (p.row == q.row + 1 || q.row == p.row + 1)
        ||| p.row == q.row && (p.col == q.col + 1 || q.col == p.col + 1)
    }
}

/// `q` is a neighbor of `p` that holds the same: a stone of the same color, or
/// nothing as well.
pub open spec fn step(cells: Cells, p: Point, q: Point) -> bool {
    adjacent(p, q) && cells[q.cell()] == cells[p.cell()]
}

/// `q` is reached from `p` in `n` steps between neighbors that hold the same.
pub open spec fn reach_in(cells: Cells, p: Point, q: Point, n: nat) -> bool
    decreases n,
{
    if n == 0 {
        p == q
    } else {
        exists|m: Point| reach_in(cells, p, m, (n - 1) as nat) && #[trigger] step(cells, m, q)
    }
}

/// `p` and `q` belong together: to one group of stones, or one empty region.
pub open spec fn connected(cells: Cells, p: Point, q: Point) -> bool {
    exists|n: nat| #[trigger] reach_in(cells, p, q, n)
}

/// `l` is a liberty of the group of `p`: an empty neighbor of one of its stones.
pub open spec fn liberty(cells: Cells, p: Point, l: Point) -> bool {
    cells[l.cell()] is None && exists|s: Point|
        #[trigger] connected(cells, p, s) && adjacent(s, l)
}

/// The group of `p` has a liberty.
pub open spec fn has_liberty(cells: Cells, p: Point) -> bool {
    exists|l: Point| #[trigger] liberty(cells, p, l)
}

// ---------------------------------------------------------------------------
// Facts about listings
// ---------------------------------------------------------------------------

pub proof fn lemma_point_at(i: int)
    requires
        0 <= i < POSITIONS,
    ensures
        point_at(i).rank() == i,
        point_at(i).row < 19,
        point_at(i).col < 361,
{
}

pub proof fn lemma_rank(p: Point)
    requires
        p.row < 19,
        p.col < 361,
    ensures
        0 <= p.rank() < POSITIONS,
        point_at(p.rank()) == p,
{
}

/// A listing holds exactly the points that satisfy its predicate, ordered by
/// rank.
pub proof fn lemma_listing_upto(pred: spec_fn(Point) -> bool, n: nat)
    requires
        n <= POSITIONS,
    ensures
        forall|q: Point| #[trigger]
            listing_upto(pred, n).contains(q) <==> (pred(q) && q.row < 19 && q.col < 361
                && q.rank() < n),
        forall|i: int, j: int|
            #![trigger listing_upto(pred, n)[i], listing_upto(pred, n)[j]]
            0 <= i < j < listing_upto(pred, n).len() ==> listing_upto(pred, n)[i].rank()
                < listing_upto(pred, n)[j].rank(),
    decreases n,
{
    if n > 0 {
        let m = (n - 1) as nat;
        lemma_listing_upto(pred, m);
        lemma_point_at(m as int);
        let s = listing_upto(pred, m);
        let t = listing_upto(pred, n);
        let p = point_at(m as int);
        assert forall|q: Point| #[trigger] t.contains(q) <==> (pred(q) && q.row < 19 && q.col < 361
            && q.rank() < n) by {
            if pred(p) {
                assert(t == s.push(p));
                if t.contains(q) {
                    let k = choose|k: int| 0 <= k < t.len() && t[k] == q;
                    if k < s.len() {
                        assert(s[k] == q);
                        assert(s.contains(q));
                    }
                }
                if s.contains(q) {
                    let k = choose|k: int| 0 <= k < s.len() && s[k] == q;
                    assert(t[k] == q);
                }
                assert(t[s.len() as int] == p);
            }
            if q.row < 19 && q.col < 361 && q.rank() == m {
                lemma_rank(q);
            }
        }
        assert forall|i: int, j: int|
            #![trigger t[i], t[j]]
            0 <= i < j < t.len() implies t[i].rank() < t[j].rank() by {
            if j < s.len() {
                assert(t[i] == s[i] && t[j] == s[j]);
            } else {
                assert(t[i] == s[i]);
                assert(s.contains(s[i]));
            }
        }
    }
}

pub proof fn lemma_listing_bound(pred: spec_fn(Point) -> bool, n: nat)
    ensures
        listing_upto(pred, n).len() <= n,
    decreases n,
{
    if n > 0 {
        lemma_listing_bound(pred, (n - 1) as nat);
    }
}

/// Two predicates that agree on every point have the same listing.
pub proof fn lemma_listing_same(a: spec_fn(Point) -> bool, b: spec_fn(Point) -> bool, n: nat)
    requires
        n <= POSITIONS,
        forall|q: Point| q.row < SIZE && q.col < AREA ==> #[trigger] a(q) == b(q),
    ensures
        listing_upto(a, n) == listing_upto(b, n),
    decreases n,
{
    if n > 0 {
        lemma_listing_same(a, b, (n - 1) as nat);
        lemma_point_at(n - 1);
        assert(a(point_at(n - 1)) == b(point_at(n - 1)));
    }
}

/// Positions that do not satisfy the predicate add nothing to a listing.
pub proof fn lemma_listing_gap(pred: spec_fn(Point) -> bool, from: nat, to: nat)
    requires
        from <= to <= POSITIONS,
        forall|i: int| from <= i < to ==> !pred(#[trigger] point_at(i)),
    ensures
        listing_upto(pred, to) == listing_upto(pred, from),
    decreases to - from,
{
    if from < to {
        lemma_listing_gap(pred, from, (to - 1) as nat);
        assert(!pred(point_at(to - 1)));
    }
}

// ---------------------------------------------------------------------------
// Facts about connection
// ---------------------------------------------------------------------------

/// On the board, neighborhood goes both ways.
pub proof fn lemma_adjacent_symmetric(p: Point, q: Point)
    requires
        p.on_board(),
        adjacent(p, q),
    ensures
        adjacent(q, p),
{
}

pub proof fn lemma_connected_self(cells: Cells, p: Point)
    ensures
        connected(cells, p, p),
{
    assert(reach_in(cells, p, p, 0));
}

pub proof fn lemma_connected_step(cells: Cells, p: Point, m: Point, q: Point)
    requires
        connected(cells, p, m),
        step(cells, m, q),
    ensures
        connected(cells, p, q),
{
    let n = choose|n: nat| reach_in(cells, p, m, n);
    assert(reach_in(cells, p, m, ((n + 1) - 1) as nat));
    assert(reach_in(cells, p, q, n + 1));
}

/// What is reached holds the same as the start, and lies on the board unless
/// it is the start itself.
proof fn lemma_reach_holds(cells: Cells, p: Point, q: Point, n: nat)
    requires
        reach_in(cells, p, q, n),
    ensures
        cells[q.cell()] == cells[p.cell()],
        q == p || q.on_board(),
    decreases n,
{
    if n > 0 {
        let m = choose|m: Point|
            reach_in(cells, p, m, (n - 1) as nat) && #[trigger] step(cells, m, q);
        lemma_reach_holds(cells, p, m, (n - 1) as nat);
    }
}

pub proof fn lemma_connected_holds(cells: Cells, p: Point, q: Point)
    requires
        connected(cells, p, q),
    ensures
        cells[q.cell()] == cells[p.cell()],
        q == p || q.on_board(),
{
    let n = choose|n: nat| reach_in(cells, p, q, n);
    lemma_reach_holds(cells, p, q, n);
}

proof fn lemma_reach_extend(cells: Cells, p: Point, m: Point, q: Point, n: nat)
    requires
        connected(cells, p, m),
        reach_in(cells, m, q, n),
    ensures
        connected(cells, p, q),
    decreases n,
{
    if n > 0 {
        let k = choose|k: Point|
            reach_in(cells, m, k, (n - 1) as nat) && #[trigger] step(cells, k, q);
        lemma_reach_extend(cells, p, m, k, (n - 1) as nat);
        lemma_connected_step(cells, p, k, q);
    }
}

pub proof fn lemma_connected_transitive(cells: Cells, p: Point, m: Point, q: Point)
    requires
        connected(cells, p, m),
        connected(cells, m, q),
    ensures
        connected(cells, p, q),
{
    let n = choose|n: nat| reach_in(cells, m, q, n);
    lemma_reach_extend(cells, p, m, q, n);
}

proof fn lemma_reach_back(cells: Cells, p: Point, q: Point, n: nat)
    requires
        p.on_board(),
        reach_in(cells, p, q, n),
    ensures
        connected(cells, q, p),
    decreases n,
{
    if n == 0 {
        lemma_connected_self(cells, p);
    } else {
        let m = choose|m: Point|
            reach_in(cells, p, m, (n - 1) as nat) && #[trigger] step(cells, m, q);
        lemma_reach_holds(cells, p, m, (n - 1) as nat);
        lemma_reach_back(cells, p, m, (n - 1) as nat);
        lemma_adjacent_symmetric(m, q);
        lemma_connected_self(cells, q);
        lemma_connected_step(cells, q, q, m);
        lemma_connected_transitive(cells, q, m, p);
    }
}

pub proof fn lemma_connected_symmetric(cells: Cells, p: Point, q: Point)
    requires
        p.on_board(),
        connected(cells, p, q),
    ensures
        connected(cells, q, p),
{
    let n = choose|n: nat| reach_in(cells, p, q, n);
    lemma_reach_back(cells, p, q, n);
}

// ---------------------------------------------------------------------------
// Neighbors
// ---------------------------------------------------------------------------

/// The neighbors of a point in the order up, down, left, right.
pub open spec fn neighbor_list(p: Point) -> Seq<Point> {
    let up = if 0 < p.row <= SIZE && p.col < SIZE {
        seq![Point { row: (p.row - 1) as usize, col: p.col }]
    } else {
        Seq::empty()
    };
    let down = if p.row + 1 < SIZE && p.col < SIZE {
        seq![Point { row: (p.row + 1) as usize, col: p.col }]
    } else {
        Seq::empty()
    };
    let left = if p.row < SIZE && 0 < p.col <= SIZE {
        seq![Point { row: p.row, col: (p.col - 1) as usize }]
    } else {
        Seq::empty()
    };
    let right = if p.row < SIZE && p.col + 1 < SIZE {
        seq![Point { row: p.row, col: (p.col + 1) as usize }]
    } else {
        Seq::empty()
    };
    up + down + left + right
}

impl Point {
    /// The neighbors of this point on the board.
    pub fn neighbors(self) -> (r: Vec<Point>)
        requires
            self.row < 0x7fff_ffff,
            self.col < 0x7fff_ffff,
        ensures
            r@ == neighbor_list(self),
            forall|q: Point| #[trigger] r@.contains(q) <==> adjacent(self, q),
    {
        let mut r: Vec<Point> = Vec::new();
        let (row, col) = (self.row, self.col);
        if 0 < row && row <= SIZE && col < SIZE {
            r.push(Point { row: row - 1, col });
        }
        if row + 1 < SIZE && col < SIZE {
            r.push(Point { row: row + 1, col });
        }
        if row < SIZE && 0 < col && col <= SIZE {
            r.push(Point { row, col: col - 1 });
        }
        if row < SIZE && col + 1 < SIZE {
            r.push(Point { row, col: col + 1 });
        }
        assert(r@ =~= neighbor_list(self));
        proof {
            lemma_neighbor_list(self);
        }
        r
    }
}

proof fn lemma_neighbor_list(p: Point)
    requires
        p.row < 0x7fff_ffff,
        p.col < 0x7fff_ffff,
    ensures
        forall|q: Point| #[trigger] neighbor_list(p).contains(q) <==> adjacent(p, q),
{
    let s = neighbor_list(p);
    assert forall|q: Point| adjacent(p, q) implies #[trigger] s.contains(q) by {
        let a: int = if 0 < p.row <= SIZE && p.col < SIZE { 1 } else { 0 };
        let b: int = if p.row + 1 < SIZE && p.col < SIZE { 1 } else { 0 };
        let c: int = if p.row < SIZE && 0 < p.col <= SIZE { 1 } else { 0 };
        if p.row == q.row + 1 {
            assert(s[0] == q);
        } else if q.row == p.row + 1 {
            assert(s[a] == q);
        } else if p.col == q.col + 1 {
            assert(s[a + b] == q);
        } else {
            assert(s[a + b + c] == q);
        }
    }
}

// ---------------------------------------------------------------------------
// Flooding
// ---------------------------------------------------------------------------

/// How many marks are not set.
spec fn unset(marks: Seq<bool>) -> nat
    decreases marks.len(),
{
    if marks.len() == 0 {
        0
    } else {
        unset(marks.drop_last()) + if marks.last() {
            0nat
        } else {
            1nat
        }
    }
}

proof fn lemma_unset_update(marks: Seq<bool>, i: int)
    requires
        0 <= i < marks.len(),
        !marks[i],
    ensures
        unset(marks.update(i, true)) + 1 == unset(marks),
    decreases marks.len(),
{
    let after = marks.update(i, true);
    if i == marks.len() - 1 {
        assert(after.drop_last() =~= marks.drop_last());
    } else {
        assert(after.drop_last() =~= marks.drop_last().update(i, true));
        lemma_unset_update(marks.drop_last(), i);
    }
}

/// The point is the start of the flood or has been marked.
spec fn reached(marks: Seq<bool>, start: Point, q: Point) -> bool {
    q == start || (q.on_board() && marks[q.cell()])
}

proof fn lemma_flood_complete(cells: Cells, marks: Seq<bool>, start: Point, q: Point, n: nat)
    requires
        forall|m: Point, r: Point|
            #![trigger step(cells, m, r)]
            reached(marks, start, m) && step(cells, m, r) ==> marks[r.cell()],
        reach_in(cells, start, q, n),
    ensures
        reached(marks, start, q),
    decreases n,
{
    if n > 0 {
        let m = choose|m: Point|
            reach_in(cells, start, m, (n - 1) as nat) && #[trigger] step(cells, m, q);
        lemma_flood_complete(cells, marks, start, m, (n - 1) as nat);
    }
}

/// Mark the points of the board that are connected with `start`.
pub fn flood(cells: &Vec<Option<Color>>, start: Point) -> (marks: Vec<bool>)
    requires
        cells@.len() == AREA,
        start.addressable(),
    ensures
        marks@.len() == AREA,
        forall|q: Point|
            #![trigger marks@[q.cell()]]
            #![trigger connected(cells@, start, q)]
            q.on_board() ==> marks@[q.cell()] == connected(cells@, start, q),
{
    let content = cells[start.row * SIZE + start.col];
    let mut marks: Vec<bool> = vec![false; AREA];
    let mut stack: Vec<Point> = Vec::new();
    stack.push(start);
    if start.row < SIZE && start.col < SIZE {
        marks[start.row * SIZE + start.col] = true;
    }
    proof {
        lemma_connected_self(cells@, start);
        assert(stack@[0] == start);
    }
    while stack.len() > 0
        invariant
            cells@.len() == AREA,
            marks@.len() == AREA,
            start.addressable(),
            content == cells@[start.cell()],
            start.on_board() ==> marks@[start.cell()],
            forall|q: Point|
                #![trigger marks@[q.cell()]]
                q.on_board() && marks@[q.cell()] ==> connected(cells@, start, q),
            forall|i: int|
                #![trigger stack@[i]]
                0 <= i < stack@.len() ==> reached(marks@, start, stack@[i]) && connected(
                    cells@,
                    start,
                    stack@[i],
                ),
            forall|m: Point, r: Point|
                #![trigger step(cells@, m, r)]
                reached(marks@, start, m) && !stack@.contains(m) && step(cells@, m, r)
                    ==> marks@[r.cell()],
        decreases unset(marks@) + stack@.len(),
    {
        let ghost before = stack@;
        let ghost measure = unset(marks@) + stack@.len();
        let top = stack.len() - 1;
        let cur = stack[top];
        stack.truncate(top);
        proof {
            lemma_connected_holds(cells@, start, cur);
            assert(reached(marks@, start, before[top as int]));
            assert forall|m: Point| m != cur && before.contains(m) implies #[trigger] stack@.contains(
                m,
            ) by {
                let k = choose|k: int| 0 <= k < before.len() && before[k] == m;
                assert(stack@[k] == m);
            }
        }
        let around = cur.neighbors();
        let mut k: usize = 0;
        while k < around.len()
            invariant
                cells@.len() == AREA,
                marks@.len() == AREA,
                start.addressable(),
                content == cells@[start.cell()],
                content == cells@[cur.cell()],
                connected(cells@, start, cur),
                0 <= k <= around@.len(),
                forall|q: Point| #[trigger] around@.contains(q) <==> adjacent(cur, q),
                start.on_board() ==> marks@[start.cell()],
                unset(marks@) + stack@.len() + 1 == measure,
                forall|q: Point|
                    #![trigger marks@[q.cell()]]
                    q.on_board() && marks@[q.cell()] ==> connected(cells@, start, q),
                forall|i: int|
                    #![trigger stack@[i]]
                    0 <= i < stack@.len() ==> reached(marks@, start, stack@[i]) && connected(
                        cells@,
                        start,
                        stack@[i],
                    ),
                forall|m: Point, r: Point|
                    #![trigger step(cells@, m, r)]
                    reached(marks@, start, m) && m != cur && !stack@.contains(m) && step(
                        cells@,
                        m,
                        r,
                    ) ==> marks@[r.cell()],
                forall|i: int|
                    #![trigger around@[i]]
                    0 <= i < k && cells@[around@[i].cell()] == content
                        ==> marks@[around@[i].cell()],
            decreases around@.len() - k,
        {
            let n = around[k];
            assert(around@.contains(n));
            let at = n.row * SIZE + n.col;
            let ghost marks_before = marks@;
            if cells[at] == content && !marks[at] {
                let ghost stack_before = stack@;
                marks[at] = true;
                stack.push(n);
                proof {
                    lemma_unset_update(marks_before, at as int);
                    assert(marks@ == marks_before.update(at as int, true));
                    assert(step(cells@, cur, n));
                    lemma_connected_step(cells@, start, cur, n);
                    assert forall|q: Point|
                        #![trigger marks@[q.cell()]]
                        q.on_board() && marks@[q.cell()] implies connected(cells@, start, q) by {
                        if q.cell() == at {
                            assert(q == n);
                        } else {
                            assert(marks_before[q.cell()]);
                        }
                    }
                    assert(stack@[stack_before.len() as int] == n);
                    assert forall|m: Point| #[trigger] stack_before.contains(m) implies stack@.contains(m) by {
                        let j = choose|j: int| 0 <= j < stack_before.len() && stack_before[j] == m;
                        assert(stack@[j] == m);
                    }
                    assert forall|m: Point, r: Point|
                        #![trigger step(cells@, m, r)]
                        reached(marks@, start, m) && m != cur && !stack@.contains(m) && step(
                            cells@,
                            m,
                            r,
                        ) implies marks@[r.cell()] by {
                        if reached(marks_before, start, m) {
                            assert(!stack_before.contains(m));
                            assert(marks_before[r.cell()]);
                        } else {
                            assert(m == n);
                        }
                    }
                }
            }
            proof {
                assert forall|i: int|
                    #![trigger around@[i]]
                    0 <= i < k + 1 && cells@[around@[i].cell()] == content
                        implies marks@[around@[i].cell()] by {
                    assert(around@.contains(around@[i]));
                    if i < k {
                        assert(marks_before[around@[i].cell()]);
                    }
                }
            }
            k += 1;
        }
        proof {
            assert forall|m: Point, r: Point|
                #![trigger step(cells@, m, r)]
                reached(marks@, start, m) && !stack@.contains(m) && step(cells@, m, r)
                    implies marks@[r.cell()] by {
                if m == cur {
                    assert(around@.contains(r));
                }
            }
        }
    }
    proof {
        assert forall|q: Point|
            #![trigger marks@[q.cell()]]
            #![trigger connected(cells@, start, q)]
            q.on_board() implies marks@[q.cell()] == connected(cells@, start, q) by {
            if connected(cells@, start, q) {
                let n = choose|n: nat| reach_in(cells@, start, q, n);
                lemma_flood_complete(cells@, marks@, start, q, n);
            }
        }
    }
    marks
}

// ---------------------------------------------------------------------------
// Reading out
// ---------------------------------------------------------------------------

/// The marked points of the board, together with `extra`, in reading order.
pub fn read_out(marks: &Vec<bool>, extra: Option<Point>) -> (r: Vec<Point>)
    requires
        marks@.len() == AREA,
        extra matches Some(e) ==> e.addressable() && !e.on_board(),
    ensures
        r@ == listing(|q: Point| (q.on_board() && marks@[q.cell()]) || extra == Some(q)),
{
    let ghost pred = |q: Point| (q.on_board() && marks@[q.cell()]) || extra == Some(q);
    let mut r: Vec<Point> = Vec::new();
    let mut row: usize = 0;
    while row < SIZE
        invariant
            marks@.len() == AREA,
            extra matches Some(e) ==> e.addressable() && !e.on_board(),
            pred == (|q: Point| (q.on_board() && marks@[q.cell()]) || extra == Some(q)),
            row <= SIZE,
            r@ == listing_upto(pred, (row * AREA) as nat),
        decreases SIZE - row,
    {
        let mut col: usize = 0;
        while col < SIZE
            invariant
                marks@.len() == AREA,
                extra matches Some(e) ==> e.addressable() && !e.on_board(),
                pred == (|q: Point| (q.on_board() && marks@[q.cell()]) || extra == Some(q)),
                row < SIZE,
                col <= SIZE,
                r@ == listing_upto(pred, (row * AREA + col) as nat),
            decreases SIZE - col,
        {
            let p = Point { row, col };
            proof {
                lemma_rank(p);
                assert(point_at(row * AREA + col) == p);
            }
            if marks[row * SIZE + col] {
                r.push(p);
            }
            col += 1;
        }
        let ghost done = (row * AREA + SIZE) as nat;
        let ghost end = ((row + 1) * AREA) as nat;
        match extra {
            Some(e) => {
                if e.row == row {
                    proof {
                        lemma_rank(e);
                        assert forall|i: int| done <= i < e.rank() implies !pred(
                            #[trigger] point_at(i),
                        ) by {
                            lemma_point_at(i);
                        }
                        lemma_listing_gap(pred, done, e.rank() as nat);
                        assert forall|i: int| e.rank() + 1 <= i < end implies !pred(
                            #[trigger] point_at(i),
                        ) by {
                            lemma_point_at(i);
                        }
                        lemma_listing_gap(pred, (e.rank() + 1) as nat, end);
                        assert(pred(point_at(e.rank())));
                    }
                    r.push(e);
                } else {
                    proof {
                        assert forall|i: int| done <= i < end implies !pred(
                            #[trigger] point_at(i),
                        ) by {
                            lemma_point_at(i);
                        }
                        lemma_listing_gap(pred, done, end);
                    }
                }
            },
            None => {
                proof {
                    assert forall|i: int| done <= i < end implies !pred(#[trigger] point_at(i)) by {
                        lemma_point_at(i);
                    }
                    lemma_listing_gap(pred, done, end);
                }
            },
        }
        row += 1;
    }
    r
}

/// The stones of the group of `p`, or the points of its empty region.
pub fn members(cells: &Vec<Option<Color>>, p: Point) -> (r: Vec<Point>)
    requires
        cells@.len() == AREA,
        p.addressable(),
    ensures
        r@ == listing(|q: Point| connected(cells@, p, q)),
{
    let marks = flood(cells, p);
    let extra = if p.row < SIZE && p.col < SIZE {
        None
    } else {
        Some(p)
    };
    let r = read_out(&marks, extra);
    proof {
        let a = |q: Point| (q.on_board() && marks@[q.cell()]) || extra == Some(q);
        let b = |q: Point| connected(cells@, p, q);
        assert forall|q: Point| q.row < SIZE && q.col < AREA implies #[trigger] a(q) == b(q) by {
            lemma_connected_self(cells@, p);
            if connected(cells@, p, q) {
                lemma_connected_holds(cells@, p, q);
            }
        }
        lemma_listing_same(a, b, POSITIONS as nat);
    }
    r
}

/// Is some neighbor of `stones[..]` at this empty point?
spec fn touched(stones: Seq<Point>, upto: int, l: Point) -> bool {
    exists|i: int| 0 <= i < upto && adjacent(#[trigger] stones[i], l)
}

/// The empty neighbors of the given stones.
pub fn empty_neighbors(cells: &Vec<Option<Color>>, stones: &Vec<Point>) -> (r: Vec<Point>)
    requires
        cells@.len() == AREA,
        forall|i: int| 0 <= i < stones@.len() ==> (#[trigger] stones@[i]).addressable(),
    ensures
        r@ == listing(
            |l: Point|
                cells@[l.cell()] is None && exists|s: Point| #[trigger]
                    stones@.contains(s) && adjacent(s, l),
        ),
{
    let mut marks: Vec<bool> = vec![false; AREA];
    let mut i: usize = 0;
    while i < stones.len()
        invariant
            cells@.len() == AREA,
            marks@.len() == AREA,
            i <= stones@.len(),
            forall|j: int| 0 <= j < stones@.len() ==> (#[trigger] stones@[j]).addressable(),
            forall|l: Point|
                #![trigger marks@[l.cell()]]
                l.on_board() ==> marks@[l.cell()] == (cells@[l.cell()] is None && touched(
                    stones@,
                    i as int,
                    l,
                )),
        decreases stones@.len() - i,
    {
        let s = stones[i];
        let around = s.neighbors();
        let ghost before = marks@;
        let mut k: usize = 0;
        while k < around.len()
            invariant
                cells@.len() == AREA,
                marks@.len() == AREA,
                before.len() == AREA,
                k <= around@.len(),
                forall|q: Point| #[trigger] around@.contains(q) <==> adjacent(s, q),
                forall|l: Point|
                    #![trigger marks@[l.cell()]]
                    l.on_board() ==> marks@[l.cell()] == (before[l.cell()] || (cells@[l.cell()]
                        is None && around@.take(k as int).contains(l))),
            decreases around@.len() - k,
        {
            let n = around[k];
            assert(around@.contains(n));
            let at = n.row * SIZE + n.col;
            let ghost prior = marks@;
            if cells[at].is_none() {
                marks[at] = true;
            }
            proof {
                let wide = around@.take(k + 1);
                let narrow = around@.take(k as int);
                assert(wide =~= narrow.push(n));
                assert forall|l: Point|
                    #![trigger marks@[l.cell()]]
                    l.on_board() implies marks@[l.cell()] == (before[l.cell()] || (
                cells@[l.cell()] is None && wide.contains(l))) by {
                    assert(prior[l.cell()] == (before[l.cell()] || (cells@[l.cell()] is None
                        && narrow.contains(l))));
                    assert(wide[k as int] == n);
                    if narrow.contains(l) {
                        let j = choose|j: int| 0 <= j < narrow.len() && narrow[j] == l;
                        assert(wide[j] == l);
                    }
                    if wide.contains(l) && l != n {
                        let j = choose|j: int| 0 <= j < wide.len() && wide[j] == l;
                        assert(narrow[j] == l);
                    }
                    if l.cell() == at {
                        assert(l == n);
                    }
                }
            }
            k += 1;
        }
        proof {
            assert(around@.take(around@.len() as int) =~= around@);
            assert forall|l: Point|
                #![trigger marks@[l.cell()]]
                l.on_board() implies marks@[l.cell()] == (cells@[l.cell()] is None && touched(
                stones@,
                i + 1,
                l,
            )) by {
                assert(before[l.cell()] == (cells@[l.cell()] is None && touched(
                    stones@,
                    i as int,
                    l,
                )));
                if touched(stones@, i as int, l) {
                    let j = choose|j: int| 0 <= j < i && adjacent(#[trigger] stones@[j], l);
                    assert(adjacent(stones@[j], l));
                }
                if adjacent(s, l) {
                    assert(adjacent(stones@[i as int], l));
                }
            }
        }
        i += 1;
    }
    let r = read_out(&marks, None);
    proof {
        let a = |q: Point| (q.on_board() && marks@[q.cell()]) || None::<Point> == Some(q);
        let b = |l: Point|
            cells@[l.cell()] is None && exists|s: Point| #[trigger]
                stones@.contains(s) && adjacent(s, l);
        assert forall|q: Point| q.row < SIZE && q.col < AREA implies #[trigger] a(q) == b(q) by {
            if a(q) {
                let j = choose|j: int| 0 <= j < stones@.len() && adjacent(#[trigger] stones@[j], q);
                assert(stones@.contains(stones@[j]));
            }
            if b(q) {
                let s = choose|s: Point| #[trigger] stones@.contains(s) && adjacent(s, q);
                let j = choose|j: int| 0 <= j < stones@.len() && stones@[j] == s;
                assert(adjacent(stones@[j], q));
                assert(touched(stones@, stones@.len() as int, q));
                assert(marks@[q.cell()]);
            }
        }
        lemma_listing_same(a, b, POSITIONS as nat);
    }
    r
}

} // verus!

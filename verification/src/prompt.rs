//! Rendering the model's view of the game.
//!
//! Two shapes matter. The **fat block** is the full board plus everything the
//! model reads badly off a grid (liberties, atari, ko), computed here so it
//! never has to derive them. The **thin stub** is what that block collapses to
//! once it has been answered.
//!
//! Both are pure functions of the game. Nothing is ever edited incrementally,
//! which is what keeps the model's view from drifting away from the board.

use vstd::prelude::*;
use vstd::utf8::encode_utf8;

use crate::board::{
    connected, lemma_connected_holds, lemma_listing_upto, liberty, AREA, POSITIONS,
};
use crate::coords::{color_text, move_text, point_text};
use crate::goban::{Color, Game, Group, Move, MoveRecord, Point, SIZE};
use crate::order::{sort_texts, sorted_texts};
use crate::render::{board_text, law_points_are_drawn_where_they_are_labeled};
use crate::rules::{group_heads, group_of, groups_of, heads_group, GameState, GroupView};
use crate::text::{
    chars_of, decimal, is_digit, join, join_texts, lemma_decimal_digits, lemma_texts_push,
    push_decimal, text_of, texts,
};

verus! {

/// What the model is told before the game.
pub const SYSTEM_PROMPT: &'static str = "You are playing Go on a 19x19 board against a human opponent.\n\nThe board is shown with columns A-T (the letter I is skipped, so there are 19 columns) and rows 1-19 numbered from the bottom. `X` is a Black stone, `O` is a White stone, `+` is an empty star point, `.` is an empty intersection.\n\nTrust the analysis section over your own reading of the grid. Liberty counts, atari, and the ko point are computed for you and are authoritative. Do not recount them off the ASCII board.\n\nThe referee owns the rules. If you propose an illegal move you will get a tool error explaining why; read it and choose a different point. Do not argue with the referee.\n\nPlay the whole board. Open in the corners, extend along the sides, and only fight when you have a reason to. Keep your groups connected and out of atari.";

/// Two-tier scratchpad. Strategy is durable; tactics expire on their own terms
/// and are meant to be overwritten every few moves.
#[derive(Debug, Clone)]
pub struct Notes {
    pub strategy: String,
    pub tactics: String,
}

/// What the scratchpad holds.
#[verifier::ext_equal]
pub struct NotesView {
    pub strategy: Seq<char>,
    pub tactics: Seq<char>,
}

impl View for Notes {
    type V = NotesView;

    open spec fn view(&self) -> NotesView {
        NotesView { strategy: self.strategy@, tactics: self.tactics@ }
    }
}

impl Default for Notes {
    fn default() -> (n: Notes)
        ensures
            n@ == (NotesView { strategy: Seq::empty(), tactics: Seq::empty() }),
    {
        Notes { strategy: String::new(), tactics: String::new() }
    }
}

/// The text if it has at most `cap` characters; otherwise its first `cap`
/// characters and an ellipsis.
pub open spec fn truncated(s: Seq<char>, cap: int) -> Seq<char> {
    if s.len() <= cap {
        s
    } else {
        s.take(cap).push('…')
    }
}

/// Keep a text within `cap` characters, not counting the ellipsis.
pub fn truncate(s: &str, cap: usize) -> (r: String)
    ensures
        r@ == truncated(s@, cap as int),
{
    let chars = chars_of(s);
    if chars.len() <= cap {
        return s.to_owned();
    }
    let mut r = text_of(&chars, 0, cap);
    r.push('…');
    assert(r@ =~= s@.take(cap as int).push('…'));
    r
}

/// A text that fits is kept whole; one that does not keeps its first `cap`
/// characters, and an ellipsis ends it.
pub proof fn law_notes_are_capped(s: Seq<char>, cap: nat)
    ensures
        truncated(s, cap as int).len() <= cap + 1,
        s.len() <= cap ==> truncated(s, cap as int) == s,
        s.len() > cap ==> {
            &&& truncated(s, cap as int).len() == cap + 1
            &&& truncated(s, cap as int).last() == '…'
            &&& truncated(s, cap as int).drop_last().is_prefix_of(s)
        },
{
    if s.len() > cap {
        assert(truncated(s, cap as int).drop_last() =~= s.take(cap as int));
    }
}

/// A tier of the scratchpad as it is shown.
pub open spec fn tier_text(s: Seq<char>) -> Seq<char> {
    if s.len() == 0 {
        "(none yet)"@
    } else {
        s
    }
}

/// The scratchpad as the model reads it.
pub open spec fn notes_text(n: NotesView) -> Seq<char> {
    "  strategy: "@ + tier_text(n.strategy) + "\n  tactics:  "@ + tier_text(n.tactics)
}

impl Notes {
    /// Roughly 500 tokens in all, enforced in characters so it cannot creep.
    pub const STRATEGY_CAP: usize = 1200;

    pub const TACTICS_CAP: usize = 800;

    /// Rewrite the durable tier.
    pub fn set_strategy(&mut self, s: &str)
        ensures
            final(self)@ == (NotesView {
                strategy: truncated(s@, Notes::STRATEGY_CAP as int),
                ..old(self)@
            }),
    {
        self.strategy = truncate(s, Self::STRATEGY_CAP);
    }

    /// Rewrite the tier that is replaced often.
    pub fn set_tactics(&mut self, s: &str)
        ensures
            final(self)@ == (NotesView {
                tactics: truncated(s@, Notes::TACTICS_CAP as int),
                ..old(self)@
            }),
    {
        self.tactics = truncate(s, Self::TACTICS_CAP);
    }

    /// The scratchpad as the model reads it.
    pub fn render(&self) -> (r: String)
        ensures
            r@ == notes_text(self@),
    {
        let mut r = "  strategy: ".to_owned();
        if self.strategy.as_str().is_empty() {
            r.append("(none yet)");
        } else {
            r.append(self.strategy.as_str());
        }
        r.append("\n  tactics:  ");
        if self.tactics.as_str().is_empty() {
            r.append("(none yet)");
        } else {
            r.append(self.tactics.as_str());
        }
        r
    }
}

// ---------------------------------------------------------------------------
// Groups
// ---------------------------------------------------------------------------

/// How a stone is drawn.
pub open spec fn stone_text(c: Color) -> Seq<char> {
    match c {
        Color::Black => "X"@,
        Color::White => "O"@,
    }
}

fn stone_char(c: Color) -> (r: &'static str)
    ensures
        r@ == stone_text(c),
{
    match c {
        Color::Black => "X",
        Color::White => "O",
    }
}

/// `p` comes before `q`: it lies higher, or as high and further left.
pub open spec fn before(p: Point, q: Point) -> bool {
    p.row < q.row || (p.row == q.row && p.col < q.col)
}

/// The point that comes before all others.
pub open spec fn least(points: Seq<Point>) -> Point
    decreases points.len(),
{
    if points.len() <= 1 {
        points[0]
    } else if before(points.last(), least(points.drop_last())) {
        points.last()
    } else {
        least(points.drop_last())
    }
}

/// All of the points have names.
pub open spec fn all_nameable(points: Seq<Point>) -> bool {
    forall|i: int| 0 <= i < points.len() ==> (#[trigger] points[i]).nameable()
}

/// A group is named by its least stone.
pub open spec fn anchor_text(g: GroupView) -> Seq<char> {
    if g.stones.len() == 0 {
        Seq::empty()
    } else {
        point_text(least(g.stones))
    }
}

/// Name a group by a stable representative stone.
fn anchor(g: &Group) -> (r: String)
    requires
        all_nameable(g@.stones),
    ensures
        r@ == anchor_text(g@),
{
    if g.stones.is_empty() {
        return String::new();
    }
    let mut best = g.stones[0];
    let mut i: usize = 1;
    let ghost stones = g.stones@;
    while i < g.stones.len()
        invariant
            stones == g.stones@,
            all_nameable(stones),
            1 <= i <= stones.len(),
            best == least(stones.take(i as int)),
            best.nameable(),
        decreases stones.len() - i,
    {
        let p = g.stones[i];
        assert(stones.take(i + 1).drop_last() =~= stones.take(i as int));
        if p.row < best.row || (p.row == best.row && p.col < best.col) {
            best = p;
        }
        i += 1;
    }
    assert(stones.take(i as int) =~= stones);
    best.to_string()
}

/// The names of the points.
pub open spec fn point_texts(points: Seq<Point>) -> Seq<Seq<char>> {
    Seq::new(points.len(), |i: int| point_text(points[i]))
}

/// One group, tagged yours or theirs: the distinction the model most often
/// gets backwards when left to read it off the grid.
pub open spec fn group_text(g: GroupView, me: Color) -> Seq<char> {
    anchor_text(g) + " ("@ + (if g.color == me {
        "yours"@
    } else {
        "theirs"@
    }) + ", "@ + decimal(g.stones.len()) + " stone"@ + (if g.stones.len() == 1 {
        ""@
    } else {
        "s"@
    }) + ", liberties: "@ + join(point_texts(g.liberties), ","@) + ")"@
}

fn describe_group(g: &Group, me: Color) -> (r: String)
    requires
        all_nameable(g@.stones),
        all_nameable(g@.liberties),
    ensures
        r@ == group_text(g@, me),
{
    let mut names: Vec<String> = Vec::new();
    let mut i: usize = 0;
    while i < g.liberties.len()
        invariant
            all_nameable(g@.liberties),
            i <= g.liberties@.len(),
            texts(names@) == point_texts(g@.liberties).take(i as int),
        decreases g.liberties@.len() - i,
    {
        let name = g.liberties[i].to_string();
        proof {
            lemma_texts_push(names@, name);
        }
        names.push(name);
        i += 1;
        assert(texts(names@) =~= point_texts(g@.liberties).take(i as int));
    }
    assert(texts(names@) =~= point_texts(g@.liberties));
    let mut r = anchor(g);
    r.append(" (");
    r.append(if g.color == me { "yours" } else { "theirs" });
    r.append(", ");
    push_decimal(&mut r, g.stones.len() as u64);
    r.append(" stone");
    r.append(if g.stones.len() == 1 { "" } else { "s" });
    r.append(", liberties: ");
    r.append(join_texts(&names, ",").as_str());
    r.append(")");
    r
}

/// The groups with `n` liberties.
pub open spec fn with_liberties(n: nat) -> spec_fn(GroupView) -> bool {
    |g: GroupView| g.liberties.len() == n
}

/// What is said of each group.
pub open spec fn group_texts(groups: Seq<GroupView>, me: Color) -> Seq<Seq<char>> {
    Seq::new(groups.len(), |i: int| group_text(groups[i], me))
}

/// The groups with `n` liberties, in dictionary order.
pub open spec fn group_list(groups: Seq<GroupView>, n: nat, me: Color) -> Seq<char> {
    let listed = groups.filter(with_liberties(n));
    if listed.len() == 0 {
        "none"@
    } else {
        join(sorted_texts(group_texts(listed, me)), "; "@)
    }
}

/// What the groups are.
pub open spec fn group_views(groups: Seq<Group>) -> Seq<GroupView> {
    Seq::new(groups.len(), |i: int| groups[i]@)
}

/// The groups consist of points that have names.
pub open spec fn groups_nameable(groups: Seq<GroupView>) -> bool {
    forall|i: int|
        0 <= i < groups.len() ==> all_nameable((#[trigger] groups[i]).stones) && all_nameable(
            groups[i].liberties,
        )
}

/// The groups with `n` liberties, tagged yours or theirs.
fn list_groups(groups: &Vec<Group>, n: usize, me: Color) -> (r: String)
    requires
        groups_nameable(group_views(groups@)),
    ensures
        r@ == group_list(group_views(groups@), n as nat, me),
{
    let ghost views = group_views(groups@);
    let ghost wanted = with_liberties(n as nat);
    let mut items: Vec<String> = Vec::new();
    let mut i: usize = 0;
    proof {
        reveal(Seq::filter);
        assert(texts(items@) =~= group_texts(views.take(0).filter(wanted), me));
    }
    while i < groups.len()
        invariant
            views == group_views(groups@),
            groups_nameable(views),
            wanted == with_liberties(n as nat),
            i <= groups@.len(),
            texts(items@) == group_texts(views.take(i as int).filter(wanted), me),
        decreases groups@.len() - i,
    {
        let g = &groups[i];
        assert(g@ == views[i as int]);
        assert(views.take(i + 1).drop_last() =~= views.take(i as int));
        proof {
            reveal(Seq::filter);
        }
        if g.liberties.len() == n {
            let item = describe_group(g, me);
            proof {
                lemma_texts_push(items@, item);
            }
            items.push(item);
            assert(texts(items@) =~= group_texts(views.take(i + 1).filter(wanted), me));
        }
        i += 1;
    }
    assert(views.take(i as int) =~= views);
    assert(texts(items@).len() == items@.len());
    if items.is_empty() {
        return "none".to_owned();
    }
    let sorted = sort_texts(items);
    join_texts(&sorted, "; ")
}

// ---------------------------------------------------------------------------
// Moves
// ---------------------------------------------------------------------------

/// How many stones a move took, if it took any.
pub open spec fn captured_note(n: nat) -> Seq<char> {
    if n > 0 {
        " (captured "@ + decimal(n) + ")"@
    } else {
        Seq::empty()
    }
}

/// One move, such as `7. Black D3 (captured 1)`.
pub open spec fn record_text(r: MoveRecord) -> Seq<char> {
    decimal(r.number as nat) + ". "@ + color_text(r.color) + " "@ + move_text(r.mv)
        + captured_note(r.captured as nat)
}

/// What is said of each move.
pub open spec fn record_texts(history: Seq<MoveRecord>) -> Seq<Seq<char>> {
    Seq::new(history.len(), |i: int| record_text(history[i]))
}

/// The last `n` elements, or all if there are fewer.
pub open spec fn tail(history: Seq<MoveRecord>, n: nat) -> Seq<MoveRecord> {
    if history.len() <= n {
        history
    } else {
        history.skip(history.len() - n)
    }
}

/// The last `n` moves.
pub open spec fn recent_text(history: Seq<MoveRecord>, n: nat) -> Seq<char> {
    if history.len() == 0 {
        "none (empty board)"@
    } else {
        join(record_texts(tail(history, n)), ", "@)
    }
}

/// The moves can be written down.
pub open spec fn moves_nameable(history: Seq<MoveRecord>) -> bool {
    forall|i: int| 0 <= i < history.len() ==> (#[trigger] history[i]).mv.nameable()
}

fn describe_record(r: &MoveRecord) -> (out: String)
    requires
        r.mv.nameable(),
    ensures
        out@ == record_text(*r),
{
    let mut out = String::new();
    push_decimal(&mut out, r.number as u64);
    assert(out@ =~= decimal(r.number as nat));
    out.append(". ");
    out.append(r.color.name());
    out.append(" ");
    out.append(r.mv.to_string().as_str());
    let mut note = String::new();
    if r.captured > 0 {
        note.append(" (captured ");
        assert(note@ =~= " (captured "@);
        push_decimal(&mut note, r.captured as u64);
        note.append(")");
    }
    out.append(note.as_str());
    out
}

/// The last `n` moves of the game.
pub fn recent_moves(game: &Game, n: usize) -> (r: String)
    requires
        moves_nameable(tail(game@.history, n as nat)),
    ensures
        r@ == recent_text(game@.history, n as nat),
{
    let hist = game.history();
    if hist.len() == 0 {
        return "none (empty board)".to_owned();
    }
    let start: usize = if hist.len() > n {
        hist.len() - n
    } else {
        0
    };
    let ghost shown = tail(game@.history, n as nat);
    let mut items: Vec<String> = Vec::new();
    let mut i: usize = start;
    assert(texts(items@) =~= record_texts(shown).take(0));
    while i < hist.len()
        invariant
            start <= i <= hist@.len(),
            shown == hist@.skip(start as int),
            moves_nameable(shown),
            texts(items@) == record_texts(shown).take(i - start),
        decreases hist@.len() - i,
    {
        assert(shown[i - start] == hist@[i as int]);
        let item = describe_record(&hist[i]);
        proof {
            lemma_texts_push(items@, item);
        }
        items.push(item);
        i += 1;
        assert(texts(items@) =~= record_texts(shown).take(i - start));
    }
    assert(texts(items@) =~= record_texts(shown));
    join_texts(&items, ", ")
}

// ---------------------------------------------------------------------------
// The two blocks
// ---------------------------------------------------------------------------

/// The ko point by its name, if there is one.
pub open spec fn ko_text(ko: Option<Point>) -> Seq<char> {
    match ko {
        Some(p) => point_text(p),
        None => "none"@,
    }
}

/// The full board and the analysis of it, as the player of `me` reads it.
pub open spec fn fat_text(s: GameState, me: Color, notes: NotesView) -> Seq<char> {
    let groups = groups_of(s.cells);
    board_text(s.cells) + "\n\n--- position analysis (authoritative) ---\nMove number: "@ + decimal(
        s.history.len() + 1,
    ) + "\nYou are "@ + color_text(me) + " ("@ + stone_text(me)
        + ").\nGroups in atari (1 liberty): "@ + group_list(groups, 1, me)
        + "\nGroups at 2 liberties:       "@ + group_list(groups, 2, me)
        + "\nKo point (illegal this turn): "@ + ko_text(s.ko) + "\nCaptures so far: Black "@
        + decimal(s.captures(Color::Black) as nat) + ", White "@ + decimal(
        s.captures(Color::White) as nat,
    ) + "\nRecent moves: "@ + recent_text(s.history, 6) + "\n\nYour scratchpad:\n"@ + notes_text(
        notes,
    ) + "\n\nYou are "@ + color_text(me)
        + " and it is your turn. Call play_move with your chosen point."@
}

/// What a fat block collapses to once it is answered.
pub open spec fn thin_text(number: nat, own: Move, reply: Option<Move>) -> Seq<char> {
    let played = "Move "@ + decimal(number) + " — you played "@ + move_text(own);
    match reply {
        Some(r) => played + ". Opponent replied "@ + move_text(r) + "."@,
        None => played + "."@,
    }
}

/// The groups on the board consist of points that have names.
proof fn lemma_groups_nameable(s: GameState)
    requires
        s.cells.len() == AREA,
    ensures
        groups_nameable(groups_of(s.cells)),
{
    let cells = s.cells;
    let heads = group_heads(cells);
    let groups = groups_of(cells);
    lemma_listing_upto(|p: Point| heads_group(cells, p), POSITIONS as nat);
    assert forall|i: int| 0 <= i < groups.len() implies all_nameable((#[trigger] groups[i]).stones)
        && all_nameable(groups[i].liberties) by {
        let p = heads[i];
        assert(heads.contains(p));
        assert(heads_group(cells, p));
        let g = group_of(cells, p);
        assert(groups[i] == g);
        lemma_listing_upto(|q: Point| connected(cells, p, q), POSITIONS as nat);
        lemma_listing_upto(|l: Point| liberty(cells, p, l), POSITIONS as nat);
        assert forall|k: int| 0 <= k < g.stones.len() implies (
        #[trigger] g.stones[k]).nameable() by {
            assert(g.stones.contains(g.stones[k]));
            lemma_connected_holds(cells, p, g.stones[k]);
        }
        assert forall|k: int| 0 <= k < g.liberties.len() implies (
        #[trigger] g.liberties[k]).nameable() by {
            assert(g.liberties.contains(g.liberties[k]));
            assert(liberty(cells, p, g.liberties[k]));
        }
    }
}

/// Everything the model needs to choose a move.
pub fn fat_state_block(game: &Game, me: Color, notes: &Notes) -> (r: String)
    requires
        game.wf(),
        game@.history.len() < u32::MAX,
        moves_nameable(tail(game@.history, 6)),
    ensures
        r@ == fat_text(game@, me, notes@),
{
    let groups = game.groups();
    proof {
        lemma_groups_nameable(game@);
        assert(group_views(groups@) =~= groups_of(game@.cells));
        assert(game@.captures(Color::Black) >= 0 && game@.captures(Color::White) >= 0);
    }
    let mut s = game.render_board();
    s.append("\n\n--- position analysis (authoritative) ---\nMove number: ");
    push_decimal(&mut s, game.move_number() as u64);
    s.append("\nYou are ");
    s.append(me.name());
    s.append(" (");
    s.append(stone_char(me));
    s.append(").\nGroups in atari (1 liberty): ");
    s.append(list_groups(&groups, 1, me).as_str());
    s.append("\nGroups at 2 liberties:       ");
    s.append(list_groups(&groups, 2, me).as_str());
    s.append("\nKo point (illegal this turn): ");
    let ko = match game.ko_point() {
        Some(p) => p.to_string(),
        None => "none".to_owned(),
    };
    s.append(ko.as_str());
    s.append("\nCaptures so far: Black ");
    push_decimal(&mut s, game.captures(Color::Black) as u64);
    s.append(", White ");
    push_decimal(&mut s, game.captures(Color::White) as u64);
    s.append("\nRecent moves: ");
    s.append(recent_moves(game, 6).as_str());
    s.append("\n\nYour scratchpad:\n");
    s.append(notes.render().as_str());
    s.append("\n\nYou are ");
    s.append(me.name());
    s.append(" and it is your turn. Call play_move with your chosen point.");
    s
}

/// What a fat block collapses to once it is answered, such as
/// `Move 47 — you played Q3. Opponent replied R4.`
pub fn thin_stub(number: u32, own: Move, reply: Option<Move>) -> (r: String)
    requires
        own.nameable(),
        reply matches Some(m) ==> m.nameable(),
    ensures
        r@ == thin_text(number as nat, own, reply),
{
    let mut s = "Move ".to_owned();
    push_decimal(&mut s, number as u64);
    s.append(" — you played ");
    s.append(own.to_string().as_str());
    match reply {
        Some(m) => {
            s.append(". Opponent replied ");
            s.append(m.to_string().as_str());
            s.append(".");
        },
        None => {
            s.append(".");
        },
    }
    s
}

// ---------------------------------------------------------------------------
// Sizes
// ---------------------------------------------------------------------------

/// How many bytes the text takes.
pub open spec fn bytes(s: Seq<char>) -> nat {
    encode_utf8(s).len()
}

/// The bytes of two texts add up.
proof fn lemma_bytes_add(a: Seq<char>, b: Seq<char>)
    ensures
        bytes(a + b) == bytes(a) + bytes(b),
    decreases a.len(),
{
    if a.len() == 0 {
        assert(a + b =~= b);
    } else {
        assert((a + b).drop_first() =~= a.drop_first() + b);
        lemma_bytes_add(a.drop_first(), b);
    }
}

/// Every character takes a byte at least, and four at most.
proof fn lemma_bytes_bounds(s: Seq<char>)
    ensures
        s.len() <= bytes(s) <= 4 * s.len(),
    decreases s.len(),
{
    if s.len() > 0 {
        lemma_bytes_bounds(s.drop_first());
    }
}

/// An ASCII text takes one byte for each character.
proof fn lemma_bytes_ascii(s: Seq<char>)
    requires
        forall|i: int| 0 <= i < s.len() ==> (#[trigger] s[i] as u32) < 0x80,
    ensures
        bytes(s) == s.len(),
    decreases s.len(),
{
    if s.len() > 0 {
        assert((s[0] as u32) < 0x80);
        assert forall|i: int| 0 <= i < s.drop_first().len() implies (
        #[trigger] s.drop_first()[i] as u32) < 0x80 by {
            assert(s.drop_first()[i] == s[i + 1]);
        }
        lemma_bytes_ascii(s.drop_first());
    }
}

proof fn lemma_decimal_len(n: nat)
    ensures
        n < 100 ==> decimal(n).len() <= 2,
        n <= u32::MAX ==> decimal(n).len() <= 10,
{
    reveal_with_fuel(decimal, 10);
}

proof fn lemma_move_text_bytes(mv: Move)
    requires
        mv.nameable(),
    ensures
        bytes(move_text(mv)) <= 4,
{
    match mv {
        Move::Pass => {
            reveal_strlit("pass");
            lemma_bytes_ascii("pass"@);
        },
        Move::Play(p) => {
            let n = (SIZE - p.row) as nat;
            lemma_decimal_len(n);
            lemma_decimal_digits(n);
            let t = point_text(p);
            assert forall|i: int| 0 <= i < t.len() implies (#[trigger] t[i] as u32) < 0x80 by {
                if i > 0 {
                    assert(t[i] == decimal(n)[i - 1]);
                    assert(is_digit(decimal(n)[i - 1]));
                }
            }
            lemma_bytes_ascii(t);
        },
    }
}

/// The fat block takes more than 900 bytes, and the stub it collapses to less
/// than 80.
#[verifier::rlimit(40)]
pub proof fn law_stub_is_far_smaller(
    s: GameState,
    me: Color,
    notes: NotesView,
    number: u32,
    own: Move,
    reply: Option<Move>,
)
    requires
        s.cells.len() == AREA,
        own.nameable(),
        reply matches Some(m) ==> m.nameable(),
    ensures
        bytes(fat_text(s, me, notes)) > 900,
        bytes(thin_text(number as nat, own, reply)) < 80,
{
    law_points_are_drawn_where_they_are_labeled(s.cells, Point { row: 0, col: 0 });
    assert(fat_text(s, me, notes).len() >= board_text(s.cells).len());
    lemma_bytes_bounds(fat_text(s, me, notes));

    let n = decimal(number as nat);
    lemma_decimal_len(number as nat);
    lemma_decimal_digits(number as nat);
    assert forall|i: int| 0 <= i < n.len() implies (#[trigger] n[i] as u32) < 0x80 by {
        assert(is_digit(n[i]));
    }
    lemma_bytes_ascii(n);
    reveal_strlit("Move ");
    reveal_strlit(" — you played ");
    reveal_strlit(". Opponent replied ");
    reveal_strlit(".");
    lemma_bytes_ascii("Move "@);
    let dash = " — you played "@.take(2);
    let rest = " — you played "@.skip(2);
    assert(" — you played "@ =~= dash + rest);
    lemma_bytes_add(dash, rest);
    lemma_bytes_bounds(dash);
    lemma_bytes_ascii(rest);
    lemma_bytes_ascii(". Opponent replied "@);
    lemma_bytes_ascii("."@);
    lemma_move_text_bytes(own);
    lemma_bytes_add("Move "@, n);
    lemma_bytes_add("Move "@ + n, " — you played "@);
    lemma_bytes_add("Move "@ + n + " — you played "@, move_text(own));
    let played = "Move "@ + n + " — you played "@ + move_text(own);
    match reply {
        Some(m) => {
            lemma_move_text_bytes(m);
            lemma_bytes_add(played, ". Opponent replied "@);
            lemma_bytes_add(played + ". Opponent replied "@, move_text(m));
            lemma_bytes_add(played + ". Opponent replied "@ + move_text(m), "."@);
        },
        None => {
            lemma_bytes_add(played, "."@);
        },
    }
}

/// The fat block opens with the board.
pub proof fn law_the_fat_block_opens_with_the_board(s: GameState, me: Color, notes: NotesView)
    ensures
        board_text(s.cells).is_prefix_of(fat_text(s, me, notes)),
{
    let board = board_text(s.cells);
    let text = fat_text(s, me, notes);
    assert(text.len() >= board.len());
    assert(board =~= text.take(board.len() as int));
}

/// The groups that the list for `n` liberties is made of are all those that
/// have as many.
pub proof fn law_every_group_in_danger_is_listed(groups: Seq<GroupView>, n: nat, g: GroupView)
    ensures
        groups.filter(with_liberties(n)).contains(g) <==> groups.contains(g) && g.liberties.len()
            == n,
    decreases groups.len(),
{
    reveal(Seq::filter);
    let kept = groups.filter(with_liberties(n));
    if groups.len() > 0 {
        let rest = groups.drop_last();
        let fewer = rest.filter(with_liberties(n));
        law_every_group_in_danger_is_listed(rest, n, g);
        assert(groups =~= rest.push(groups.last()));
        if groups.contains(g) && g != groups.last() {
            let i = choose|i: int| 0 <= i < groups.len() && groups[i] == g;
            assert(rest[i] == g);
        }
        if rest.contains(g) {
            let i = choose|i: int| 0 <= i < rest.len() && rest[i] == g;
            assert(groups[i] == g);
        }
        if with_liberties(n)(groups.last()) {
            assert(kept =~= fewer.push(groups.last()));
            if fewer.contains(g) {
                let i = choose|i: int| 0 <= i < fewer.len() && fewer[i] == g;
                assert(kept[i] == g);
            }
            if kept.contains(g) && g != groups.last() {
                let i = choose|i: int| 0 <= i < kept.len() && kept[i] == g;
                assert(fewer[i] == g);
            }
            assert(kept[fewer.len() as int] == groups.last());
        }
        assert(groups[groups.len() - 1] == groups.last());
    }
}

} // verus!

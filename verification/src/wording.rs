//! What the texts tell of the game.

use vstd::prelude::*;

use crate::agent::AgentView;
use crate::board::{Cells, AREA};
use crate::coords::{color_text, column, column_letter, move_text, parse_text, point_text};
use crate::goban::{Color, Move, MoveRecord, Point};
use crate::order::{in_order, law_sorting, sorted_texts};
use crate::prompt::{
    anchor_text, before, fat_text, group_list, group_text, group_texts, ko_text,
    law_every_group_in_danger_is_listed, law_the_fat_block_opens_with_the_board, least, notes_text,
    point_texts, recent_text, record_text, record_texts, tail, thin_text, with_liberties,
    NotesView,
};
use crate::render::{board_text, label, law_points_are_drawn_where_they_are_labeled};
use crate::rules::{groups_of, GameState, GroupView};
use crate::text::{
    decimal, holds, join, law_a_joined_text_holds_its_parts, law_joining, lemma_holds_end,
    lemma_holds_four, lemma_holds_more, lemma_holds_pieces, read_number, trimmed, upper, NumberError,
};

verus! {

// ---------------------------------------------------------------------------
// Names
// ---------------------------------------------------------------------------

/// The columns run from A to T in the order of the alphabet and skip the I.
pub proof fn law_column_letters(a: int, b: int)
    requires
        0 <= a < 19,
        0 <= b < 19,
    ensures
        column_letter(0) == 'A',
        column_letter(18) == 'T',
        column_letter(a) != 'I',
        a < b ==> column_letter(a) < column_letter(b),
        column(column_letter(a)) == Some(a),
{
}

/// Only the name of a point parses: its column letter and its row counted from
/// the bottom, in either case and with white space around it.
pub proof fn law_only_names_parse(s: Seq<char>, p: Point)
    requires
        parse_text(s) == Ok::<Point, Seq<char>>(p),
    ensures
        ({
            let t = upper(trimmed(s));
            &&& t.len() > 1
            &&& t[0] == column_letter(p.col as int)
            &&& read_number(t.drop_first(), usize::MAX as nat) == Ok::<
                nat,
                NumberError,
            >((19 - p.row) as nat)
        }),
{
    let t = upper(trimmed(s));
    if t.len() == 1 {
        assert(t.drop_first() =~= Seq::<char>::empty());
    }
}

/// The letters of the columns, from the left.
pub open spec fn columns() -> Seq<char> {
    seq![
        'A', 'B', 'C', 'D', 'E', 'F', 'G', 'H', 'J', 'K', 'L', 'M', 'N', 'O', 'P', 'Q', 'R', 'S',
        'T',
    ]
}

/// What is said of a text that names no point: that it is empty, that its first
/// letter names no column, that what follows is no number, or that no row has
/// that number. A text with none of these faults names the point in that column,
/// as many rows from the bottom.
pub proof fn law_why_a_name_is_refused(s: Seq<char>)
    ensures
        ({
            let t = upper(trimmed(s));
            let number = read_number(t.drop_first(), usize::MAX as nat);
            &&& t.len() == 0 ==> parse_text(s) == Err::<Point, Seq<char>>("empty coordinate"@)
            &&& t.len() > 0 && !columns().contains(t[0]) ==> (parse_text(s) matches Err(e)
                && "bad column '"@.is_prefix_of(e) && "' (use A-T, no I)"@.is_suffix_of(e) && e.len()
                == "bad column '"@.len() + 1 + "' (use A-T, no I)"@.len() && ((t[0] as u32) < 128
                ==> e["bad column '"@.len() as int] == t[0]))
            &&& t.len() > 0 && columns().contains(t[0]) && number is Err ==> parse_text(s) == Err::<
                Point,
                Seq<char>,
            >("bad row in '"@ + t + "' (use 1-19)"@)
            &&& t.len() > 0 && columns().contains(t[0]) ==> (number matches Ok(n) ==> if 1 <= n
                <= 19 {
                parse_text(s) matches Ok(p) && p.row == 19 - n && columns()[p.col as int] == t[0]
            } else {
                parse_text(s) == Err::<Point, Seq<char>>(
                    "row "@ + decimal(n) + " is off the board (use 1-19)"@,
                )
            })
        }),
{
    let t = upper(trimmed(s));
    if t.len() > 0 {
        let c = t[0];
        if column(c) is Some {
            let k = column(c)->0;
            assert(columns()[k] == c);
            assert(columns().contains(c));
        } else {
            assert(!columns().contains(c)) by {
                if columns().contains(c) {
                    let i = choose|i: int| 0 <= i < columns().len() && columns()[i] == c;
                    assert(columns()[i] == c);
                }
            }
            if let Err(e) = parse_text(s) {
                let head = "bad column '"@;
                let end = "' (use A-T, no I)"@;
                assert(e.take(head.len() as int) =~= head);
                assert(e.subrange(e.len() - end.len(), e.len() as int) =~= end);
                let n = c as u32;
                assert(n < 128 ==> (n & 0x7f) as u8 == n) by (bit_vector);
            }
        }
    }
}

/// A point is named by the letter of its column and the number of its row, counted
/// from the bottom; a move by its point, or as a pass.
pub proof fn law_names_of_moves(mv: Move)
    ensures
        mv matches Move::Play(p) ==> point_text(p) == seq![column_letter(p.col as int)] + decimal(
            (19 - p.row) as nat,
        ),
        mv matches Move::Play(p) ==> move_text(mv) == seq![column_letter(p.col as int)] + decimal(
            (19 - p.row) as nat,
        ),
        mv is Pass ==> move_text(mv) == "pass"@,
        color_text(Color::Black) == "Black"@,
        color_text(Color::White) == "White"@,
{
}

// ---------------------------------------------------------------------------
// The board
// ---------------------------------------------------------------------------

/// The board is drawn so that every stone can be read off it: a cross for Black,
/// a circle for White, a plus for an empty star point, a dot for any other. Above
/// it stands the letter of the column, and before it the number of the row.
pub proof fn law_the_board_reads_back(cells: Cells, p: Point)
    requires
        cells.len() == AREA,
        p.on_board(),
    ensures
        ({
            let drawn = board_text(cells)[44 + 44 * p.row + 2 * p.col];
            let star = (p.row == 3 || p.row == 9 || p.row == 15) && (p.col == 3 || p.col == 9
                || p.col == 15);
            &&& drawn == 'X' <==> cells[p.cell()] == Some(Color::Black)
            &&& drawn == 'O' <==> cells[p.cell()] == Some(Color::White)
            &&& drawn == '+' <==> cells[p.cell()] is None && star
            &&& drawn == '.' <==> cells[p.cell()] is None && !star
        }),
        board_text(cells)[3 + 2 * p.col] == columns()[p.col as int],
        board_text(cells)[41 + 44 * p.row] == (if p.row <= 9 {
            '1'
        } else {
            ' '
        }),
        board_text(cells)[42 + 44 * p.row] as int == 48 + (19 - p.row) % 10,
{
    law_points_are_drawn_where_they_are_labeled(cells, p);
    let n = (19 - p.row) as nat;
    let at = 41 + 44 * p.row;
    assert(label(n)[0] == board_text(cells).subrange(at, at + 2)[0]);
    assert(label(n)[1] == board_text(cells).subrange(at, at + 2)[1]);
    reveal_with_fuel(decimal, 2);
}

// ---------------------------------------------------------------------------
// Groups
// ---------------------------------------------------------------------------

proof fn lemma_least(points: Seq<Point>)
    requires
        points.len() > 0,
    ensures
        points.contains(least(points)),
        forall|i: int| 0 <= i < points.len() ==> !before(#[trigger] points[i], least(points)),
    decreases points.len(),
{
    if points.len() > 1 {
        let rest = points.drop_last();
        lemma_least(rest);
        let k = choose|k: int| 0 <= k < rest.len() && rest[k] == least(rest);
        assert(points[k] == least(rest));
        assert(points[points.len() - 1] == points.last());
        assert forall|i: int| 0 <= i < points.len() implies !before(
            #[trigger] points[i],
            least(points),
        ) by {
            if i < rest.len() {
                assert(rest[i] == points[i]);
            }
        }
    } else {
        assert(points[0] == least(points));
    }
}

/// A group is named by one of its stones: none lies higher, and none as high
/// lies further left.
pub proof fn law_a_group_is_named_by_its_first_stone(g: GroupView)
    requires
        g.stones.len() > 0,
    ensures
        exists|p: Point| #[trigger]
            g.stones.contains(p) && anchor_text(g) == point_text(p) && forall|q: Point| #[trigger]
                g.stones.contains(q) ==> p.row < q.row || (p.row == q.row && p.col <= q.col),
{
    lemma_least(g.stones);
    let p = least(g.stones);
    assert forall|q: Point| #[trigger] g.stones.contains(q) implies p.row < q.row || (p.row == q.row
        && p.col <= q.col) by {
        let i = choose|i: int| 0 <= i < g.stones.len() && g.stones[i] == q;
        assert(!before(g.stones[i], p));
    }
    assert(g.stones.contains(p));
}

/// What is said of a group tells whose it is: behind the name of the group
/// stands `(yours, ` exactly if it has the reader's color, and `(theirs, `
/// exactly if it has not, so that the two readers are told differently.
#[verifier::spinoff_prover]
pub proof fn law_ownership_is_told(g: GroupView, me: Color)
    ensures
        (anchor_text(g) + " (yours, "@).is_prefix_of(group_text(g, me)) <==> g.color == me,
        (anchor_text(g) + " (theirs, "@).is_prefix_of(group_text(g, me)) <==> g.color != me,
        group_text(g, me) != group_text(g, me.rival()),
{
    let name = anchor_text(g);
    let n = name.len() as int;
    reveal_strlit(" (yours, ");
    reveal_strlit(" (theirs, ");
    reveal_strlit(" (");
    reveal_strlit(", ");
    reveal_strlit("yours");
    reveal_strlit("theirs");
    assert forall|c: Color| true implies (#[trigger] group_text(g, c))[n + 2] == (if g.color == c {
        'y'
    } else {
        't'
    }) && (name + (if g.color == c {
        " (yours, "@
    } else {
        " (theirs, "@
    })).is_prefix_of(group_text(g, c)) by {
        let t = group_text(g, c);
        let head = name + (if g.color == c {
            " (yours, "@
        } else {
            " (theirs, "@
        });
        assert(t.len() >= head.len());
        assert(head =~= t.take(head.len() as int));
        assert(t[n + 2] == head[n + 2]);
    }
    let t = group_text(g, me);
    if (name + " (yours, "@).is_prefix_of(t) {
        assert(t[n + 2] == (name + " (yours, "@)[n + 2]);
    }
    if (name + " (theirs, "@).is_prefix_of(t) {
        assert(t[n + 2] == (name + " (theirs, "@)[n + 2]);
    }
    assert(group_text(g, me.rival())[n + 2] != t[n + 2]);
}

/// What is said of a group counts its stones and names its liberties, every one
/// of them, in their order.
#[verifier::spinoff_prover]
pub proof fn law_stones_and_liberties_are_told(g: GroupView, me: Color, k: int)
    ensures
        holds(
            group_text(g, me),
            decimal(g.stones.len()) + " stone"@ + (if g.stones.len() == 1 {
                ""@
            } else {
                "s"@
            }) + ", liberties: "@ + join(point_texts(g.liberties), ","@),
        ),
        0 <= k < g.liberties.len() ==> holds(group_text(g, me), point_text(g.liberties[k])),
        point_texts(g.liberties).len() == g.liberties.len(),
        0 <= k < g.liberties.len() ==> point_texts(g.liberties)[k] == point_text(g.liberties[k]),
        group_text(g, me).last() == ')',
{
    reveal_strlit(")");
    let names = point_texts(g.liberties);
    let list = join(names, ","@);
    let who = if g.color == me {
        "yours"@
    } else {
        "theirs"@
    };
    let plural = if g.stones.len() == 1 {
        ""@
    } else {
        "s"@
    };
    let head = anchor_text(g) + " ("@ + who + ", "@;
    let part = decimal(g.stones.len()) + " stone"@ + plural + ", liberties: "@ + list;
    lemma_holds_pieces(
        head,
        decimal(g.stones.len()),
        " stone"@,
        plural,
        ", liberties: "@,
        list,
    );
    let t = head + decimal(g.stones.len()) + " stone"@ + plural + ", liberties: "@ + list;
    lemma_holds_more(t, ")"@, part);
    if 0 <= k < g.liberties.len() {
        law_a_joined_text_holds_its_parts(names, ","@, k);
        assert(names[k] == point_text(g.liberties[k]));
        assert(t.skip(t.len() - list.len()) =~= list);
        lemma_holds_within(t, list, names[k]);
        lemma_holds_more(t, ")"@, names[k]);
    }
}

/// A text holds what its end holds.
proof fn lemma_holds_within(t: Seq<char>, end: Seq<char>, part: Seq<char>)
    requires
        holds(end, part),
        t.len() >= end.len(),
        t.skip(t.len() - end.len()) == end,
    ensures
        holds(t, part),
{
    let n = t.len() - end.len();
    let i = choose|i: int|
        0 <= i && i + part.len() <= end.len() && #[trigger] end.subrange(i, i + part.len())
            == part;
    let j = n + i;
    assert(t.subrange(j, j + part.len()) =~= end.subrange(i, i + part.len())) by {
        assert forall|x: int| 0 <= x < part.len() implies (#[trigger] t.subrange(
            j,
            j + part.len(),
        )[x]) == end.subrange(i, i + part.len())[x] by {
            assert(t.skip(n)[i + x] == end[i + x]);
        }
    }
}

/// The list for `n` liberties is made of what is said of each group that has as
/// many, each once and in dictionary order; it says `none` if there is none.
pub proof fn law_groups_are_listed(groups: Seq<GroupView>, n: nat, me: Color)
    ensures
        (forall|i: int|
            0 <= i < groups.len() ==> (#[trigger] groups[i]).liberties.len() != n) ==> group_list(
            groups,
            n,
            me,
        ) == "none"@,
        forall|i: int|
            0 <= i < groups.len() && (#[trigger] groups[i]).liberties.len() == n ==> holds(
                group_list(groups, n, me),
                group_text(groups[i], me),
            ),
        ({
            let kept = groups.filter(with_liberties(n));
            kept.len() > 0 ==> exists|parts: Seq<Seq<char>>| #[trigger]
                join(parts, "; "@) == group_list(groups, n, me) && in_order(parts)
                    && parts.to_multiset() == group_texts(kept, me).to_multiset()
        }),
        group_texts(groups, me).len() == groups.len(),
        forall|i: int|
            0 <= i < groups.len() ==> #[trigger] group_texts(groups, me)[i] == group_text(
                groups[i],
                me,
            ),
{
    broadcast use vstd::seq_lib::group_to_multiset_ensures;

    let kept = groups.filter(with_liberties(n));
    let said = group_texts(kept, me);
    let parts = sorted_texts(said);
    law_sorting(said);
    if forall|i: int| 0 <= i < groups.len() ==> (#[trigger] groups[i]).liberties.len() != n {
        if kept.len() > 0 {
            assert(kept.contains(kept[0]));
            law_every_group_in_danger_is_listed(groups, n, kept[0]);
            let i = choose|i: int| 0 <= i < groups.len() && groups[i] == kept[0];
            assert(groups[i].liberties.len() != n);
        }
    }
    assert forall|i: int|
        0 <= i < groups.len() && (#[trigger] groups[i]).liberties.len() == n implies holds(
        group_list(groups, n, me),
        group_text(groups[i], me),
    ) by {
        let g = groups[i];
        assert(groups.contains(g));
        law_every_group_in_danger_is_listed(groups, n, g);
        let k = choose|k: int| 0 <= k < kept.len() && kept[k] == g;
        assert(said[k] == group_text(g, me));
        assert(said.contains(group_text(g, me)));
        assert(said.to_multiset().contains(group_text(g, me)));
        assert(parts.contains(group_text(g, me)));
        let j = choose|j: int| 0 <= j < parts.len() && parts[j] == group_text(g, me);
        law_a_joined_text_holds_its_parts(parts, "; "@, j);
    }
    if kept.len() > 0 {
        assert(join(parts, "; "@) == group_list(groups, n, me));
    }
}

// ---------------------------------------------------------------------------
// Moves and notes
// ---------------------------------------------------------------------------

/// A move is told by its number, its color and its name, and by the stones it
/// took if it took any.
pub proof fn law_a_move_is_told(r: MoveRecord)
    ensures
        ({
            let who = if r.color == Color::Black {
                "Black"@
            } else {
                "White"@
            };
            let told = decimal(r.number as nat) + ". "@ + who + " "@ + move_text(r.mv);
            &&& r.captured == 0 ==> record_text(r) == told
            &&& r.captured > 0 ==> record_text(r) == told + (" (captured "@ + decimal(
                r.captured as nat,
            ) + ")"@)
        }),
{
    let told = decimal(r.number as nat) + ". "@ + color_text(r.color) + " "@ + move_text(r.mv);
    assert(told + Seq::<char>::empty() =~= told);
}

/// The moves that are told are the last ones: one more move, with room for one
/// more, is told after those told before; with no more room the first of them
/// gives way.
pub proof fn law_the_last_moves_are_told(history: Seq<MoveRecord>, r: MoveRecord, n: nat)
    ensures
        recent_text(Seq::empty(), n) == "none (empty board)"@,
        n > 0 ==> recent_text(seq![r], n) == record_text(r),
        history.len() > 0 && n > 0 ==> recent_text(history.push(r), n + 1) == recent_text(
            history,
            n,
        ) + ", "@ + record_text(r),
        history.len() >= n > 0 ==> recent_text(history.push(r), n) == recent_text(
            history.skip(1).push(r),
            n,
        ),
        recent_text(history.push(r), 0) == Seq::<char>::empty(),
{
    let all = history.push(r);
    let one = seq![r];
    assert(tail(one, n) =~= one || n == 0);
    if n > 0 {
        assert(record_texts(one) =~= seq![record_text(r)]);
    }
    if history.len() > 0 && n > 0 {
        assert(tail(all, n + 1) =~= tail(history, n).push(r));
        assert(record_texts(tail(all, n + 1)) =~= record_texts(tail(history, n)).push(
            record_text(r),
        ));
        let parts = record_texts(tail(history, n));
        assert(parts.len() > 0);
        law_joining(parts, record_text(r), ", "@);
    }
    if history.len() >= n > 0 {
        assert(tail(all, n) =~= tail(history.skip(1).push(r), n));
    }
    assert(tail(all, 0) =~= Seq::<MoveRecord>::empty());
    assert(record_texts(tail(all, 0)) =~= Seq::<Seq<char>>::empty());
}

/// Both tiers of the scratchpad are shown, the strategy first.
pub proof fn law_both_tiers_are_shown(n: NotesView)
    ensures
        ({
            let strategy = if n.strategy.len() > 0 {
                n.strategy
            } else {
                "(none yet)"@
            };
            let tactics = if n.tactics.len() > 0 {
                n.tactics
            } else {
                "(none yet)"@
            };
            notes_text(n) == "  strategy: "@ + strategy + "\n  tactics:  "@ + tactics
        }),
{
}

/// A stub tells the number and the player's own move, and the reply if there was
/// one.
pub proof fn law_a_stub_tells_the_moves(number: nat, own: Move, reply: Option<Move>)
    ensures
        ("Move "@ + decimal(number) + " — you played "@ + move_text(own)).is_prefix_of(
            thin_text(number, own, reply),
        ),
        reply matches Some(r) ==> holds(
            thin_text(number, own, reply),
            ". Opponent replied "@ + move_text(r) + "."@,
        ),
        reply is None ==> thin_text(number, own, reply).len() == ("Move "@ + decimal(number)
            + " — you played "@ + move_text(own)).len() + 1,
        thin_text(number, own, reply).last() == '.',
{
    reveal_strlit(".");
    let played = "Move "@ + decimal(number) + " — you played "@ + move_text(own);
    let t = thin_text(number, own, reply);
    assert(t.take(played.len() as int) =~= played);
    if let Some(r) = reply {
        lemma_holds_pieces(
            played,
            ". Opponent replied "@,
            move_text(r),
            "."@,
            Seq::empty(),
            Seq::empty(),
        );
    }
}

// ---------------------------------------------------------------------------
// The fat block
// ---------------------------------------------------------------------------

/// The fat block tells the number of the move and whom it speaks to, lists the
/// groups with one liberty and those with two, names the ko point, and tells the
/// stones that each player took, the last six moves and the scratchpad.
#[verifier::spinoff_prover]
pub proof fn law_what_the_fat_block_tells(s: GameState, me: Color, notes: NotesView)
    ensures
        ({
            let fat = fat_text(s, me, notes);
            let groups = groups_of(s.cells);
            let (name, stone) = if me == Color::Black {
                ("Black"@, "X"@)
            } else {
                ("White"@, "O"@)
            };
            let ko = match s.ko {
                Some(k) => point_text(k),
                None => "none"@,
            };
            &&& holds(
                fat,
                "\n\n--- position analysis (authoritative) ---\nMove number: "@ + decimal(
                    s.history.len() + 1,
                ) + "\nYou are "@ + name + " ("@ + stone
                    + ").\nGroups in atari (1 liberty): "@,
            )
            &&& holds(
                fat,
                ").\nGroups in atari (1 liberty): "@ + group_list(groups, 1, me)
                    + "\nGroups at 2 liberties:       "@ + group_list(groups, 2, me)
                    + "\nKo point (illegal this turn): "@,
            )
            &&& holds(
                fat,
                "\nKo point (illegal this turn): "@ + ko + "\nCaptures so far: Black "@,
            )
            &&& holds(
                fat,
                "\nCaptures so far: Black "@ + decimal(s.black_captures as nat) + ", White "@
                    + decimal(s.white_captures as nat) + "\nRecent moves: "@,
            )
            &&& holds(
                fat,
                "\nRecent moves: "@ + recent_text(s.history, 6) + "\n\nYour scratchpad:\n"@
                    + notes_text(notes) + "\n\nYou are "@,
            )
            &&& holds(
                fat,
                "\n\nYou are "@ + name
                    + " and it is your turn. Call play_move with your chosen point."@,
            )
        }),
{
    let groups = groups_of(s.cells);
    let board = board_text(s.cells);
    let (name, stone) = if me == Color::Black {
        ("Black"@, "X"@)
    } else {
        ("White"@, "O"@)
    };
    let l1 = "\n\n--- position analysis (authoritative) ---\nMove number: "@;
    let d = decimal(s.history.len() + 1);
    let l2 = "\nYou are "@;
    let l3 = " ("@;
    let l4 = ").\nGroups in atari (1 liberty): "@;
    let one = group_list(groups, 1, me);
    let l5 = "\nGroups at 2 liberties:       "@;
    let two = group_list(groups, 2, me);
    let l6 = "\nKo point (illegal this turn): "@;
    let ko = ko_text(s.ko);
    let l7 = "\nCaptures so far: Black "@;
    let b = decimal(s.black_captures as nat);
    let l8 = ", White "@;
    let w = decimal(s.white_captures as nat);
    let l9 = "\nRecent moves: "@;
    let recent = recent_text(s.history, 6);
    let l10 = "\n\nYour scratchpad:\n"@;
    let pad = notes_text(notes);
    let l11 = "\n\nYou are "@;
    let l12 = " and it is your turn. Call play_move with your chosen point."@;

    let t3 = board + l1 + d + l2;
    let t6 = t3 + name + l3 + stone;
    let t7 = t6 + l4;
    let t9 = t7 + one + l5;
    let t11 = t9 + two + l6;
    let t13 = t11 + ko + l7;
    let t17 = t13 + b + l8 + w + l9;
    let t21 = t17 + recent + l10 + pad + l11;
    let fat = t21 + name + l12;
    assert(fat == fat_text(s, me, notes));

    let n1 = l1 + d + l2 + name + l3 + stone + l4;
    assert(t7 =~= board + n1);
    lemma_holds_end(board, n1);
    let n2 = l4 + one + l5 + two + l6;
    lemma_holds_pieces(t6, l4, one, l5, two, l6);
    let n3 = l6 + ko + l7;
    lemma_holds_pieces(t9 + two, l6, ko, l7, b, l8);
    let n4 = l7 + b + l8 + w + l9;
    lemma_holds_pieces(t11 + ko, l7, b, l8, w, l9);
    let n5 = l9 + recent + l10 + pad + l11;
    lemma_holds_pieces(t13 + b + l8 + w, l9, recent, l10, pad, l11);
    let n6 = l11 + name + l12;
    lemma_holds_pieces(t17 + recent + l10 + pad, l11, name, l12, b, b);

    lemma_holds_four(t7, one, l5, two, l6, n1);
    lemma_holds_four(t11, ko, l7, b, l8, n1);
    lemma_holds_four(t13 + b + l8, w, l9, recent, l10, n1);
    lemma_holds_four(t17 + recent + l10, pad, l11, name, l12, n1);
    lemma_holds_four(t11, ko, l7, b, l8, n2);
    lemma_holds_four(t13 + b + l8, w, l9, recent, l10, n2);
    lemma_holds_four(t17 + recent + l10, pad, l11, name, l12, n2);
    lemma_holds_four(t13, b, l8, w, l9, n3);
    lemma_holds_four(t17, recent, l10, pad, l11, n3);
    lemma_holds_more(t21, name, n3);
    lemma_holds_more(t21 + name, l12, n3);
    lemma_holds_four(t17, recent, l10, pad, l11, n4);
    lemma_holds_more(t21, name, n4);
    lemma_holds_more(t21 + name, l12, n4);
    lemma_holds_more(t21, name, n5);
    lemma_holds_more(t21 + name, l12, n5);
}

/// The block that a model is given speaks to the color that it plays and shows
/// the notes that it keeps.
pub proof fn law_the_model_is_briefed_as_itself(a: AgentView, s: GameState)
    ensures
        ({
            let name = if a.color == Color::Black {
                "Black"@
            } else {
                "White"@
            };
            &&& holds(
                a.briefing(s),
                "\n\nYou are "@ + name
                    + " and it is your turn. Call play_move with your chosen point."@,
            )
            &&& holds(
                a.briefing(s),
                "\nRecent moves: "@ + recent_text(s.history, 6) + "\n\nYour scratchpad:\n"@
                    + notes_text(a.notes) + "\n\nYou are "@,
            )
            &&& board_text(s.cells).is_prefix_of(a.briefing(s))
        }),
{
    law_what_the_fat_block_tells(s, a.color, a.notes);
    law_the_fat_block_opens_with_the_board(s, a.color, a.notes);
}

} // verus!

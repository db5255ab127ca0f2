//! How a game at the terminal is conducted: turns, commands, remarks, and the
//! opponent that plays by itself.

use vstd::prelude::*;

use crate::agent::OutcomeView;
use crate::board::Cells;
use crate::bot::{around, choice, drawn, in_contact, next_state, touches};
use crate::coords::{
    column_letter, illegal_text, law_names_read_back, move_text, parse_text, point_text,
};
use crate::goban::{Color, Illegal, Move, MoveRecord, Point};
use crate::laws::law_legal_points_are_complete;
use crate::rules::GameState;
use crate::session::{
    applied, bool_text, captured_text, command_of, forced_text, greeting, next_of, opening,
    opening_upto, outcome_text, rejection_text, remark, remark_text, turn_text, CommandView, Next,
};
use crate::settings::blank;
use crate::text::{
    decimal, holds, is_digit, law_lines_follow_each_other, law_padding_is_trimmed,
    lemma_decimal_digits, lemma_holds_end, lemma_holds_more, lemma_holds_pieces,
    lemma_prefix_more, lemma_suffix_two, lines, trimmed, upper, upper_char, white_space,
    without_return,
};

verus! {

// ---------------------------------------------------------------------------
// Turns
// ---------------------------------------------------------------------------

/// A game that is over goes no further; one that lasts stops when as many moves
/// were made as were asked for, and never if none were asked for; otherwise
/// Black is the opponent's turn and White the model's.
pub proof fn law_whose_turn_it_is(s: GameState, moves: nat)
    ensures
        next_of(s, moves) == Next::Over <==> s.over(),
        next_of(s, moves) == Next::Enough <==> !s.over() && moves != 0 && moves <= s.history.len(),
        next_of(s, moves) == Next::Opponent ==> s.to_move == Color::Black,
        next_of(s, moves) == Next::Model ==> s.to_move == Color::White,
        next_of(s, 0) != Next::Enough,
{
}

/// The move that the model chose is the one that is made if the referee takes
/// it; a pass stands in for any other.
pub proof fn law_the_chosen_move_is_made(s: GameState, mv: Move)
    ensures
        s.refusal(mv) is None ==> applied(s, mv) == mv,
        s.refusal(mv) is Some ==> applied(s, mv) == Move::Pass,
{
}

// ---------------------------------------------------------------------------
// Commands
// ---------------------------------------------------------------------------

/// The words that are commands, in upper case.
proof fn lemma_words()
    ensures
        upper("quit"@) == "QUIT"@ && "QUIT"@.len() == 4 && "QUIT"@[0] == 'Q' && "QUIT"@[1] == 'U',
        upper("resign"@) == "RESIGN"@ && "RESIGN"@.len() == 6 && "RESIGN"@[1] == 'E',
        upper("pass"@) == "PASS"@ && "PASS"@.len() == 4 && "PASS"@[0] == 'P' && "PASS"@[1] == 'A',
{
    reveal_strlit("quit");
    reveal_strlit("resign");
    reveal_strlit("pass");
    reveal_strlit("QUIT");
    reveal_strlit("RESIGN");
    reveal_strlit("PASS");
    assert(upper("quit"@) =~= "QUIT"@);
    assert(upper("resign"@) =~= "RESIGN"@);
    assert(upper("pass"@) =~= "PASS"@);
}

/// The name of a point, in either case and with white space round it, asks for a
/// stone there if that is legal; if it is not, the player is told which point it
/// was and why, and asked again.
pub proof fn law_a_point_is_played_by_its_name(
    s: GameState,
    p: Point,
    a: Seq<char>,
    name: Seq<char>,
    b: Seq<char>,
)
    requires
        p.on_board(),
        upper(name) == point_text(p),
        blank(a) && blank(b),
    ensures
        s.refusal(Move::Play(p)) is None ==> command_of(s, a + name + b) == CommandView::Make(
            Move::Play(p),
        ),
        s.refusal(Move::Play(p)) matches Some(why) ==> command_of(s, a + name + b)
            == CommandView::Again(Some("  "@ + point_text(p) + ": "@ + illegal_text(why))),
{
    let num = (19 - p.row) as nat;
    lemma_decimal_digits(num);
    lemma_words();
    assert(name.len() == point_text(p).len());
    assert(point_text(p)[0] == column_letter(p.col as int));
    assert(upper(name)[0] == upper_char(name[0]));
    assert(!white_space(name[0]));
    let n = name.len() - 1;
    assert(point_text(p)[n] == decimal(num)[n - 1]);
    assert(is_digit(decimal(num)[n - 1]));
    assert(upper(name)[n] == upper_char(name[n]));
    assert(!white_space(name.last()));
    law_padding_is_trimmed(a, name, b);
    law_names_read_back(p, name);
    assert(point_text(p)[1] == decimal(num)[0]);
    assert(is_digit(decimal(num)[0]));
}

/// `quit` and `resign` give the game up and `pass` passes, in upper or lower
/// case and with white space round them; an empty line asks for nothing; and no
/// other line gives the game up or passes.
pub proof fn law_words_are_commands(s: GameState, line: Seq<char>)
    ensures
        command_of(s, line) is Resign <==> upper(trimmed(line)) == "QUIT"@ || upper(trimmed(line))
            == "RESIGN"@,
        command_of(s, line) == CommandView::Make(Move::Pass) <==> upper(trimmed(line)) == "PASS"@,
        command_of(s, line) == CommandView::Again(None) <==> trimmed(line).len() == 0,
{
    lemma_words();
}

/// What is no point is answered with what is wrong with it.
pub proof fn law_what_is_no_point_is_asked_again(s: GameState, line: Seq<char>)
    requires
        trimmed(line).len() > 0,
        upper(trimmed(line)) != "QUIT"@,
        upper(trimmed(line)) != "RESIGN"@,
        upper(trimmed(line)) != "PASS"@,
    ensures
        parse_text(trimmed(line)) matches Err(e) ==> command_of(s, line) == CommandView::Again(
            Some("  "@ + e),
        ),
{
    lemma_words();
}

/// What is said of each refusal.
pub proof fn law_refusals_are_told(c: Color)
    ensures
        illegal_text(Illegal::Occupied(c)) == "occupied by "@ + (if c == Color::Black {
            "Black"@
        } else {
            "White"@
        }),
        illegal_text(Illegal::Suicide) == "suicide — that group would have no liberties"@,
        illegal_text(Illegal::Ko) == "forbidden by ko — you may not immediately recapture"@,
        illegal_text(Illegal::GameOver) == "the game is already over"@,
{
}

// ---------------------------------------------------------------------------
// Remarks
// ---------------------------------------------------------------------------

/// The first line of a text is what stands before the first line feed, without
/// a carriage return before that, and all of a text that has no line feed.
pub proof fn law_the_first_line_is_shown(line: Seq<char>, rest: Seq<char>)
    requires
        forall|i: int| 0 <= i < line.len() ==> #[trigger] line[i] != '\n',
    ensures
        opening(line) == line,
        line.len() > 0 && line.last() == '\r' ==> opening(line + seq!['\n'] + rest)
            == line.drop_last(),
        line.len() == 0 || line.last() != '\r' ==> opening(line + seq!['\n'] + rest) == line,
{
    law_lines_follow_each_other(line, rest);
    let all = seq![without_return(line)] + lines(rest);
    assert(all[0] == without_return(line));
    if line.len() == 0 {
        assert(opening(line) =~= line);
    }
}

/// A line is shown whole if it has no more than so many characters; a longer one
/// is cut after as many, and a mark is set behind them.
pub proof fn law_long_lines_are_cut(s: Seq<char>, max: nat)
    ensures
        opening(s).len() <= max ==> opening_upto(s, max) == opening(s),
        opening(s).len() > max ==> {
            &&& opening_upto(s, max).len() == max + 1
            &&& opening_upto(s, max).last() == '…'
            &&& opening_upto(s, max).drop_last().is_prefix_of(opening(s))
        },
{
    if opening(s).len() > max {
        let cut = opening(s).take(max as int);
        assert(opening_upto(s, max).drop_last() =~= cut);
    }
}

/// The reason given in the call goes before the prose, and the prose before the
/// thinking; none of them is passed over unless it is blank.
pub proof fn law_which_words_go_with_a_move(o: OutcomeView)
    ensures
        trimmed(o.rationale).len() > 0 ==> remark(o) == trimmed(o.rationale),
        trimmed(o.rationale).len() == 0 && trimmed(o.commentary).len() > 0 ==> remark(o)
            == trimmed(o.commentary),
        trimmed(o.rationale).len() == 0 && trimmed(o.commentary).len() == 0 ==> remark(o)
            == trimmed(o.reasoning),
{
}

/// What is said of a move of the model's: the move, that it was out of attempts
/// exactly if it was, the stones it took exactly if it took any, and the words
/// that go with it if there are any.
pub proof fn law_what_is_said_of_a_turn(o: OutcomeView, played: MoveRecord)
    ensures
        ({
            let t = turn_text(o, played);
            let first = "plays "@ + move_text(played.mv) + "\n"@;
            let forced = "  [forced pass after "@ + decimal(o.attempts) + " attempts]\n"@;
            let taken = "  captured "@ + decimal(played.captured as nat) + " stone(s)\n"@;
            let said = "  \""@ + opening_upto(remark(o), 160) + "\"\n"@;
            let told = first + (if o.forced_pass {
                forced
            } else {
                Seq::empty()
            });
            let counted = told + (if played.captured > 0 {
                taken
            } else {
                Seq::empty()
            });
            &&& first.is_prefix_of(t)
            &&& told.is_prefix_of(t)
            &&& counted.is_prefix_of(t)
            &&& remark(o).len() > 0 ==> t == counted + said
            &&& remark(o).len() == 0 ==> t == counted
        }),
{
    let t = turn_text(o, played);
    let first = "plays "@ + move_text(played.mv) + "\n"@;
    let told = first + forced_text(o);
    let counted = told + captured_text(played.captured as nat);
    assert(t == counted + remark_text(o));
    assert(t.take(first.len() as int) =~= first);
    assert(t.take(told.len() as int) =~= told);
    assert(t.take(counted.len() as int) =~= counted);
    if remark(o).len() == 0 {
        assert(t =~= counted);
    }
}

/// The log of a turn tells the move that was made and keeps the reason, the prose
/// and the thinking whole, each behind its own name.
pub proof fn law_what_is_logged_of_a_turn(o: OutcomeView, played: Move)
    ensures
        ({
            let t = outcome_text(o, played);
            &&& ("played "@ + move_text(played) + " (attempts "@ + decimal(o.attempts)
                + ", forced_pass "@ + (if o.forced_pass {
                "true"@
            } else {
                "false"@
            }) + ")\nrationale: "@).is_prefix_of(t)
            &&& holds(t, ")\nrationale: "@ + o.rationale + "\ncommentary: "@)
            &&& holds(t, "\ncommentary: "@ + o.commentary + "\nreasoning: "@)
            &&& ("\nreasoning: "@ + o.reasoning).is_suffix_of(t)
        }),
{
    let head = "played "@ + move_text(played) + " (attempts "@ + decimal(o.attempts)
        + ", forced_pass "@ + bool_text(o.forced_pass);
    let l1 = ")\nrationale: "@;
    let l2 = "\ncommentary: "@;
    let l3 = "\nreasoning: "@;
    let first = head + l1;
    assert(first.take(first.len() as int) =~= first);
    lemma_prefix_more(first, o.rationale, first);
    lemma_prefix_more(first + o.rationale, l2, first);
    lemma_prefix_more(first + o.rationale + l2, o.commentary, first);
    lemma_prefix_more(first + o.rationale + l2 + o.commentary, l3, first);
    lemma_prefix_more(first + o.rationale + l2 + o.commentary + l3, o.reasoning, first);
    lemma_holds_pieces(head, l1, o.rationale, l2, o.commentary, l3);
    let n1 = l1 + o.rationale + l2;
    lemma_holds_more(head + l1 + o.rationale + l2, o.commentary, n1);
    lemma_holds_more(head + l1 + o.rationale + l2 + o.commentary, l3, n1);
    lemma_holds_more(head + l1 + o.rationale + l2 + o.commentary + l3, o.reasoning, n1);
    let n2 = l2 + o.commentary + l3;
    let before = head + l1 + o.rationale;
    lemma_holds_pieces(before, l2, o.commentary, l3, l3, l3);
    lemma_holds_more(before + l2 + o.commentary + l3, o.reasoning, n2);
    lemma_suffix_two(before + l2 + o.commentary, l3, o.reasoning);
}

/// A refusal after all tells the move and the reason.
pub proof fn law_what_is_said_of_a_refusal(mv: Move, why: Illegal)
    ensures
        rejection_text(mv, why) == "\n  [referee rejected "@ + move_text(mv)
            + " at apply time: "@ + illegal_text(why) + "]\n"@,
{
}

/// A session opens with the colors, the model and the provider.
pub proof fn law_what_opens_a_session(model: Seq<char>, provider: Seq<char>)
    ensures
        holds(
            greeting(model, provider),
            "indium — you are Black (X), "@ + model + " ("@ + provider
                + ") is White (O)\ncommands: a coordinate like Q16, or 'pass', 'resign', 'quit'\n\n"@,
        ),
{
    let t = greeting(model, provider);
    lemma_holds_end(Seq::empty(), t);
    assert(Seq::<char>::empty() + t =~= t);
}

// ---------------------------------------------------------------------------
// The opponent that plays by itself
// ---------------------------------------------------------------------------

/// A step of the generator mixes a state with itself, divided by 2^12, then
/// multiplied by 2^25, then divided by 2^27, in 64 bits.
pub proof fn law_a_step_of_the_generator(x: u64)
    ensures
        ({
            let a = x ^ (x / 4096);
            let b = a ^ (((a % 0x80_0000_0000) * 0x200_0000) as u64);
            next_state(x) == b ^ (b / 0x800_0000)
        }),
{
    let a = x ^ (x >> 12);
    let b = a ^ (a << 25);
    assert(x >> 12 == x / 4096) by (bit_vector);
    assert(a << 25 == (a % 0x80_0000_0000) * 0x200_0000) by (bit_vector);
    assert(b >> 27 == b / 0x800_0000) by (bit_vector);
}

/// The number drawn from a state is the high half of the low 64 bits of its
/// product with the multiplier.
pub proof fn law_what_is_drawn(x: u64)
    ensures
        ({
            let low = (x * 0x2545_F491_4F6C_DD1D) % 0x1_0000_0000_0000_0000;
            drawn(x) * 0x1_0000_0000 <= low < (drawn(x) + 1) * 0x1_0000_0000
        }),
{
    let low = (x * 0x2545_F491_4F6C_DD1D) % 0x1_0000_0000_0000_0000;
    assert(0 <= low < 0x1_0000_0000_0000_0000);
    assert(0 <= low / 0x1_0000_0000 < 0x1_0000_0000);
}

/// A point touches a stone if one stands a step away from it, along a line or
/// across a corner.
pub proof fn law_what_touches_a_point(cells: Cells, p: Point)
    ensures
        touches(cells, p) <==> exists|q: Point| #[trigger]
            q.on_board() && q != p && -1 <= q.row - p.row <= 1 && -1 <= q.col - p.col <= 1
                && cells[q.cell()] is Some,
{
    if touches(cells, p) {
        let q = choose|q: Point| #[trigger] around(p, q) && cells[q.cell()] is Some;
        assert(q.on_board());
    }
    if exists|q: Point| #[trigger]
        q.on_board() && q != p && -1 <= q.row - p.row <= 1 && -1 <= q.col - p.col <= 1
            && cells[q.cell()] is Some {
        let q = choose|q: Point| #[trigger]
            q.on_board() && q != p && -1 <= q.row - p.row <= 1 && -1 <= q.col - p.col <= 1
                && cells[q.cell()] is Some;
        assert(around(p, q));
    }
}

/// The bot passes only where it cannot place a stone. It places one next to
/// another stone three times out of four where it can, and draws where among all
/// the points in question.
pub proof fn law_where_the_bot_plays(s: GameState, x: u64)
    ensures
        ({
            let legal = s.legal_points();
            let first = next_state(x);
            let second = next_state(first);
            let near = exists|p: Point| #[trigger] legal.contains(p) && touches(s.cells, p);
            let (mv, state) = choice(s, x);
            &&& mv is Pass <==> (forall|p: Point|
                #![trigger s.refusal(Move::Play(p))]
                p.on_board() ==> s.refusal(Move::Play(p)) is Some)
            &&& mv is Pass ==> state == x
            &&& !(mv is Pass) && !near ==> state == first && mv == Move::Play(
                legal[drawn(first) as int % legal.len() as int],
            )
            &&& near ==> state == second
            &&& near && drawn(first) % 4 == 0 ==> mv == Move::Play(
                legal[drawn(second) as int % legal.len() as int],
            )
            &&& near && drawn(first) % 4 != 0 ==> {
                let close = legal.filter(in_contact(s.cells));
                &&& mv == Move::Play(close[drawn(second) as int % close.len() as int])
                &&& mv matches Move::Play(p) && legal.contains(p) && touches(s.cells, p)
            }
        }),
{
    let legal = s.legal_points();
    let wanted = in_contact(s.cells);
    let contact = legal.filter(wanted);
    let first = next_state(x);
    let second = next_state(first);
    law_legal_points_are_complete(s);
    if legal.len() == 0 {
        assert forall|p: Point| #![trigger s.refusal(Move::Play(p))]
            p.on_board() implies s.refusal(Move::Play(p)) is Some by {
            assert(!legal.contains(p));
        }
    } else {
        let p = legal[0];
        assert(legal.contains(p));
        assert(p.on_board() && s.refusal(Move::Play(p)) is None);
    }
    if contact.len() > 0 {
        let p = contact[0];
        legal.lemma_filter_pred(wanted, 0);
        assert(contact.contains(p));
        legal.lemma_filter_contains_rev(wanted, p);
        assert(legal.contains(p) && touches(s.cells, p));
        let k = drawn(second) as int % contact.len() as int;
        legal.lemma_filter_pred(wanted, k);
        assert(contact.contains(contact[k]));
        legal.lemma_filter_contains_rev(wanted, contact[k]);
        legal.lemma_filter_len(wanted);
    } else {
        assert forall|p: Point| #[trigger] legal.contains(p) implies !touches(s.cells, p) by {
            if touches(s.cells, p) {
                let i = choose|i: int| 0 <= i < legal.len() && legal[i] == p;
                legal.lemma_filter_contains(wanted, i);
            }
        }
    }
}

} // verus!

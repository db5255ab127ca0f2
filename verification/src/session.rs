//! A game at the terminal: whose turn it is, what the player typed, and what is
//! said of a move.

use vstd::prelude::*;

use crate::agent::{OutcomeView, TurnOutcome};
use crate::coords::{
    illegal_text, law_parsed_points_lie_on_the_board, move_text, parse_text, point_text,
};
use crate::goban::{Color, Game, Illegal, Move, MoveRecord, Point};
use crate::rules::GameState;
use crate::text::{
    chars_of, decimal, lines, push_decimal, same_text_any_case, split_lines, text_of, trim, trimmed,
    upper,
};

verus! {

/// What comes next in a game.
#[derive(Debug, Clone, Copy, PartialEq, Eq, Structural)]
pub enum Next {
    /// The game is over.
    Over,
    /// As many moves were made as were asked for.
    Enough,
    /// Black is to move: the bot, or whoever sits at the terminal.
    Opponent,
    /// White is to move: the model.
    Model,
}

/// What comes next, if the game is to stop after `moves` moves, or not before
/// it is over if that is zero.
pub open spec fn next_of(s: GameState, moves: nat) -> Next {
    if s.over() {
        Next::Over
    } else if 0 < moves <= s.history.len() {
        Next::Enough
    } else {
        match s.to_move {
            Color::Black => Next::Opponent,
            Color::White => Next::Model,
        }
    }
}

/// Decide what comes next.
pub fn next_step(game: &Game, moves: u32) -> (r: Next)
    requires
        game.wf(),
    ensures
        r == next_of(game@, moves as nat),
{
    proof {
        if game@.history.len() > 0 {
            assert(game@.history[game@.history.len() - 1].number == game@.history.len());
        }
    }
    if game.is_over() {
        Next::Over
    } else if moves > 0 && game.history().len() as u32 >= moves {
        Next::Enough
    } else {
        match game.to_move() {
            Color::Black => Next::Opponent,
            Color::White => Next::Model,
        }
    }
}

/// The move that is made for the model: the one it chose, or a pass should the
/// referee refuse that one.
pub open spec fn applied(s: GameState, mv: Move) -> Move {
    if s.refusal(mv) is None {
        mv
    } else {
        Move::Pass
    }
}

/// Make the model's move. Belt and braces: the referee stays authoritative even
/// if validation and application ever diverge. The reason why the move was
/// refused comes back with the record.
pub fn apply_model_move(game: &mut Game, mv: Move) -> (r: (
    Option<Illegal>,
    Result<MoveRecord, Illegal>,
))
    requires
        old(game).wf(),
        old(game)@.answers(mv),
        old(game)@.answers(applied(old(game)@, mv)),
    ensures
        final(game).wf(),
        r.0 == old(game)@.refusal(mv),
        match old(game)@.refusal(applied(old(game)@, mv)) {
            Some(why) => {
                &&& r.1 == Err::<MoveRecord, Illegal>(why)
                &&& final(game)@ == old(game)@
            },
            None => {
                &&& r.1 == Ok::<MoveRecord, Illegal>(final(game)@.history.last())
                &&& final(game)@ == old(game)@.after(applied(old(game)@, mv))
            },
        },
{
    match game.validate(mv) {
        Ok(()) => {
            let played = game.play(mv);
            (None, played)
        },
        Err(why) => {
            let played = game.play(Move::Pass);
            (Some(why), played)
        },
    }
}

/// While the game lasts, whatever the model chose leads to a move.
pub proof fn law_the_model_always_moves(s: GameState, mv: Move)
    requires
        !s.over(),
    ensures
        s.refusal(applied(s, mv)) is None,
{
}

// ---------------------------------------------------------------------------
// What the player typed
// ---------------------------------------------------------------------------

/// What a line that was typed asks for.
pub enum Command {
    /// Ask again, after saying what is wrong, if anything is.
    Again(Option<String>),
    /// Give up the game.
    Resign,
    /// Make the move.
    Make(Move),
}

/// What a line that was typed asks for.
#[verifier::ext_equal]
pub enum CommandView {
    Again(Option<Seq<char>>),
    Resign,
    Make(Move),
}

impl View for Command {
    type V = CommandView;

    open spec fn view(&self) -> CommandView {
        match self {
            Command::Again(Some(text)) => CommandView::Again(Some(text@)),
            Command::Again(None) => CommandView::Again(None),
            Command::Resign => CommandView::Resign,
            Command::Make(mv) => CommandView::Make(*mv),
        }
    }
}

/// A point, `pass`, `resign` or `quit`, in upper or lower case.
pub open spec fn command_of(s: GameState, line: Seq<char>) -> CommandView {
    let t = trimmed(line);
    if t.len() == 0 {
        CommandView::Again(None)
    } else if upper(t) == upper("quit"@) || upper(t) == upper("resign"@) {
        CommandView::Resign
    } else if upper(t) == upper("pass"@) {
        CommandView::Make(Move::Pass)
    } else {
        match parse_text(t) {
            Err(e) => CommandView::Again(Some("  "@ + e)),
            Ok(p) => match s.refusal(Move::Play(p)) {
                None => CommandView::Make(Move::Play(p)),
                Some(why) => CommandView::Again(
                    Some("  "@ + point_text(p) + ": "@ + illegal_text(why)),
                ),
            },
        }
    }
}

/// Understand a line that was typed.
pub fn read_command(game: &Game, line: &str) -> (r: Command)
    requires
        game.wf(),
        game@.over() || game@.has_room(),
    ensures
        r@ == command_of(game@, line@),
{
    let t = trim(line);
    if t.as_str().is_empty() {
        return Command::Again(None);
    }
    if same_text_any_case(t.as_str(), "quit") || same_text_any_case(t.as_str(), "resign") {
        return Command::Resign;
    }
    if same_text_any_case(t.as_str(), "pass") {
        return Command::Make(Move::Pass);
    }
    let mut text = "  ".to_owned();
    match Point::parse(t.as_str()) {
        Err(e) => {
            text.append(e.as_str());
            Command::Again(Some(text))
        },
        Ok(p) => {
            proof {
                law_parsed_points_lie_on_the_board(t@);
            }
            match game.validate(Move::Play(p)) {
                Ok(()) => Command::Make(Move::Play(p)),
                Err(why) => {
                    text.append(p.to_string().as_str());
                    text.append(": ");
                    text.append(why.to_string().as_str());
                    Command::Again(Some(text))
                },
            }
        },
    }
}

/// A move that a command asks for is not refused while the game lasts.
pub proof fn law_commanded_moves_are_legal(s: GameState, line: Seq<char>)
    requires
        !s.over(),
    ensures
        command_of(s, line) matches CommandView::Make(mv) ==> mv.on_board() && s.refusal(mv) is None,
{
    law_parsed_points_lie_on_the_board(trimmed(line));
}

// ---------------------------------------------------------------------------
// What is said of a move
// ---------------------------------------------------------------------------

/// The first line of a text, or nothing where it has none.
pub open spec fn opening(s: Seq<char>) -> Seq<char> {
    if lines(s).len() == 0 {
        Seq::empty()
    } else {
        lines(s)[0]
    }
}

/// The first line of a text, cut after `max` characters.
pub open spec fn opening_upto(s: Seq<char>, max: nat) -> Seq<char> {
    if opening(s).len() <= max {
        opening(s)
    } else {
        opening(s).take(max as int).push('…')
    }
}

/// The first line of a text, cut after `max` characters.
pub fn first_line(s: &str, max: usize) -> (r: String)
    ensures
        r@ == opening_upto(s@, max as nat),
{
    let parts = split_lines(s);
    let line = if parts.is_empty() {
        String::new()
    } else {
        parts[0].clone()
    };
    assert(line@ =~= opening(s@));
    let chars = chars_of(line.as_str());
    if chars.len() <= max {
        return line;
    }
    let mut cut = text_of(&chars, 0, max);
    cut.push('…');
    assert(cut@ =~= opening(s@).take(max as int).push('…'));
    cut
}

/// The words that go with a move: the reason given in the call itself, which is
/// there on every turn, else the prose, else the summary of the thinking.
pub open spec fn remark(o: OutcomeView) -> Seq<char> {
    if trimmed(o.rationale).len() > 0 {
        trimmed(o.rationale)
    } else if trimmed(o.commentary).len() > 0 {
        trimmed(o.commentary)
    } else {
        trimmed(o.reasoning)
    }
}

/// How many stones a move took, if it took any.
pub open spec fn captured_text(n: nat) -> Seq<char> {
    if n > 0 {
        "  captured "@ + decimal(n) + " stone(s)\n"@
    } else {
        Seq::empty()
    }
}

/// What is said of a move of the opponent's.
pub fn captured_line(captured: usize) -> (r: String)
    ensures
        r@ == captured_text(captured as nat),
{
    if captured == 0 {
        let r = String::new();
        assert(r@ =~= Seq::<char>::empty());
        return r;
    }
    let mut r = "  captured ".to_owned();
    push_decimal(&mut r, captured as u64);
    r.append(" stone(s)\n");
    r
}

/// That the model was out of attempts, if it was.
pub open spec fn forced_text(o: OutcomeView) -> Seq<char> {
    if o.forced_pass {
        "  [forced pass after "@ + decimal(o.attempts) + " attempts]\n"@
    } else {
        Seq::empty()
    }
}

/// The words that go with a move, if there are any, on one line.
pub open spec fn remark_text(o: OutcomeView) -> Seq<char> {
    if remark(o).len() > 0 {
        "  \""@ + opening_upto(remark(o), 160) + "\"\n"@
    } else {
        Seq::empty()
    }
}

/// What is said of a move of the model's.
pub open spec fn turn_text(o: OutcomeView, played: MoveRecord) -> Seq<char> {
    "plays "@ + move_text(played.mv) + "\n"@ + forced_text(o) + captured_text(
        played.captured as nat,
    ) + remark_text(o)
}

/// Tell a move of the model's.
pub fn describe_turn(outcome: &TurnOutcome, played: &MoveRecord) -> (r: String)
    requires
        played.mv.nameable(),
    ensures
        r@ == turn_text(outcome@, *played),
{
    let mut forced = String::new();
    assert(forced@ =~= Seq::<char>::empty());
    if outcome.forced_pass {
        forced = "  [forced pass after ".to_owned();
        push_decimal(&mut forced, outcome.attempts as u64);
        forced.append(" attempts]\n");
    }
    let mut said = trim(outcome.rationale.as_str());
    if said.as_str().is_empty() {
        said = trim(outcome.commentary.as_str());
    }
    if said.as_str().is_empty() {
        said = trim(outcome.reasoning.as_str());
    }
    assert(said@ == remark(outcome@));
    let mut quote = String::new();
    assert(quote@ =~= Seq::<char>::empty());
    if !said.as_str().is_empty() {
        quote = "  \"".to_owned();
        quote.append(first_line(said.as_str(), 160).as_str());
        quote.append("\"\n");
    }
    let mut r = "plays ".to_owned();
    r.append(played.mv.to_string().as_str());
    r.append("\n");
    r.append(forced.as_str());
    r.append(captured_line(played.captured).as_str());
    r.append(quote.as_str());
    r
}

/// What is said when the referee refuses the model's move after all.
pub open spec fn rejection_text(mv: Move, why: Illegal) -> Seq<char> {
    "\n  [referee rejected "@ + move_text(mv) + " at apply time: "@ + illegal_text(why) + "]\n"@
}

/// Tell that the model's move was refused after all.
pub fn describe_rejection(mv: Move, why: Illegal) -> (r: String)
    requires
        mv.nameable(),
    ensures
        r@ == rejection_text(mv, why),
{
    let mut r = "\n  [referee rejected ".to_owned();
    r.append(mv.to_string().as_str());
    r.append(" at apply time: ");
    r.append(why.to_string().as_str());
    r.append("]\n");
    r
}

pub open spec fn bool_text(b: bool) -> Seq<char> {
    if b {
        "true"@
    } else {
        "false"@
    }
}

/// What is logged of a turn.
pub open spec fn outcome_text(o: OutcomeView, played: Move) -> Seq<char> {
    "played "@ + move_text(played) + " (attempts "@ + decimal(o.attempts) + ", forced_pass "@
        + bool_text(o.forced_pass) + ")\nrationale: "@ + o.rationale + "\ncommentary: "@
        + o.commentary + "\nreasoning: "@ + o.reasoning
}

/// Put down a turn for the log.
pub fn describe_outcome(outcome: &TurnOutcome, played: Move) -> (r: String)
    requires
        played.nameable(),
    ensures
        r@ == outcome_text(outcome@, played),
{
    let mut r = "played ".to_owned();
    r.append(played.to_string().as_str());
    r.append(" (attempts ");
    push_decimal(&mut r, outcome.attempts as u64);
    r.append(", forced_pass ");
    r.append(if outcome.forced_pass { "true" } else { "false" });
    r.append(")\nrationale: ");
    r.append(outcome.rationale.as_str());
    r.append("\ncommentary: ");
    r.append(outcome.commentary.as_str());
    r.append("\nreasoning: ");
    r.append(outcome.reasoning.as_str());
    r
}

/// The line that opens a session, and the one that tells what can be typed.
pub open spec fn greeting(model: Seq<char>, provider: Seq<char>) -> Seq<char> {
    "indium — you are Black (X), "@ + model + " ("@ + provider
        + ") is White (O)\ncommands: a coordinate like Q16, or 'pass', 'resign', 'quit'\n\n"@
}

/// Open a session.
pub fn greet(model: &str, provider: &str) -> (r: String)
    ensures
        r@ == greeting(model@, provider@),
{
    let mut r = "indium — you are Black (X), ".to_owned();
    r.append(model);
    r.append(" (");
    r.append(provider);
    r.append(
        ") is White (O)\ncommands: a coordinate like Q16, or 'pass', 'resign', 'quit'\n\n",
    );
    r
}

} // verus!

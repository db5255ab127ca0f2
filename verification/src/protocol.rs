//! What holds of the conversation as a whole: every tool call is answered
//! once, and there is never more than one fat block.

use vstd::multiset::Multiset;
use vstd::prelude::*;

use crate::agent::{
    ack, asks, law_an_acknowledgement_names_the_move, notes_after, replied, stub, text_or_empty,
    verdict, AgentView, Progress, RequestOptions, ThinkingEffort, TurnView,
};
use crate::coords::{
    color_text, illegal_text, law_names_read_back, law_parsed_points_lie_on_the_board, move_text,
    parse_text, point_text,
};
use crate::goban::{Color, Illegal, Move, Point};
use crate::json::{text_at, Json};
use crate::messages::{
    calls_in, lemma_calls_bound, prose_in, reasoning_in, ActionView, Block, CallView, OutputView,
};
use crate::prompt::{law_notes_are_capped, Notes, NotesView, SYSTEM_PROMPT};
use crate::rules::GameState;
use crate::stats::Usage;
use crate::text::{
    read_number, trim_end, trim_start, trimmed, upper, upper_char, white_space,
};

verus! {

/// How many messages are volatile after one action, if `n` were before.
pub open spec fn fats_after(n: nat, action: ActionView) -> nat {
    match action {
        ActionView::PushVolatileUser(_) => n + 1,
        ActionView::RotateVolatileUser(_, _) => if n == 0 {
            1
        } else {
            n
        },
        ActionView::DemoteVolatile(_) => if n == 0 {
            0
        } else {
            (n - 1) as nat
        },
        _ => n,
    }
}

/// How many messages are volatile after the actions, if `n` were before.
pub open spec fn fats(n: nat, actions: Seq<ActionView>) -> nat
    decreases actions.len(),
{
    if actions.len() == 0 {
        n
    } else {
        fats_after(fats(n, actions.drop_last()), actions.last())
    }
}

/// The calls that the actions answer.
pub open spec fn answered(actions: Seq<ActionView>) -> Multiset<Seq<char>>
    decreases actions.len(),
{
    if actions.len() == 0 {
        Multiset::empty()
    } else {
        match actions.last() {
            ActionView::PushToolResult(id, _) => answered(actions.drop_last()).insert(id),
            _ => answered(actions.drop_last()),
        }
    }
}

/// The calls, by whom the answers go to.
pub open spec fn asked(calls: Seq<CallView>) -> Multiset<Seq<char>>
    decreases calls.len(),
{
    if calls.len() == 0 {
        Multiset::empty()
    } else {
        asked(calls.drop_last()).insert(calls.last().id)
    }
}

/// The calls that are still to be answered.
pub open spec fn owed(a: AgentView) -> Multiset<Seq<char>> {
    match a.pending_id {
        Some(id) => Multiset::empty().insert(id),
        None => Multiset::empty(),
    }
}

/// Both tiers of the scratchpad keep to their caps, but for an ellipsis.
pub open spec fn capped(notes: NotesView) -> bool {
    &&& notes.strategy.len() <= Notes::STRATEGY_CAP + 1
    &&& notes.tactics.len() <= Notes::TACTICS_CAP + 1
}

/// The agent between two turns, with `n` fat blocks in the conversation.
pub open spec fn at_rest(a: AgentView, n: nat) -> bool {
    &&& a.pending_id is Some <==> a.pending_ack is Some
    &&& a.pending_id is Some ==> a.pending_stub is Some
    &&& n == if a.pending_stub is Some {
        1nat
    } else {
        0nat
    }
    &&& capped(a.notes)
}

/// The agent within a turn, with `n` fat blocks in the conversation.
pub open spec fn in_turn(a: AgentView, t: TurnView, n: nat) -> bool {
    &&& a.pending_id is Some <==> a.pending_ack is Some
    &&& a.pending_id is Some <==> a.pending_stub is Some
    &&& a.pending_id is Some <==> t.accepted is Some
    &&& t.accepted matches Some((mv, _)) ==> a.pending_ack == Some(ack(mv))
    &&& n == 1
    &&& capped(a.notes)
}

/// Before the first turn there is no fat block.
pub proof fn law_no_fat_block_at_first(color: Color, max_attempts: nat)
    ensures
        at_rest(AgentView::initial(color, max_attempts), 0),
{
}

/// A delivered state is the one fat block there is. A pending call is answered
/// before it, and the fat block comes last.
pub proof fn law_delivery(a: AgentView, n: nat, s: GameState, fat: Seq<char>)
    requires
        at_rest(a, n),
    ensures
        in_turn(a.delivered(), TurnView::start(s, fat), fats(n, a.deliveries(s, fat))),
        owed(a) == answered(a.deliveries(s, fat)),
        owed(a.delivered()) == Multiset::<Seq<char>>::empty(),
        a.pending_id matches Some(id) ==> a.deliveries(s, fat) == seq![
            ActionView::PushToolResult(id, OutputView::Text(a.pending_ack->0)),
            ActionView::RotateVolatileUser(stub(s.history, a.pending_stub->0), fat),
        ],
        a.pending_id is None && a.pending_stub is None ==> a.deliveries(s, fat) == seq![
            ActionView::PushVolatileUser(fat),
        ],
        a.pending_id is None && a.pending_stub is Some ==> a.deliveries(s, fat) == seq![
            ActionView::RotateVolatileUser(stub(s.history, a.pending_stub->0), fat),
        ],
{
    let d = a.deliveries(s, fat);
    reveal_with_fuel(fats, 3);
    reveal_with_fuel(answered, 3);
    if a.pending_id is Some {
        assert(d =~= seq![
            ActionView::PushToolResult(
                a.pending_id->0,
                OutputView::Text(a.pending_ack->0),
            ),
            ActionView::RotateVolatileUser(stub(s.history, a.pending_stub->0), fat),
        ]);
        assert(d.drop_last().drop_last() =~= Seq::<ActionView>::empty());
    } else {
        assert(d.drop_last() =~= Seq::<ActionView>::empty());
    }
}

proof fn lemma_handle(p: Progress, s: GameState, call: CallView, n: nat)
    requires
        in_turn(p.agent, p.turn, n),
    ensures
        ({
            let q = p.handle(s, call);
            &&& in_turn(q.agent, q.turn, n)
            &&& fats(n, q.actions) == fats(n, p.actions)
            &&& owed(q.agent).add(answered(q.actions)) =~= owed(p.agent).add(
                answered(p.actions),
            ).insert(call.id)
        }),
{
    let q = p.handle(s, call);
    if q.actions.len() > p.actions.len() {
        assert(q.actions.drop_last() =~= p.actions);
    }
    if let Some(t) = text_at(call.input, "strategy"@) {
        law_notes_are_capped(t, Notes::STRATEGY_CAP as nat);
    }
    if let Some(t) = text_at(call.input, "tactics"@) {
        law_notes_are_capped(t, Notes::TACTICS_CAP as nat);
    }
}

proof fn lemma_handle_all(p: Progress, s: GameState, calls: Seq<CallView>, n: nat)
    requires
        in_turn(p.agent, p.turn, n),
    ensures
        ({
            let q = p.handle_all(s, calls);
            &&& in_turn(q.agent, q.turn, n)
            &&& fats(n, q.actions) == fats(n, p.actions)
            &&& owed(q.agent).add(answered(q.actions)) =~= owed(p.agent).add(
                answered(p.actions),
            ).add(asked(calls))
        }),
    decreases calls.len(),
{
    if calls.len() > 0 {
        let m = p.handle_all(s, calls.drop_last());
        lemma_handle_all(p, s, calls.drop_last(), n);
        lemma_handle(m, s, calls.last(), n);
    }
}

/// A reply leaves the number of fat blocks alone, and accounts for every tool
/// call in it: each is answered once, or left pending and owed an answer.
pub proof fn law_every_call_is_answered_once(
    a: AgentView,
    t: TurnView,
    n: nat,
    s: GameState,
    content: Seq<Block>,
    usage: Usage,
)
    requires
        in_turn(a, t, n),
    ensures
        ({
            let q = replied(a, t, s, content, usage);
            &&& in_turn(q.agent, q.turn, fats(n, q.actions))
            &&& owed(q.agent).add(answered(q.actions)) == owed(a).add(asked(calls_in(content)))
        }),
{
    let p = Progress { agent: a, turn: t.heard(content, usage), actions: Seq::empty() };
    let q = replied(a, t, s, content, usage);
    if calls_in(content).len() == 0 {
        assert(q.actions.drop_last() =~= Seq::<ActionView>::empty());
        reveal_with_fuel(fats, 2);
        reveal_with_fuel(answered, 2);
        assert(owed(q.agent).add(answered(q.actions)) =~= owed(a).add(asked(calls_in(content))));
    } else {
        lemma_handle_all(p, s, calls_in(content), n);
        assert(owed(p.agent).add(answered(p.actions)).add(asked(calls_in(content))) =~= owed(a).add(
            asked(calls_in(content)),
        ));
    }
}

/// The fat block that is kept for the log is the one that was sent: replies do
/// not change it.
pub proof fn law_the_log_keeps_what_was_sent(
    a: AgentView,
    t: TurnView,
    s: GameState,
    content: Seq<Block>,
    usage: Usage,
)
    ensures
        replied(a, t, s, content, usage).turn.fat == t.fat,
{
    let p = Progress { agent: a, turn: t.heard(content, usage), actions: Seq::empty() };
    lemma_handle_all_stat(p, s, calls_in(content));
}

/// A reply counts as one attempt.
pub proof fn law_a_reply_is_an_attempt(
    a: AgentView,
    t: TurnView,
    s: GameState,
    content: Seq<Block>,
    usage: Usage,
)
    requires
        t.stat.api_calls < usize::MAX,
    ensures
        replied(a, t, s, content, usage).turn.stat.api_calls == t.stat.api_calls + 1,
{
    let p = Progress { agent: a, turn: t.heard(content, usage), actions: Seq::empty() };
    lemma_handle_all_stat(p, s, calls_in(content));
}

proof fn lemma_handle_all_stat(p: Progress, s: GameState, calls: Seq<CallView>)
    ensures
        p.handle_all(s, calls).turn.stat.api_calls == p.turn.stat.api_calls,
        p.handle_all(s, calls).turn.fat == p.turn.fat,
    decreases calls.len(),
{
    if calls.len() > 0 {
        lemma_handle_all_stat(p, s, calls.drop_last());
    }
}

/// The refusals that a turn counts are those that the game counts.
pub proof fn law_refusals_are_counted_alike(
    a: AgentView,
    t: TurnView,
    s: GameState,
    content: Seq<Block>,
    usage: Usage,
)
    requires
        t.stat.rejections + content.len() <= usize::MAX,
    ensures
        ({
            let q = replied(a, t, s, content, usage);
            q.agent.stats.rejections - a.stats.rejections == q.turn.stat.rejections
                - t.stat.rejections
        }),
{
    let p = Progress { agent: a, turn: t.heard(content, usage), actions: Seq::empty() };
    lemma_calls_bound(content);
    lemma_handle_all_refusals(p, s, calls_in(content));
}

proof fn lemma_handle_all_refusals(p: Progress, s: GameState, calls: Seq<CallView>)
    requires
        p.turn.stat.rejections + calls.len() <= usize::MAX,
    ensures
        ({
            let q = p.handle_all(s, calls);
            &&& q.turn.stat.rejections <= p.turn.stat.rejections + calls.len()
            &&& q.agent.stats.rejections - p.agent.stats.rejections == q.turn.stat.rejections
                - p.turn.stat.rejections
        }),
    decreases calls.len(),
{
    if calls.len() > 0 {
        lemma_handle_all_refusals(p, s, calls.drop_last());
    }
}

/// A refused move is answered at once, with the reason, and nothing is left
/// pending, so that the model can try again.
pub proof fn law_a_refusal_is_answered_with_its_reason(
    p: Progress,
    s: GameState,
    call: CallView,
    why: Seq<char>,
)
    requires
        call.name == "play_move"@,
        p.agent.pending_id is None,
        verdict(s, call.input) == Err::<Move, Seq<char>>(why),
    ensures
        p.handle(s, call).actions == p.actions.push(
            ActionView::PushToolResult(call.id, OutputView::Error(why)),
        ),
        p.handle(s, call).agent.pending_id is None,
        p.handle(s, call).turn.accepted == p.turn.accepted,
{
    reveal_strlit("play_move");
    reveal_strlit("update_notes");
    assert("play_move"@.len() != "update_notes"@.len());
}

/// The reason for which a point is refused names the point and the rule.
pub proof fn law_a_reason_names_the_rule(s: GameState, input: Json, p: Point, rule: Illegal)
    requires
        parse_text(text_or_empty(input, "point"@)) == Ok::<Point, Seq<char>>(p),
        s.refusal(Move::Play(p)) == Some(rule),
    ensures
        verdict(s, input) matches Err(why) && (point_text(p) + ": "@ + illegal_text(
            rule,
        )).is_prefix_of(why),
{
    let raw = text_or_empty(input, "point"@);
    if upper(raw) == upper("pass"@) {
        lemma_pass_is_no_point(raw);
    }
    let told = point_text(p) + ": "@ + illegal_text(rule);
    if let Illegal::Occupied(c) = rule {
        reveal_strlit(": ");
        reveal_strlit("occupied by ");
        reveal_strlit(": occupied by ");
        let why = point_text(p) + ": occupied by "@ + color_text(c)
            + ". Pick an empty intersection."@;
        assert(": occupied by "@ =~= ": "@ + "occupied by "@);
        assert(why =~= told + ". Pick an empty intersection."@);
        assert(told.is_prefix_of(why));
    } else {
        assert(told.is_prefix_of(told));
    }
}

/// The word for a pass does not name a point.
proof fn lemma_pass_is_no_point(raw: Seq<char>)
    requires
        upper(raw) == upper("pass"@),
    ensures
        parse_text(raw) is Err,
{
    reveal_strlit("pass");
    let ws = |c: char| white_space(c);
    let t = upper(raw);
    assert(t[0] == 'P' && t[1] == 'A' && t[3] == 'S');
    assert(upper_char(raw[0]) == 'P' && upper_char(raw[3]) == 'S');
    assert(!white_space(raw[0]) && !white_space(raw.last()));
    assert(trim_start(raw, ws) == raw);
    assert(trim_end(raw, ws) == raw);
    assert(trimmed(raw) == raw);
    assert(t.drop_first()[0] == 'A');
    assert(read_number(t.drop_first(), usize::MAX as nat) is Err);
}

/// A move that the referee accepts names a point of the board, if it is no
/// pass, and playing it is not refused.
pub proof fn law_accepted_moves_are_legal(s: GameState, input: Json)
    ensures
        verdict(s, input) matches Ok(mv) ==> mv.on_board() && (mv is Play ==> s.refusal(mv) is None),
{
    law_parsed_points_lie_on_the_board(text_or_empty(input, "point"@));
}

/// The move that a turn ends with is a pass or a legal move.
pub proof fn law_a_turn_ends_with_a_legal_move(
    a: AgentView,
    t: TurnView,
    s: GameState,
    content: Seq<Block>,
    usage: Usage,
)
    requires
        playable(s, t),
    ensures
        playable(s, replied(a, t, s, content, usage).turn),
{
    let p = Progress { agent: a, turn: t.heard(content, usage), actions: Seq::empty() };
    lemma_handle_all_playable(p, s, calls_in(content));
}

/// The move of the turn, if there is one, is a pass or a legal move.
pub open spec fn playable(s: GameState, t: TurnView) -> bool {
    t.accepted matches Some((mv, _)) ==> mv.on_board() && (mv is Play ==> s.refusal(mv) is None)
}

proof fn lemma_handle_all_playable(p: Progress, s: GameState, calls: Seq<CallView>)
    requires
        playable(s, p.turn),
    ensures
        playable(s, p.handle_all(s, calls).turn),
    decreases calls.len(),
{
    if calls.len() > 0 {
        lemma_handle_all_playable(p, s, calls.drop_last());
        law_accepted_moves_are_legal(s, calls.last().input);
    }
}

/// After a turn there is one fat block, and the next delivery replaces it.
pub proof fn law_the_fat_block_is_replaced(
    a: AgentView,
    t: TurnView,
    n: nat,
    s: GameState,
    messages: nat,
)
    requires
        in_turn(a, t, n),
    ensures
        at_rest(a.after_turn(s, t, messages), n),
        a.after_turn(s, t, messages).pending_stub is Some,
        owed(a.after_turn(s, t, messages)) == owed(a),
{
}

/// When the game is over, every call is answered and no fat block is left.
pub proof fn law_nothing_is_left_over(a: AgentView, n: nat)
    requires
        at_rest(a, n),
    ensures
        a.pending_id matches Some(id) ==> a.farewells(n > 0)[0] == ActionView::PushToolResult(
            id,
            OutputView::Text("game over"@),
        ),
        n > 0 ==> a.farewells(n > 0).last() == ActionView::DemoteVolatile("game over"@),
        fats(n, a.farewells(n > 0)) == 0,
        owed(a) == answered(a.farewells(n > 0)),
        owed(a.finished()) == Multiset::<Seq<char>>::empty(),
{
    let d = a.farewells(n > 0);
    reveal_with_fuel(fats, 3);
    reveal_with_fuel(answered, 3);
    if a.pending_id is Some {
        assert(d.drop_last().drop_last() =~= Seq::<ActionView>::empty());
    } else if n > 0 {
        assert(d.drop_last() =~= Seq::<ActionView>::empty());
    }
}

// ---------------------------------------------------------------------------
// What a turn comes to
// ---------------------------------------------------------------------------

/// A turn hands back the very move that was accepted, with the reason given for
/// it, however many replies it took; its call is pending under the words that
/// name that move. Only where nothing was accepted is the outcome a forced pass.
pub proof fn law_a_turn_hands_back_the_accepted_move(
    a: AgentView,
    t: TurnView,
    n: nat,
    max_attempts: nat,
)
    requires
        in_turn(a, t, n),
    ensures
        ({
            let o = t.outcome(max_attempts);
            &&& t.accepted matches Some((mv, why)) ==> {
                &&& o.mv == mv
                &&& o.rationale == why
                &&& !o.forced_pass
                &&& o.attempts == t.stat.api_calls
                &&& a.pending_ack == Some("ok: "@ + move_text(mv))
            }
            &&& t.accepted is None ==> {
                &&& o.mv == Move::Pass
                &&& o.rationale.len() == 0
                &&& o.forced_pass
                &&& o.attempts == max_attempts
            }
            &&& o.commentary == t.commentary
            &&& o.reasoning == t.reasoning
        }),
{
    if let Some((mv, _)) = t.accepted {
        law_an_acknowledgement_names_the_move(mv);
    }
}

/// The model is asked until a move is accepted, and at most as often as it may
/// try.
pub proof fn law_how_long_the_model_is_asked(a: AgentView, t: TurnView)
    ensures
        t.accepted is Some ==> !a.wants(t),
        t.stat.api_calls >= a.max_attempts ==> !a.wants(t),
        t.accepted is None && t.stat.api_calls < a.max_attempts ==> a.wants(t),
{
}

/// A call that proposes a move which the referee accepts.
pub open spec fn proposes(s: GameState, call: CallView, mv: Move) -> bool {
    call.name == "play_move"@ && verdict(s, call.input) == Ok::<Move, Seq<char>>(mv)
}

/// Of the proposals in a reply the first that is legal is accepted, and no other:
/// its move, its reason, and its call left pending.
pub proof fn law_the_first_legal_proposal_is_accepted(
    p: Progress,
    s: GameState,
    calls: Seq<CallView>,
    k: int,
    mv: Move,
)
    requires
        p.agent.pending_id is None,
        0 <= k < calls.len(),
        proposes(s, calls[k], mv),
        forall|i: int, m: Move| 0 <= i < k ==> !#[trigger] proposes(s, calls[i], m),
    ensures
        ({
            let q = p.handle_all(s, calls);
            &&& q.turn.accepted == Some((mv, text_or_empty(calls[k].input, "reasoning"@)))
            &&& q.agent.pending_id == Some(calls[k].id)
            &&& q.agent.pending_ack == Some(ack(mv))
            &&& q.agent.pending_stub == Some(s.history.len() + 1)
        }),
    decreases calls.len(),
{
    lemma_tool_names();
    let rest = calls.drop_last();
    if k == calls.len() - 1 {
        assert forall|i: int, m: Move| 0 <= i < rest.len() implies !#[trigger] proposes(
            s,
            rest[i],
            m,
        ) by {
            assert(rest[i] == calls[i]);
            assert(!proposes(s, calls[i], m));
        }
        law_without_a_legal_proposal_nothing_is_accepted(p, s, rest);
    } else {
        assert(rest[k] == calls[k]);
        assert forall|i: int, m: Move| 0 <= i < k implies !#[trigger] proposes(s, rest[i], m) by {
            assert(rest[i] == calls[i]);
            assert(!proposes(s, calls[i], m));
        }
        law_the_first_legal_proposal_is_accepted(p, s, rest, k, mv);
    }
}

/// Where no proposal is legal, none is accepted.
pub proof fn law_without_a_legal_proposal_nothing_is_accepted(
    p: Progress,
    s: GameState,
    calls: Seq<CallView>,
)
    requires
        p.agent.pending_id is None,
        forall|i: int, m: Move| 0 <= i < calls.len() ==> !#[trigger] proposes(s, calls[i], m),
    ensures
        p.handle_all(s, calls).turn.accepted == p.turn.accepted,
        p.handle_all(s, calls).agent.pending_id is None,
    decreases calls.len(),
{
    lemma_tool_names();
    if calls.len() > 0 {
        let rest = calls.drop_last();
        assert forall|i: int, m: Move| 0 <= i < rest.len() implies !#[trigger] proposes(
            s,
            rest[i],
            m,
        ) by {
            assert(rest[i] == calls[i]);
            assert(!proposes(s, calls[i], m));
        }
        law_without_a_legal_proposal_nothing_is_accepted(p, s, rest);
        if let Ok(m) = verdict(s, calls.last().input) {
            assert(!proposes(s, calls[calls.len() - 1], m));
        }
    }
}

proof fn lemma_tool_names()
    ensures
        "play_move"@ != "update_notes"@,
{
    reveal_strlit("play_move");
    reveal_strlit("update_notes");
    assert("play_move"@.len() != "update_notes"@.len());
}

/// Each call is answered by what it asks for: notes are rewritten, a second move
/// is turned down, an unknown tool is named. None of these touches the move.
pub proof fn law_calls_are_answered_in_kind(p: Progress, s: GameState, call: CallView)
    ensures
        ({
            let q = p.handle(s, call);
            &&& call.name == "update_notes"@ ==> {
                &&& q.actions == p.actions.push(
                    ActionView::PushToolResult(call.id, OutputView::Text("notes updated"@)),
                )
                &&& q.agent.notes == notes_after(p.agent.notes, call.input)
                &&& q.agent.stats.notes_updates == p.agent.stats.notes_updates + 1
                &&& q.turn == p.turn
            }
            &&& call.name != "update_notes"@ ==> q.agent.notes == p.agent.notes
            &&& call.name == "play_move"@ && p.agent.pending_id is Some ==> {
                &&& q.actions == p.actions.push(
                    ActionView::PushToolResult(
                        call.id,
                        OutputView::Error(
                            "already accepted a move this turn; call play_move once"@,
                        ),
                    ),
                )
                &&& q.agent == p.agent
                &&& q.turn == p.turn
            }
            &&& call.name != "update_notes"@ && call.name != "play_move"@ ==> {
                &&& q.actions == p.actions.push(
                    ActionView::PushToolResult(
                        call.id,
                        OutputView::Error("unknown tool '"@ + call.name + "'"@),
                    ),
                )
                &&& q.agent == p.agent
                &&& q.turn == p.turn
            }
        }),
{
    lemma_tool_names();
}

proof fn lemma_handle_all_words(p: Progress, s: GameState, calls: Seq<CallView>)
    ensures
        ({
            let q = p.handle_all(s, calls);
            &&& q.turn.commentary == p.turn.commentary
            &&& q.turn.reasoning == p.turn.reasoning
            &&& q.turn.stat.input_tokens == p.turn.stat.input_tokens
            &&& q.turn.stat.cache_creation == p.turn.stat.cache_creation
            &&& q.turn.stat.cache_read == p.turn.stat.cache_read
            &&& q.turn.stat.output_tokens == p.turn.stat.output_tokens
            &&& q.turn.stat.move_number == p.turn.stat.move_number
            &&& q.agent.stats.no_tool_call == p.agent.stats.no_tool_call
            &&& q.agent.stats.forced_passes == p.agent.stats.forced_passes
            &&& q.agent.stats.turns == p.agent.stats.turns
            &&& q.agent.color == p.agent.color
        }),
    decreases calls.len(),
{
    if calls.len() > 0 {
        lemma_handle_all_words(p, s, calls.drop_last());
    }
}

/// Everything that a reply says is kept, and everything it costs is counted.
pub proof fn law_a_reply_is_heard_in_full(
    a: AgentView,
    t: TurnView,
    s: GameState,
    content: Seq<Block>,
    usage: Usage,
)
    requires
        t.stat.has_room_for(usage),
    ensures
        ({
            let q = replied(a, t, s, content, usage);
            &&& q.turn.commentary == t.commentary + prose_in(content)
            &&& q.turn.reasoning == t.reasoning + reasoning_in(content)
            &&& q.turn.stat.input_tokens == t.stat.input_tokens + usage.input_tokens
            &&& q.turn.stat.cache_creation == t.stat.cache_creation
                + usage.cache_creation_input_tokens
            &&& q.turn.stat.cache_read == t.stat.cache_read + usage.cache_read_input_tokens
            &&& q.turn.stat.output_tokens == t.stat.output_tokens + usage.output_tokens
            &&& q.turn.stat.move_number == t.stat.move_number
        }),
{
    let p = Progress { agent: a, turn: t.heard(content, usage), actions: Seq::empty() };
    lemma_handle_all_words(p, s, calls_in(content));
}

/// A reply without a call is answered with a reminder, and with nothing else; a
/// reply with a call is not.
pub proof fn law_prose_alone_gets_a_reminder(
    a: AgentView,
    t: TurnView,
    s: GameState,
    content: Seq<Block>,
    usage: Usage,
)
    ensures
        ({
            let q = replied(a, t, s, content, usage);
            &&& calls_in(content).len() == 0 ==> {
                &&& q.actions == seq![
                    ActionView::PushUser(
                        "Place a stone by calling the play_move tool. Do that now."@,
                    ),
                ]
                &&& q.agent.stats.no_tool_call == a.stats.no_tool_call + 1
                &&& q.turn.accepted == t.accepted
                &&& q.agent.notes == a.notes
            }
            &&& calls_in(content).len() > 0 ==> q.agent.stats.no_tool_call == a.stats.no_tool_call
        }),
{
    let p = Progress { agent: a, turn: t.heard(content, usage), actions: Seq::empty() };
    lemma_handle_all_words(p, s, calls_in(content));
    if calls_in(content).len() == 0 {
        assert(replied(a, t, s, content, usage).actions =~= seq![
            ActionView::PushUser("Place a stone by calling the play_move tool. Do that now."@),
        ]);
    }
}

/// A turn is entered into the telemetry as it was, with the length of the
/// conversation; it counts as a forced pass exactly if nothing was accepted.
pub proof fn law_a_turn_is_entered(
    a: AgentView,
    s: GameState,
    t: TurnView,
    messages: nat,
)
    requires
        messages <= usize::MAX,
    ensures
        ({
            let b = a.after_turn(s, t, messages);
            let e = b.stats.turns.last();
            &&& b.stats.turns.len() == a.stats.turns.len() + 1
            &&& b.stats.turns.drop_last() == a.stats.turns
            &&& e.messages == messages
            &&& e.move_number == t.stat.move_number
            &&& e.api_calls == t.stat.api_calls
            &&& e.rejections == t.stat.rejections
            &&& e.input_tokens == t.stat.input_tokens
            &&& e.cache_creation == t.stat.cache_creation
            &&& e.cache_read == t.stat.cache_read
            &&& e.output_tokens == t.stat.output_tokens
            &&& b.stats.forced_passes == a.stats.forced_passes + (if t.accepted is None {
                1nat
            } else {
                0nat
            })
            &&& t.accepted is None ==> b.pending_stub == Some(s.history.len() + 1)
            &&& t.accepted is Some ==> b.pending_stub == a.pending_stub
            &&& b.stats.rejections == a.stats.rejections
            &&& b.notes == a.notes
            &&& b.pending_id == a.pending_id
            &&& b.pending_ack == a.pending_ack
        }),
{
    assert(a.after_turn(s, t, messages).stats.turns.drop_last() =~= a.stats.turns);
}

/// A legal point is accepted by its name, in upper or lower case.
pub proof fn law_a_legal_point_is_accepted_by_name(
    s: GameState,
    input: Json,
    raw: Seq<char>,
    p: Point,
)
    requires
        text_at(input, "point"@) == Some(raw),
        p.on_board(),
        upper(raw) == point_text(p),
        s.refusal(Move::Play(p)) is None,
    ensures
        verdict(s, input) == Ok::<Move, Seq<char>>(Move::Play(p)),
{
    law_names_read_back(p, raw);
    if upper(raw) == upper("pass"@) {
        lemma_pass_is_no_point(raw);
    }
}

/// A pass is accepted by its name, in upper or lower case, and what is neither a
/// pass nor a point is refused with what is wrong with it.
pub proof fn law_what_is_no_point_is_refused(s: GameState, input: Json)
    ensures
        ({
            let raw = text_or_empty(input, "point"@);
            &&& upper(raw) == upper("pass"@) ==> verdict(s, input) == Ok::<Move, Seq<char>>(
                Move::Pass,
            )
            &&& upper(raw) != upper("pass"@) ==> (parse_text(raw) matches Err(e) ==> verdict(
                s,
                input,
            ) == Err::<Move, Seq<char>>(raw + ": "@ + e))
        }),
{
}

/// A point that is not legal is refused by its name and with the reason; where a
/// stone stands the model is told whose it is.
pub proof fn law_an_illegal_point_is_refused_by_name(
    s: GameState,
    input: Json,
    raw: Seq<char>,
    p: Point,
)
    requires
        text_at(input, "point"@) == Some(raw),
        p.on_board(),
        upper(raw) == point_text(p),
    ensures
        s.refusal(Move::Play(p)) == Some(Illegal::Occupied(Color::Black)) ==> verdict(s, input)
            == Err::<Move, Seq<char>>(
            point_text(p) + ": occupied by "@ + "Black"@ + ". Pick an empty intersection."@,
        ),
        s.refusal(Move::Play(p)) == Some(Illegal::Occupied(Color::White)) ==> verdict(s, input)
            == Err::<Move, Seq<char>>(
            point_text(p) + ": occupied by "@ + "White"@ + ". Pick an empty intersection."@,
        ),
        s.refusal(Move::Play(p)) == Some(Illegal::Suicide) ==> verdict(s, input) == Err::<
            Move,
            Seq<char>,
        >(point_text(p) + ": "@ + "suicide — that group would have no liberties"@),
        s.refusal(Move::Play(p)) == Some(Illegal::Ko) ==> verdict(s, input) == Err::<
            Move,
            Seq<char>,
        >(point_text(p) + ": "@ + "forbidden by ko — you may not immediately recapture"@),
        s.refusal(Move::Play(p)) == Some(Illegal::GameOver) ==> verdict(s, input) == Err::<
            Move,
            Seq<char>,
        >(point_text(p) + ": "@ + "the game is already over"@),
{
    law_names_read_back(p, raw);
    if upper(raw) == upper("pass"@) {
        lemma_pass_is_no_point(raw);
    }
}

/// With every request go the model that was named, the rules of the house, both
/// tools, the effort that was asked for and room for the reply.
pub proof fn law_what_is_asked(o: RequestOptions, model: Seq<char>, thinking: ThinkingEffort)
    requires
        asks(o, model, thinking),
    ensures
        o.model@ == model,
        o.thinking == thinking,
        o.max_tokens == 8192,
        o.system@ == SYSTEM_PROMPT@,
        o.tools@.len() == 2,
        o.tools@[0].name@ == "play_move"@,
        o.tools@[1].name@ == "update_notes"@,
{
}

/// Before its first turn an agent has no notes and nothing to answer, has counted
/// nothing, and plays the color and makes the attempts that it was told.
pub proof fn law_an_agent_starts_with_nothing(color: Color, max_attempts: nat)
    ensures
        ({
            let a = AgentView::initial(color, max_attempts);
            &&& a.color == color
            &&& a.max_attempts == max_attempts
            &&& a.notes.strategy.len() == 0
            &&& a.notes.tactics.len() == 0
            &&& a.pending_id is None
            &&& a.pending_ack is None
            &&& a.pending_stub is None
            &&& a.stats.turns.len() == 0
            &&& a.stats.rejections == 0
            &&& a.stats.no_tool_call == 0
            &&& a.stats.forced_passes == 0
            &&& a.stats.notes_updates == 0
        }),
{
}

/// Where the model leaves a text out, it counts as empty; what it gives is taken
/// as it is.
pub proof fn law_what_is_left_out_is_empty(s: GameState, input: Json, key: Seq<char>)
    ensures
        text_at(input, key) is None ==> text_or_empty(input, key) == Seq::<char>::empty(),
        text_at(input, key) matches Some(t) ==> text_or_empty(input, key) == t,
        text_at(input, "point"@) is None ==> verdict(s, input) is Err,
{
    let raw = Seq::<char>::empty();
    reveal_strlit("pass");
    if text_at(input, "point"@) is None {
        assert(upper(raw).len() == 0);
        assert(upper("pass"@).len() == 4);
        assert(trimmed(raw).len() == 0);
    }
}

} // verus!

//! The loop that plays for the model.
//!
//! Exactly one volatile fat block exists in the conversation at a time. Once
//! the model has answered it and the referee has accepted a move, the next
//! turn
//!
//! 1. answers the pending `play_move` with a thin, stable acknowledgement,
//! 2. demotes the previous fat block to a one-line stub, and
//! 3. appends a freshly rendered fat block as the new volatile message.
//!
//! Tool results are never rewritten. The agent decides what is to be done to
//! the conversation; whoever holds the conversation does it.

use vstd::prelude::*;

use crate::coords::{
    color_text, illegal_text, law_parsed_points_lie_on_the_board, move_text, parse_text,
    point_text,
};
use crate::goban::{Color, Game, Illegal, Move, MoveRecord, Point};
use crate::json::{text_at, text_member, Json};
use crate::messages::{
    action_views, calls_in, lemma_action_push, lemma_calls_bound, prose_in, reasoning_in, Action,
    ActionView, Block, CallView, OutputView, Reply, ToolCall, ToolOutput,
};
use crate::prompt::{
    fat_state_block, fat_text, moves_nameable, tail, thin_stub, thin_text, truncated, Notes,
    NotesView, SYSTEM_PROMPT,
};
use crate::rules::GameState;
use crate::stats::{accumulate, Stats, StatsView, TurnStat, Usage};
use crate::text::{decimal, same_text, same_text_any_case, upper};
use crate::tools::{
    is_play_move_tool, is_update_notes_tool, play_move_tool, update_notes_tool, ToolDef,
};

verus! {

/// What an accepted move is acknowledged with.
pub open spec fn ack(mv: Move) -> Seq<char> {
    match mv {
        Move::Pass => "ok: pass"@,
        Move::Play(p) => "ok: "@ + point_text(p),
    }
}

/// What an accepted move is acknowledged with.
pub fn ack_text(mv: Move) -> (r: String)
    requires
        mv.nameable(),
    ensures
        r@ == ack(mv),
{
    match mv {
        Move::Pass => "ok: pass".to_owned(),
        Move::Play(p) => {
            let mut r = "ok: ".to_owned();
            r.append(p.to_string().as_str());
            r
        },
    }
}

/// The move of a given number.
pub open spec fn move_at(history: Seq<MoveRecord>, number: int) -> Option<Move> {
    if 0 < number <= history.len() {
        Some(history[number - 1].mv)
    } else {
        None
    }
}

/// What the fat block that asked for move `number` is demoted to.
pub open spec fn stub(history: Seq<MoveRecord>, number: nat) -> Seq<char> {
    let own = match move_at(history, number as int) {
        Some(mv) => mv,
        None => Move::Pass,
    };
    thin_text(number, own, move_at(history, number as int + 1))
}

fn find_move(game: &Game, number: u32) -> (r: Option<Move>)
    requires
        game.wf(),
    ensures
        r == move_at(game@.history, number as int),
{
    let hist = game.history();
    let mut i: usize = 0;
    while i < hist.len()
        invariant
            game.wf(),
            hist@ == game@.history,
            i <= hist@.len(),
            forall|k: int| 0 <= k < i ==> (#[trigger] hist@[k]).number != number,
        decreases hist@.len() - i,
    {
        if hist[i].number == number {
            return Some(hist[i].mv);
        }
        i += 1;
    }
    proof {
        if 0 < number <= hist@.len() {
            assert(hist@[number - 1].number == number);
        }
    }
    None
}

/// The move can be written down, if there is one.
pub open spec fn option_nameable(mv: Option<Move>) -> bool {
    mv matches Some(m) ==> m.nameable()
}

/// "Move 47 — you played Q3. Opponent replied R4."
fn stub_text(game: &Game, number: u32) -> (r: String)
    requires
        game.wf(),
        number < u32::MAX,
        option_nameable(move_at(game@.history, number as int)),
        option_nameable(move_at(game@.history, number + 1)),
    ensures
        r@ == stub(game@.history, number as nat),
{
    let own = match find_move(game, number) {
        Some(mv) => mv,
        None => Move::Pass,
    };
    let reply = find_move(game, number + 1);
    thin_stub(number, own, reply)
}

/// The string under a key, or nothing where there is none.
pub open spec fn text_or_empty(input: Json, key: Seq<char>) -> Seq<char> {
    match text_at(input, key) {
        Some(s) => s,
        None => Seq::empty(),
    }
}

/// What the referee says to a proposed move: the move, or what is wrong.
pub open spec fn verdict(s: GameState, input: Json) -> Result<Move, Seq<char>> {
    let raw = text_or_empty(input, "point"@);
    if upper(raw) == upper("pass"@) {
        Ok(Move::Pass)
    } else {
        match parse_text(raw) {
            Err(e) => Err(raw + ": "@ + e),
            Ok(p) => match s.refusal(Move::Play(p)) {
                None => Ok(Move::Play(p)),
                Some(Illegal::Occupied(c)) => Err(
                    point_text(p) + ": occupied by "@ + color_text(c)
                        + ". Pick an empty intersection."@,
                ),
                Some(why) => Err(point_text(p) + ": "@ + illegal_text(why)),
            },
        }
    }
}

/// The referee is authoritative. Nothing here changes the game.
pub fn validate(game: &Game, call: &ToolCall) -> (r: Result<Move, String>)
    requires
        game.wf(),
        game@.over() || game@.has_room(),
    ensures
        match r {
            Ok(mv) => verdict(game@, call@.input) == Ok::<Move, Seq<char>>(mv),
            Err(e) => verdict(game@, call@.input) == Err::<Move, Seq<char>>(e@),
        },
{
    let raw = match text_member(&call.input, "point") {
        Some(s) => s,
        None => String::new(),
    };
    proof {
        if text_at(call@.input, "point"@) is None {
            assert(raw@ =~= Seq::<char>::empty());
        }
    }
    if same_text_any_case(raw.as_str(), "pass") {
        return Ok(Move::Pass);
    }
    match Point::parse(raw.as_str()) {
        Err(e) => {
            let mut text = raw;
            text.append(": ");
            text.append(e.as_str());
            Err(text)
        },
        Ok(p) => match game.validate(Move::Play(p)) {
            Ok(()) => Ok(Move::Play(p)),
            Err(Illegal::Occupied(c)) => {
                let mut text = p.to_string();
                text.append(": occupied by ");
                text.append(c.name());
                text.append(". Pick an empty intersection.");
                Err(text)
            },
            Err(why) => {
                let mut text = p.to_string();
                text.append(": ");
                text.append(why.to_string().as_str());
                Err(text)
            },
        },
    }
}

/// The scratchpad after an update: the tiers that are given are replaced.
pub open spec fn notes_after(notes: NotesView, input: Json) -> NotesView {
    NotesView {
        strategy: match text_at(input, "strategy"@) {
            Some(s) => truncated(s, Notes::STRATEGY_CAP as int),
            None => notes.strategy,
        },
        tactics: match text_at(input, "tactics"@) {
            Some(s) => truncated(s, Notes::TACTICS_CAP as int),
            None => notes.tactics,
        },
    }
}

fn apply_notes(notes: &mut Notes, call: &ToolCall)
    ensures
        final(notes)@ == notes_after(old(notes)@, call@.input),
{
    if let Some(s) = text_member(&call.input, "strategy") {
        notes.set_strategy(s.as_str());
    }
    if let Some(s) = text_member(&call.input, "tactics") {
        notes.set_tactics(s.as_str());
    }
}

// ---------------------------------------------------------------------------
// The agent
// ---------------------------------------------------------------------------

/// How much the model is to think.
#[derive(Debug, Clone, Copy, PartialEq, Eq, Structural)]
pub enum ThinkingEffort {
    High,
    Medium,
    Low,
}

/// What goes with every request.
pub struct RequestOptions {
    pub model: String,
    pub system: String,
    pub tools: Vec<ToolDef>,
    pub thinking: ThinkingEffort,
    pub max_tokens: u32,
}

/// What the agent asks of a model: the rules of the house and the two tools.
pub open spec fn asks(o: RequestOptions, model: Seq<char>, thinking: ThinkingEffort) -> bool {
    &&& o.model@ == model
    &&& o.system@ == SYSTEM_PROMPT@
    &&& o.tools@.len() == 2
    &&& is_play_move_tool(o.tools@[0])
    &&& is_update_notes_tool(o.tools@[1])
    &&& o.thinking == thinking
    &&& o.max_tokens == 8192
}

/// Plays one color for a model.
pub struct Agent {
    opts: RequestOptions,
    color: Color,
    notes: Notes,
    /// A `play_move` call accepted this turn; it is answered when the next
    /// state is delivered, or when the game is finished.
    pending_tool_id: Option<String>,
    /// What that call is answered with, such as `ok: Q16`.
    pending_ack: Option<String>,
    /// The number of the move that the outstanding fat block asked for.
    pending_stub_for: Option<u32>,
    max_attempts: usize,
    pub stats: Stats,
}

/// What an agent remembers.
#[verifier::ext_equal]
pub struct AgentView {
    pub color: Color,
    pub notes: NotesView,
    pub pending_id: Option<Seq<char>>,
    pub pending_ack: Option<Seq<char>>,
    pub pending_stub: Option<nat>,
    pub max_attempts: nat,
    pub stats: StatsView,
}

/// The text, if there is one.
pub open spec fn text_view(s: Option<String>) -> Option<Seq<char>> {
    match s {
        Some(t) => Some(t@),
        None => None,
    }
}

impl View for Agent {
    type V = AgentView;

    closed spec fn view(&self) -> AgentView {
        AgentView {
            color: self.color,
            notes: self.notes@,
            pending_id: text_view(self.pending_tool_id),
            pending_ack: text_view(self.pending_ack),
            pending_stub: match self.pending_stub_for {
                Some(n) => Some(n as nat),
                None => None,
            },
            max_attempts: self.max_attempts as nat,
            stats: self.stats@,
        }
    }
}

impl AgentView {
    /// Before the first turn.
    pub open spec fn initial(color: Color, max_attempts: nat) -> AgentView {
        AgentView {
            color,
            notes: NotesView { strategy: Seq::empty(), tactics: Seq::empty() },
            pending_id: None,
            pending_ack: None,
            pending_stub: None,
            max_attempts,
            stats: StatsView::zero(),
        }
    }

    /// The model is to be asked, or asked again.
    pub open spec fn wants(self, turn: TurnView) -> bool {
        turn.accepted is None && turn.stat.api_calls < self.max_attempts
    }

    /// The fat block that the model is given: for its own color, with its own
    /// notes.
    pub open spec fn briefing(self, s: GameState) -> Seq<char> {
        fat_text(s, self.color, self.notes)
    }

    /// What the pending call is answered with.
    pub open spec fn acknowledgement(self) -> Seq<char> {
        match self.pending_ack {
            Some(text) => text,
            None => "ok"@,
        }
    }

    /// What is done to the conversation when a new state is delivered. A tool
    /// call must be answered before anything else is said.
    pub open spec fn deliveries(self, s: GameState, fat: Seq<char>) -> Seq<ActionView> {
        let answer = match self.pending_id {
            Some(id) => seq![
                ActionView::PushToolResult(id, OutputView::Text(self.acknowledgement())),
            ],
            None => Seq::empty(),
        };
        answer.push(
            match self.pending_stub {
                Some(n) => ActionView::RotateVolatileUser(stub(s.history, n), fat),
                None => ActionView::PushVolatileUser(fat),
            },
        )
    }

    /// Nothing is pending once a state has been delivered.
    pub open spec fn delivered(self) -> AgentView {
        AgentView {
            pending_id: None,
            pending_ack: if self.pending_id is Some {
                None
            } else {
                self.pending_ack
            },
            pending_stub: None,
            ..self
        }
    }

    /// What is done to the conversation when the game is over.
    pub open spec fn farewells(self, volatile: bool) -> Seq<ActionView> {
        let answer = match self.pending_id {
            Some(id) => seq![ActionView::PushToolResult(id, OutputView::Text("game over"@))],
            None => Seq::empty(),
        };
        if volatile {
            answer.push(ActionView::DemoteVolatile("game over"@))
        } else {
            answer
        }
    }

    /// The pending call is answered once the game is over.
    pub open spec fn finished(self) -> AgentView {
        AgentView {
            pending_id: None,
            pending_ack: if self.pending_id is Some {
                None
            } else {
                self.pending_ack
            },
            ..self
        }
    }
}

/// A turn in progress.
pub struct Turn {
    stat: TurnStat,
    commentary: String,
    reasoning: String,
    fat: String,
    accepted: Option<(Move, String)>,
}

/// A turn in progress: its telemetry, what the model has said and summarized so
/// far, the fat block it was given, and the move it made, with its reason.
#[verifier::ext_equal]
pub struct TurnView {
    pub stat: TurnStat,
    pub commentary: Seq<char>,
    pub reasoning: Seq<char>,
    pub fat: Seq<char>,
    pub accepted: Option<(Move, Seq<char>)>,
}

impl View for Turn {
    type V = TurnView;

    closed spec fn view(&self) -> TurnView {
        TurnView {
            stat: self.stat,
            commentary: self.commentary@,
            reasoning: self.reasoning@,
            fat: self.fat@,
            accepted: match self.accepted {
                Some((mv, why)) => Some((mv, why@)),
                None => None,
            },
        }
    }
}

impl TurnView {
    /// A turn of which nothing is known yet.
    pub open spec fn start(s: GameState, fat: Seq<char>) -> TurnView {
        TurnView {
            stat: TurnStat {
                move_number: (s.history.len() + 1) as u32,
                ..TurnStat::zero()
            },
            commentary: Seq::empty(),
            reasoning: Seq::empty(),
            fat,
            accepted: None,
        }
    }

    /// The turn with what a reply says and costs.
    pub open spec fn heard(self, content: Seq<Block>, usage: Usage) -> TurnView {
        TurnView {
            stat: TurnStat {
                api_calls: (self.stat.api_calls + 1) as usize,
                ..self.stat.plus(usage)
            },
            commentary: self.commentary + prose_in(content),
            reasoning: self.reasoning + reasoning_in(content),
            ..self
        }
    }
}

impl Turn {
    /// A turn that was given the fat block, of which nothing has come yet.
    pub fn new(game: &Game, fat: String) -> (r: Turn)
        requires
            game@.history.len() < u32::MAX,
        ensures
            r@ == TurnView::start(game@, fat@),
    {
        let stat = TurnStat { move_number: game.move_number(), ..TurnStat::default() };
        let turn = Turn {
            stat,
            commentary: String::new(),
            reasoning: String::new(),
            fat,
            accepted: None,
        };
        assert(turn.commentary@ =~= Seq::<char>::empty());
        assert(turn.reasoning@ =~= Seq::<char>::empty());
        turn
    }

    /// The telemetry of the turn so far.
    pub fn stat(&self) -> (r: TurnStat)
        ensures
            r == self@.stat,
    {
        self.stat
    }
}

impl Agent {
    /// What goes with every request.
    pub closed spec fn options(&self) -> RequestOptions {
        self.opts
    }

    /// An agent for one game. It gives up a turn after `max_attempts` replies.
    pub fn new(model: String, color: Color, thinking: ThinkingEffort, max_attempts: usize) -> (r:
        Agent)
        ensures
            r@ == AgentView::initial(color, max_attempts as nat),
            asks(r.options(), model@, thinking),
    {
        let opts = RequestOptions {
            model,
            system: SYSTEM_PROMPT.to_owned(),
            tools: vec![play_move_tool(), update_notes_tool()],
            thinking,
            max_tokens: 8192,
        };
        Agent {
            opts,
            color,
            notes: Notes::default(),
            pending_tool_id: None,
            pending_ack: None,
            pending_stub_for: None,
            max_attempts,
            stats: Stats::default(),
        }
    }

    /// What goes with every request.
    pub fn opts(&self) -> (r: &RequestOptions)
        ensures
            *r == self.options(),
    {
        &self.opts
    }

    /// The scratchpad.
    pub fn notes(&self) -> (r: &Notes)
        ensures
            r@ == self@.notes,
    {
        &self.notes
    }

    /// Answer the pending call first, if there is one; then replace the fat
    /// block, or append the first one.
    pub fn deliver_state(&mut self, game: &Game, fat: &str) -> (r: Vec<Action>)
        requires
            game.wf(),
            old(self)@.pending_stub matches Some(n) ==> {
                &&& n < u32::MAX
                &&& option_nameable(move_at(game@.history, n as int))
                &&& option_nameable(move_at(game@.history, n as int + 1))
            },
        ensures
            action_views(r@) == old(self)@.deliveries(game@, fat@),
            final(self)@ == old(self)@.delivered(),
            final(self).options() == old(self).options(),
    {
        let mut actions: Vec<Action> = Vec::new();
        assert(action_views(actions@) =~= Seq::<ActionView>::empty());
        let id = self.pending_tool_id.take();
        if let Some(id) = id {
            let ack = match self.pending_ack.take() {
                Some(text) => text,
                None => "ok".to_owned(),
            };
            let answer = Action::PushToolResult(id, ToolOutput::Text(ack));
            proof {
                lemma_action_push(actions@, answer);
            }
            actions.push(answer);
        }
        let ghost answers = action_views(actions@);
        let stub_for = self.pending_stub_for.take();
        let delivery = match stub_for {
            Some(number) => Action::RotateVolatileUser(stub_text(game, number), fat.to_owned()),
            None => Action::PushVolatileUser(fat.to_owned()),
        };
        proof {
            lemma_action_push(actions@, delivery);
        }
        actions.push(delivery);
        actions
    }

    /// Begin a turn: what is to be done to the conversation before the model is
    /// asked.
    pub fn begin_turn(&mut self, game: &Game) -> (r: (Turn, Vec<Action>))
        requires
            game.wf(),
            game@.history.len() < u32::MAX,
            moves_nameable(tail(game@.history, 6)),
            old(self)@.pending_stub matches Some(n) ==> {
                &&& n < u32::MAX
                &&& option_nameable(move_at(game@.history, n as int))
                &&& option_nameable(move_at(game@.history, n as int + 1))
            },
        ensures
            r.0@ == TurnView::start(game@, old(self)@.briefing(game@)),
            action_views(r.1@) == old(self)@.deliveries(game@, old(self)@.briefing(game@)),
            final(self)@ == old(self)@.delivered(),
            final(self).options() == old(self).options(),
    {
        let fat = fat_state_block(game, self.color, &self.notes);
        let actions = self.deliver_state(game, fat.as_str());
        (Turn::new(game, fat), actions)
    }

    /// Is the model to be asked, or asked again?
    pub fn wants_reply(&self, turn: &Turn) -> (r: bool)
        ensures
            r == self@.wants(turn@),
    {
        turn.accepted.is_none() && turn.stat.api_calls < self.max_attempts
    }

    /// Answer any outstanding tool call and demote the final fat block, if the
    /// conversation holds one, so that the saved transcript is clean.
    pub fn finish(&mut self, volatile: bool) -> (r: Vec<Action>)
        ensures
            action_views(r@) == old(self)@.farewells(volatile),
            final(self)@ == old(self)@.finished(),
            final(self).options() == old(self).options(),
    {
        let mut actions: Vec<Action> = Vec::new();
        assert(action_views(actions@) =~= Seq::<ActionView>::empty());
        let id = self.pending_tool_id.take();
        if let Some(id) = id {
            let _ = self.pending_ack.take();
            let answer = Action::PushToolResult(id, ToolOutput::Text("game over".to_owned()));
            proof {
                lemma_action_push(actions@, answer);
            }
            actions.push(answer);
        }
        if volatile {
            let demotion = Action::DemoteVolatile("game over".to_owned());
            proof {
                lemma_action_push(actions@, demotion);
            }
            actions.push(demotion);
        }
        actions
    }
}

// ---------------------------------------------------------------------------
// Replies
// ---------------------------------------------------------------------------

/// How far the handling of a reply has come.
#[verifier::ext_equal]
pub struct Progress {
    pub agent: AgentView,
    pub turn: TurnView,
    pub actions: Seq<ActionView>,
}

impl Progress {
    /// With one more call answered.
    pub open spec fn answer(self, id: Seq<char>, output: OutputView) -> Progress {
        Progress { actions: self.actions.push(ActionView::PushToolResult(id, output)), ..self }
    }

    /// The scratchpad is rewritten.
    pub open spec fn note(self, call: CallView) -> Progress {
        Progress {
            agent: AgentView {
                notes: notes_after(self.agent.notes, call.input),
                stats: StatsView {
                    notes_updates: self.agent.stats.notes_updates + 1,
                    ..self.agent.stats
                },
                ..self.agent
            },
            ..self
        }.answer(call.id, OutputView::Text("notes updated"@))
    }

    /// The move is accepted, and its call is left pending.
    pub open spec fn accept(self, s: GameState, call: CallView, mv: Move) -> Progress {
        Progress {
            agent: AgentView {
                pending_id: Some(call.id),
                pending_ack: Some(ack(mv)),
                pending_stub: Some(s.history.len() + 1),
                ..self.agent
            },
            turn: TurnView {
                accepted: Some((mv, text_or_empty(call.input, "reasoning"@))),
                ..self.turn
            },
            ..self
        }
    }

    /// The move is refused.
    pub open spec fn reject(self, call: CallView, why: Seq<char>) -> Progress {
        Progress {
            agent: AgentView {
                stats: StatsView {
                    rejections: self.agent.stats.rejections + 1,
                    ..self.agent.stats
                },
                ..self.agent
            },
            turn: TurnView {
                stat: TurnStat {
                    rejections: (self.turn.stat.rejections + 1) as usize,
                    ..self.turn.stat
                },
                ..self.turn
            },
            ..self
        }.answer(call.id, OutputView::Error(why))
    }

    /// With one more call handled. Notes and refused moves are answered at
    /// once; an accepted move is left pending.
    pub open spec fn handle(self, s: GameState, call: CallView) -> Progress {
        if call.name == "update_notes"@ {
            self.note(call)
        } else if call.name == "play_move"@ {
            if self.agent.pending_id is Some {
                self.answer(
                    call.id,
                    OutputView::Error("already accepted a move this turn; call play_move once"@),
                )
            } else {
                match verdict(s, call.input) {
                    Ok(mv) => self.accept(s, call, mv),
                    Err(why) => self.reject(call, why),
                }
            }
        } else {
            self.answer(call.id, OutputView::Error("unknown tool '"@ + call.name + "'"@))
        }
    }

    /// With the calls handled one after the other.
    pub open spec fn handle_all(self, s: GameState, calls: Seq<CallView>) -> Progress
        decreases calls.len(),
    {
        if calls.len() == 0 {
            self
        } else {
            self.handle_all(s, calls.drop_last()).handle(s, calls.last())
        }
    }

    /// The model answered in prose: it is told to call the tool.
    pub open spec fn remind(self) -> Progress {
        Progress {
            agent: AgentView {
                stats: StatsView {
                    no_tool_call: self.agent.stats.no_tool_call + 1,
                    ..self.agent.stats
                },
                ..self.agent
            },
            actions: self.actions.push(
                ActionView::PushUser(
                    "Place a stone by calling the play_move tool. Do that now."@,
                ),
            ),
            ..self
        }
    }
}

/// What a reply leads to.
pub open spec fn replied(
    agent: AgentView,
    turn: TurnView,
    s: GameState,
    content: Seq<Block>,
    usage: Usage,
) -> Progress {
    let p = Progress { agent, turn: turn.heard(content, usage), actions: Seq::empty() };
    if calls_in(content).len() == 0 {
        p.remind()
    } else {
        p.handle_all(s, calls_in(content))
    }
}

/// Outcome of one model turn, for logging.
pub struct TurnOutcome {
    pub mv: Move,
    pub attempts: usize,
    /// Assistant prose, when the model emits any.
    pub commentary: String,
    /// Summarized thinking, which is where the reasoning often lives.
    pub reasoning: String,
    /// The `reasoning` argument of the `play_move` call itself.
    pub rationale: String,
    pub forced_pass: bool,
}

/// What came of a turn.
#[verifier::ext_equal]
pub struct OutcomeView {
    pub mv: Move,
    pub attempts: nat,
    pub commentary: Seq<char>,
    pub reasoning: Seq<char>,
    pub rationale: Seq<char>,
    pub forced_pass: bool,
}

impl View for TurnOutcome {
    type V = OutcomeView;

    open spec fn view(&self) -> OutcomeView {
        OutcomeView {
            mv: self.mv,
            attempts: self.attempts as nat,
            commentary: self.commentary@,
            reasoning: self.reasoning@,
            rationale: self.rationale@,
            forced_pass: self.forced_pass,
        }
    }
}

impl TurnView {
    /// What came of the turn: the move, or a pass where none was accepted, so
    /// that a broken turn does not stall the game.
    pub open spec fn outcome(self, max_attempts: nat) -> OutcomeView {
        OutcomeView {
            mv: match self.accepted {
                Some((mv, _)) => mv,
                None => Move::Pass,
            },
            attempts: if self.accepted is Some {
                self.stat.api_calls as nat
            } else {
                max_attempts
            },
            commentary: self.commentary,
            reasoning: self.reasoning,
            rationale: match self.accepted {
                Some((_, why)) => why,
                None => Seq::empty(),
            },
            forced_pass: self.accepted is None,
        }
    }
}

impl AgentView {
    /// After the turn, with as many messages in the conversation.
    pub open spec fn after_turn(self, s: GameState, turn: TurnView, messages: nat) -> AgentView {
        let turns = self.stats.turns.push(
            TurnStat { messages: messages as usize, ..turn.stat },
        );
        if turn.accepted is Some {
            AgentView { stats: StatsView { turns, ..self.stats }, ..self }
        } else {
            AgentView {
                pending_stub: Some(s.history.len() + 1),
                stats: StatsView {
                    turns,
                    forced_passes: self.stats.forced_passes + 1,
                    ..self.stats
                },
                ..self
            }
        }
    }

    /// The counters still have room for `n` more of anything.
    pub open spec fn counts_fit(self, n: int) -> bool {
        &&& self.stats.rejections + n <= usize::MAX
        &&& self.stats.no_tool_call + n <= usize::MAX
        &&& self.stats.forced_passes + n <= usize::MAX
        &&& self.stats.notes_updates + n <= usize::MAX
    }
}

impl Agent {
    /// Handle one call of the model's.
    fn handle_call(&mut self, game: &Game, turn: &mut Turn, call: &ToolCall, actions: &mut Vec<
        Action,
    >)
        requires
            game.wf(),
            game@.history.len() < u32::MAX,
            old(self)@.counts_fit(1),
            old(turn)@.stat.rejections < usize::MAX,
        ensures
            (Progress {
                agent: final(self)@,
                turn: final(turn)@,
                actions: action_views(final(actions)@),
            }) == (Progress {
                agent: old(self)@,
                turn: old(turn)@,
                actions: action_views(old(actions)@),
            }).handle(game@, call@),
            final(self).options() == old(self).options(),
    {
        let mut answer: Option<ToolOutput> = None;
        if same_text(call.name.as_str(), "update_notes") {
            apply_notes(&mut self.notes, call);
            self.stats.notes_updates += 1;
            answer = Some(ToolOutput::Text("notes updated".to_owned()));
        } else if same_text(call.name.as_str(), "play_move") {
            if self.pending_tool_id.is_some() {
                answer =
                Some(
                    ToolOutput::Error(
                        "already accepted a move this turn; call play_move once".to_owned(),
                    ),
                );
            } else {
                match validate(game, call) {
                    Ok(mv) => {
                        proof {
                            law_parsed_points_lie_on_the_board(
                                text_or_empty(call@.input, "point"@),
                            );
                        }
                        self.pending_tool_id = Some(call.id.clone());
                        self.pending_ack = Some(ack_text(mv));
                        self.pending_stub_for = Some(game.move_number());
                        let rationale = match text_member(&call.input, "reasoning") {
                            Some(s) => s,
                            None => String::new(),
                        };
                        assert(rationale@ =~= text_or_empty(call@.input, "reasoning"@));
                        turn.accepted = Some((mv, rationale));
                    },
                    Err(why) => {
                        self.stats.rejections += 1;
                        turn.stat.rejections += 1;
                        answer = Some(ToolOutput::Error(why));
                    },
                }
            }
        } else {
            let mut text = "unknown tool '".to_owned();
            text.append(call.name.as_str());
            text.append("'");
            answer = Some(ToolOutput::Error(text));
        }
        if let Some(output) = answer {
            let action = Action::PushToolResult(call.id.clone(), output);
            proof {
                lemma_action_push(actions@, action);
            }
            actions.push(action);
        }
    }
}

impl Progress {
    /// Handling calls raises no counter by more than one for each.
    proof fn lemma_counts(self, s: GameState, calls: Seq<CallView>)
        requires
            self.turn.stat.rejections + calls.len() <= usize::MAX,
        ensures
            self.handle_all(s, calls).agent.stats.rejections <= self.agent.stats.rejections
                + calls.len(),
            self.handle_all(s, calls).agent.stats.notes_updates <= self.agent.stats.notes_updates
                + calls.len(),
            self.handle_all(s, calls).agent.stats.no_tool_call == self.agent.stats.no_tool_call,
            self.handle_all(s, calls).agent.stats.forced_passes == self.agent.stats.forced_passes,
            self.handle_all(s, calls).turn.stat.rejections <= self.turn.stat.rejections
                + calls.len(),
        decreases calls.len(),
    {
        if calls.len() > 0 {
            self.lemma_counts(s, calls.drop_last());
        }
    }
}

impl Agent {
    /// Take in a reply of the model's: what is to be done to the conversation
    /// once the reply has been appended to it. Every call is handled, so that
    /// none is left unanswered.
    pub fn take_reply(&mut self, game: &Game, turn: &mut Turn, reply: &Reply) -> (r: Vec<Action>)
        requires
            game.wf(),
            game@.history.len() < u32::MAX,
            old(turn)@.stat.has_room_for(reply.usage),
            old(turn)@.stat.api_calls < usize::MAX,
            old(turn)@.stat.rejections + reply.content@.len() <= usize::MAX,
            old(self)@.counts_fit(reply.content@.len() as int + 1),
        ensures
            (Progress { agent: final(self)@, turn: final(turn)@, actions: action_views(r@) })
                == replied(old(self)@, old(turn)@, game@, reply.content@, reply.usage),
            final(self).options() == old(self).options(),
    {
        let ghost content = reply.content@;
        let ghost heard = turn@.heard(content, reply.usage);
        let ghost opts = self.options();
        let ghost agent = self@;
        turn.stat.api_calls = turn.stat.api_calls + 1;
        accumulate(&mut turn.stat, &reply.usage);
        let mut calls: usize = 0;
        let mut i: usize = 0;
        let ghost before = turn@;
        proof {
            assert(content.take(0) =~= Seq::<Block>::empty());
            assert(before.commentary + prose_in(content.take(0)) =~= before.commentary);
            assert(before.reasoning + reasoning_in(content.take(0)) =~= before.reasoning);
        }
        while i < reply.content.len()
            invariant
                content == reply.content@,
                i <= content.len(),
                calls == calls_in(content.take(i as int)).len(),
                calls <= i,
                turn@ == (TurnView {
                    commentary: before.commentary + prose_in(content.take(i as int)),
                    reasoning: before.reasoning + reasoning_in(content.take(i as int)),
                    ..before
                }),
            decreases content.len() - i,
        {
            let ghost wide = content.take(i + 1);
            assert(wide.drop_last() =~= content.take(i as int));
            assert(wide.last() == content[i as int]);
            let ghost prior = turn@;
            match &reply.content[i] {
                Block::Text(t) => {
                    turn.commentary.append(t.as_str());
                    assert(turn@.commentary =~= before.commentary + prose_in(wide));
                },
                Block::Reasoning(summary) => {
                    if let Some(t) = summary {
                        turn.reasoning.append(t.as_str());
                        assert(turn@.reasoning =~= before.reasoning + reasoning_in(wide));
                    }
                },
                Block::ToolUse(_) => {
                    calls += 1;
                },
                Block::Other => {},
            }
            i += 1;
        }
        assert(content.take(i as int) =~= content);
        assert(turn@ == heard);
        let mut actions: Vec<Action> = Vec::new();
        assert(action_views(actions@) =~= Seq::<ActionView>::empty());
        let ghost start = Progress { agent, turn: heard, actions: Seq::empty() };
        if calls == 0 {
            self.stats.no_tool_call = self.stats.no_tool_call + 1;
            let reminder = Action::PushUser(
                "Place a stone by calling the play_move tool. Do that now.".to_owned(),
            );
            proof {
                lemma_action_push(actions@, reminder);
            }
            actions.push(reminder);
            return actions;
        }
        let mut k: usize = 0;
        assert(calls_in(content.take(0)) =~= Seq::<CallView>::empty());
        while k < reply.content.len()
            invariant
                game.wf(),
                game@.history.len() < u32::MAX,
                content == reply.content@,
                k <= content.len(),
                start.turn.stat.rejections + content.len() <= usize::MAX,
                start.agent.counts_fit(content.len() as int + 1),
                self.options() == opts,
                (Progress { agent: self@, turn: turn@, actions: action_views(actions@) })
                    == start.handle_all(game@, calls_in(content.take(k as int))),
            decreases content.len() - k,
        {
            let ghost wide = content.take(k + 1);
            proof {
                assert(wide.drop_last() =~= content.take(k as int));
                assert(wide.last() == content[k as int]);
                lemma_calls_bound(content.take(k as int));
                start.lemma_counts(game@, calls_in(content.take(k as int)));
            }
            if let Block::ToolUse(call) = &reply.content[k] {
                proof {
                    assert(calls_in(wide).drop_last() =~= calls_in(content.take(k as int)));
                    assert(calls_in(wide).last() == call@);
                }
                self.handle_call(game, turn, call, &mut actions);
            }
            k += 1;
        }
        assert(content.take(k as int) =~= content);
        actions
    }

    /// End a turn: with the accepted move, or with a forced pass where the
    /// model is out of attempts. `messages` is the length of the conversation.
    /// The fat block of the turn is handed back for the log.
    pub fn end_turn(&mut self, game: &Game, turn: Turn, messages: usize) -> (r: (
        TurnOutcome,
        String,
    ))
        requires
            game@.history.len() < u32::MAX,
            old(self)@.stats.forced_passes < usize::MAX,
        ensures
            r.0@ == turn@.outcome(old(self)@.max_attempts),
            r.1@ == turn@.fat,
            final(self)@ == old(self)@.after_turn(game@, turn@, messages as nat),
            final(self).options() == old(self).options(),
    {
        let stat = TurnStat { messages, ..turn.stat };
        self.stats.turns.push(stat);
        let outcome = match turn.accepted {
            Some((mv, rationale)) => TurnOutcome {
                mv,
                attempts: turn.stat.api_calls,
                commentary: turn.commentary,
                reasoning: turn.reasoning,
                rationale,
                forced_pass: false,
            },
            None => {
                self.stats.forced_passes = self.stats.forced_passes + 1;
                self.pending_stub_for = Some(game.move_number());
                let rationale = String::new();
                assert(rationale@ =~= Seq::<char>::empty());
                TurnOutcome {
                    mv: Move::Pass,
                    attempts: self.max_attempts,
                    commentary: turn.commentary,
                    reasoning: turn.reasoning,
                    rationale,
                    forced_pass: true,
                }
            },
        };
        (outcome, turn.fat)
    }
}

// ---------------------------------------------------------------------------
// What the words say
// ---------------------------------------------------------------------------

/// An acknowledgement names the move.
pub proof fn law_an_acknowledgement_names_the_move(mv: Move)
    ensures
        ack(mv) == "ok: "@ + move_text(mv),
{
    reveal_strlit("ok: pass");
    reveal_strlit("ok: ");
    reveal_strlit("pass");
    assert("ok: pass"@ =~= "ok: "@ + "pass"@);
}

/// The stub for a move names the move of that number, and the one after it if
/// there is one.
pub proof fn law_a_stub_names_the_moves(history: Seq<MoveRecord>, number: nat)
    requires
        0 < number <= history.len(),
    ensures
        number == history.len() ==> stub(history, number) == "Move "@ + decimal(number)
            + " — you played "@ + move_text(history[number - 1].mv) + "."@,
        number < history.len() ==> stub(history, number) == "Move "@ + decimal(number)
            + " — you played "@ + move_text(history[number - 1].mv) + ". Opponent replied "@
            + move_text(history[number as int].mv) + "."@,
{
}

/// A tier of the scratchpad that is given replaces the old one: whole if it has
/// at most 1200 characters, or 800 for the tactics, and cut there otherwise. A
/// tier that is not given stays.
pub proof fn law_notes_are_replaced_tier_by_tier(notes: NotesView, input: Json)
    ensures
        ({
            let after = notes_after(notes, input);
            &&& text_at(input, "strategy"@) is None ==> after.strategy == notes.strategy
            &&& text_at(input, "tactics"@) is None ==> after.tactics == notes.tactics
            &&& text_at(input, "strategy"@) matches Some(t) ==> if t.len() <= 1200 {
                after.strategy == t
            } else {
                after.strategy == t.take(1200).push('…')
            }
            &&& text_at(input, "tactics"@) matches Some(t) ==> if t.len() <= 800 {
                after.tactics == t
            } else {
                after.tactics == t.take(800).push('…')
            }
        }),
{
}

/// A turn begins with nothing said and nothing counted, under the number of the
/// move that is asked for.
pub proof fn law_a_turn_begins_clean(s: GameState, fat: Seq<char>)
    requires
        s.has_room(),
    ensures
        ({
            let t = TurnView::start(s, fat);
            &&& t.stat.move_number == s.history.len() + 1
            &&& t.stat.api_calls == 0
            &&& t.stat.rejections == 0
            &&& t.stat.messages == 0
            &&& t.stat.billed() == 0
            &&& t.stat.output_tokens == 0
            &&& t.commentary.len() == 0
            &&& t.reasoning.len() == 0
            &&& t.accepted is None
            &&& t.fat == fat
        }),
{
}

} // verus!

use indium::agent::{ack_text, validate, Agent, ThinkingEffort, Turn};
use indium::goban::{Color, Game, Illegal, Move, Point};
use indium::messages::{Action, Block, Reply, ToolCall, ToolOutput};
use indium::prompt::{fat_state_block, SYSTEM_PROMPT};
use indium::stats::{accumulate, Stats, TurnStat, Usage};
use indium::tools::{play_move_tool, update_notes_tool};
use serde_json::Value;

fn pt(s: &str) -> Point {
    Point::parse(s).unwrap()
}

fn object(members: &[(&str, &str)]) -> Value {
    let mut m = serde_json::Map::new();
    for (k, v) in members {
        m.insert(k.to_string(), Value::from(*v));
    }
    Value::Object(m)
}

fn call(id: &str, name: &str, members: &[(&str, &str)]) -> ToolCall {
    ToolCall {
        id: id.to_string(),
        name: name.to_string(),
        input: object(members),
    }
}

fn usage(n: u32) -> Usage {
    Usage {
        input_tokens: n,
        cache_creation_input_tokens: 10 * n,
        cache_read_input_tokens: 100 * n,
        output_tokens: 1000 * n,
    }
}

fn reply(content: Vec<Block>) -> Reply {
    Reply {
        content,
        usage: usage(1),
    }
}

fn black_agent() -> Agent {
    Agent::new(
        "grok-4.5".to_string(),
        Color::Black,
        ThinkingEffort::Medium,
        3,
    )
}

/// A conversation that only keeps what is said, for looking at.
#[derive(Debug, PartialEq, Clone)]
enum Said {
    User(String),
    Assistant(String),
    Result(String, String),
    Refusal(String, String),
}

struct Transcript {
    messages: Vec<Said>,
    volatile: Option<usize>,
}

impl Transcript {
    fn new() -> Self {
        Transcript {
            messages: Vec::new(),
            volatile: None,
        }
    }

    fn demote(&mut self, stub: String) {
        let at = self.volatile.take().unwrap();
        self.messages[at] = Said::User(stub);
    }

    fn perform(&mut self, actions: Vec<Action>) {
        for action in actions {
            match action {
                Action::PushToolResult(id, ToolOutput::Text(t)) => {
                    self.messages.push(Said::Result(id, t))
                }
                Action::PushToolResult(id, ToolOutput::Error(t)) => {
                    self.messages.push(Said::Refusal(id, t))
                }
                Action::PushUser(t) => self.messages.push(Said::User(t)),
                Action::PushVolatileUser(fat) => {
                    assert!(self.volatile.is_none());
                    self.volatile = Some(self.messages.len());
                    self.messages.push(Said::User(fat));
                }
                Action::RotateVolatileUser(stub, fat) => {
                    self.demote(stub);
                    self.volatile = Some(self.messages.len());
                    self.messages.push(Said::User(fat));
                }
                Action::DemoteVolatile(stub) => self.demote(stub),
            }
        }
    }
}

/// The move schema is the first line of defence, so pin its shape: `I` must
/// be excluded and rows must not reach 20.
#[test]
fn play_move_schema_excludes_i_and_caps_rows() {
    let schema = play_move_tool().input_schema;
    let pattern = schema["properties"]["point"]["pattern"].as_str().unwrap();
    assert!(pattern.contains("A-HJ-T"), "I must be excluded: {pattern}");
    assert_eq!(schema["additionalProperties"], false);
    assert_eq!(schema["required"][0], "point");
}

#[test]
fn notes_schema_has_both_tiers() {
    let schema = update_notes_tool().input_schema;
    assert!(schema["properties"]["strategy"].is_object());
    assert!(schema["properties"]["tactics"].is_object());
}

#[test]
fn the_schemas_hold_nothing_else() {
    let expected: Value = serde_json::from_str(
        r#"{
            "type": "object",
            "properties": {
                "point": {
                    "type": "string",
                    "pattern": "^([A-HJ-T](1[0-9]|[1-9])|pass)$",
                    "description": "Coordinate such as Q16, or 'pass'."
                },
                "reasoning": { "type": "string", "description": "One line: why here." }
            },
            "required": ["point", "reasoning"],
            "additionalProperties": false
        }"#,
    )
    .unwrap();
    let tool = play_move_tool();
    assert_eq!(tool.name, "play_move");
    assert_eq!(
        tool.description,
        "Place a stone at a point, or pass. Columns A-T excluding I; rows 1-19."
    );
    assert_eq!(tool.input_schema, expected);
    let expected: Value = serde_json::from_str(
        r#"{
            "type": "object",
            "properties": {
                "strategy": { "type": "string", "description": "Durable plan, e.g. 'playing for influence on the left'." },
                "tactics": { "type": "string", "description": "Current fight only; expires." }
            },
            "additionalProperties": false
        }"#,
    )
    .unwrap();
    let tool = update_notes_tool();
    assert_eq!(tool.name, "update_notes");
    assert_eq!(
        tool.description,
        "Rewrite your scratchpad. Strategy is durable; tactics are per-fight and expected to be \
         replaced often. Both are truncated if long."
    );
    assert_eq!(tool.input_schema, expected);
}

#[test]
fn requests_carry_the_house_rules_and_both_tools() {
    let agent = Agent::new("m".to_string(), Color::White, ThinkingEffort::High, 3);
    let opts = agent.opts();
    assert_eq!(opts.model, "m");
    assert_eq!(opts.system, SYSTEM_PROMPT);
    assert_eq!(opts.max_tokens, 8192);
    assert_eq!(opts.thinking, ThinkingEffort::High);
    let names: Vec<&str> = opts.tools.iter().map(|t| t.name.as_str()).collect();
    assert_eq!(names, vec!["play_move", "update_notes"]);
}

/// Delivery order: the pending play_move is acknowledged before the fat block is
/// rotated, so that no user turn comes with an unanswered tool call.
#[test]
fn deliver_state_ack_then_rotate_fat() {
    let mut conv = Transcript::new();
    let mut agent = black_agent();
    let mut game = Game::new();
    conv.perform(agent.deliver_state(&game, "FAT 1"));
    let mut turn = Turn::new(&game, "FAT 1".to_string());
    conv.messages
        .push(Said::Assistant("tool would be here".to_string()));
    let said = reply(vec![Block::ToolUse(call(
        "toolu_1",
        "play_move",
        &[("point", "Q16")],
    ))]);
    conv.perform(agent.take_reply(&game, &mut turn, &said));
    let (outcome, fat) = agent.end_turn(&game, turn, conv.messages.len());
    assert_eq!(outcome.mv, Move::Play(pt("Q16")));
    assert_eq!(fat, "FAT 1");
    game.play(outcome.mv).unwrap();
    conv.perform(agent.deliver_state(&game, "FAT 2"));

    // Message order: thin user, assistant, stable ack tool_result, new fat.
    assert_eq!(
        conv.messages,
        vec![
            Said::User("Move 1 — you played Q16.".to_string()),
            Said::Assistant("tool would be here".to_string()),
            Said::Result("toolu_1".to_string(), "ok: Q16".to_string()),
            Said::User("FAT 2".to_string()),
        ]
    );
    assert_eq!(conv.volatile, Some(3));
}

#[test]
fn ack_text_formats_play_and_pass() {
    assert_eq!(ack_text(Move::Pass), "ok: pass");
    let p = Point::parse("Q16").unwrap();
    assert_eq!(ack_text(Move::Play(p)), "ok: Q16");
}

#[test]
fn turn_stat_total_input_sums_cached_and_uncached() {
    let s = TurnStat {
        input_tokens: 2,
        cache_creation: 900,
        cache_read: 11_000,
        ..Default::default()
    };
    assert_eq!(s.total_input(), 11_902);
}

#[test]
fn usage_accumulates_field_by_field() {
    let mut stat = TurnStat::default();
    accumulate(&mut stat, &usage(2));
    accumulate(&mut stat, &usage(3));
    assert_eq!(stat.input_tokens, 5);
    assert_eq!(stat.cache_creation, 50);
    assert_eq!(stat.cache_read, 500);
    assert_eq!(stat.output_tokens, 5000);
    assert_eq!(stat.api_calls, 0);
}

#[test]
fn totals_over_turns() {
    let mut stats = Stats::default();
    assert_eq!(stats.total_moves(), 0);
    assert_eq!(stats.total_api_calls(), 0);
    for n in 1..4u32 {
        let mut t = TurnStat {
            api_calls: n as usize,
            ..Default::default()
        };
        accumulate(&mut t, &usage(n));
        stats.turns.push(t);
    }
    assert_eq!(stats.total_moves(), 3);
    assert_eq!(stats.total_api_calls(), 6);
    let (cached, billed) = stats.prompt_tokens();
    assert_eq!((cached, billed), (600, 666));
    assert!(cached <= billed);
}

#[test]
fn proposals_are_judged() {
    let mut game = Game::new();
    game.play(Move::Play(pt("Q16"))).unwrap();
    let ask = |members: &[(&str, &str)]| validate(&game, &call("t", "play_move", members));
    assert_eq!(ask(&[("point", "D4")]), Ok(Move::Play(pt("D4"))));
    assert_eq!(ask(&[("point", " d4 ")]), Ok(Move::Play(pt("D4"))));
    assert_eq!(ask(&[("point", "PaSs")]), Ok(Move::Pass));
    assert_eq!(
        ask(&[("point", "Q16")]),
        Err("Q16: occupied by Black. Pick an empty intersection.".to_string())
    );
    assert_eq!(
        ask(&[("point", "i9")]),
        Err("i9: bad column 'I' (use A-T, no I)".to_string())
    );
    assert_eq!(ask(&[]), Err(": empty coordinate".to_string()));
    assert_eq!(
        ask(&[("where", "D4")]),
        Err(": empty coordinate".to_string())
    );
}

#[test]
fn a_point_that_is_no_string_counts_as_missing() {
    let game = Game::new();
    for input in [Value::Null, Value::from(3), Value::from("D4"), Value::Bool(true)] {
        let c = ToolCall {
            id: "t".to_string(),
            name: "play_move".to_string(),
            input: input.clone(),
        };
        assert_eq!(validate(&game, &c), Err(": empty coordinate".to_string()));
        let mut m = serde_json::Map::new();
        m.insert("point".to_string(), if input.is_string() { Value::Null } else { input });
        let c = ToolCall {
            id: "t".to_string(),
            name: "play_move".to_string(),
            input: Value::Object(m),
        };
        assert_eq!(validate(&game, &c), Err(": empty coordinate".to_string()));
    }
}

#[test]
fn ko_and_suicide_are_named_to_the_model() {
    let mut game = Game::new();
    for mv in ["D3", "E3", "C4", "F4", "D5", "E5", "E4", "T1", "T2", "D4"] {
        game.play(Move::Play(pt(mv))).unwrap();
    }
    assert_eq!(
        validate(&game, &call("t", "play_move", &[("point", "E4")])),
        Err(format!("E4: {}", Illegal::Ko.to_string()))
    );
    let mut game = Game::new();
    for mv in ["A2", "T19", "B1"] {
        game.play(Move::Play(pt(mv))).unwrap();
    }
    assert_eq!(
        validate(&game, &call("t", "play_move", &[("point", "A1")])),
        Err("A1: suicide — that group would have no liberties".to_string())
    );
}

#[test]
fn a_first_turn_pushes_the_fat_block() {
    let game = Game::new();
    let mut agent = black_agent();
    let (turn, actions) = agent.begin_turn(&game);
    assert!(agent.wants_reply(&turn));
    let fat = fat_state_block(&game, Color::Black, agent.notes());
    assert_eq!(actions.len(), 1);
    assert!(matches!(&actions[0], Action::PushVolatileUser(f) if *f == fat));
}

#[test]
fn prose_without_a_call_gets_a_reminder() {
    let game = Game::new();
    let mut agent = black_agent();
    let (mut turn, _) = agent.begin_turn(&game);
    let said = reply(vec![
        Block::Text("Let me ".to_string()),
        Block::Reasoning(Some("hm".to_string())),
        Block::Other,
        Block::Reasoning(None),
        Block::Text("think.".to_string()),
    ]);
    let actions = agent.take_reply(&game, &mut turn, &said);
    assert_eq!(actions.len(), 1);
    assert!(matches!(
        &actions[0],
        Action::PushUser(t) if t == "Place a stone by calling the play_move tool. Do that now."
    ));
    assert_eq!(agent.stats.no_tool_call, 1);
    assert!(agent.wants_reply(&turn));
    let (outcome, _) = agent.end_turn(&game, turn, 7);
    assert_eq!(outcome.commentary, "Let me think.");
    assert_eq!(outcome.reasoning, "hm");
    assert!(outcome.forced_pass);
}

#[test]
fn every_call_in_a_reply_is_answered_or_left_pending() {
    let game = Game::new();
    let mut agent = black_agent();
    let mut conv = Transcript::new();
    let (mut turn, actions) = agent.begin_turn(&game);
    conv.perform(actions);
    let said = reply(vec![
        Block::ToolUse(call("a", "update_notes", &[("strategy", "corners")])),
        Block::ToolUse(call("b", "play_move", &[("point", "Z9")])),
        Block::ToolUse(call("c", "play_move", &[("point", "Q16"), ("reasoning", "star")])),
        Block::ToolUse(call("d", "play_move", &[("point", "D4")])),
        Block::ToolUse(call("e", "look_up", &[])),
    ]);
    conv.perform(agent.take_reply(&game, &mut turn, &said));
    assert_eq!(
        conv.messages[1..],
        [
            Said::Result("a".to_string(), "notes updated".to_string()),
            Said::Refusal(
                "b".to_string(),
                "Z9: bad column 'Z' (use A-T, no I)".to_string()
            ),
            Said::Refusal(
                "d".to_string(),
                "already accepted a move this turn; call play_move once".to_string()
            ),
            Said::Refusal("e".to_string(), "unknown tool 'look_up'".to_string()),
        ]
    );
    assert_eq!(agent.notes().strategy, "corners");
    assert_eq!(agent.notes().tactics, "");
    assert_eq!(agent.stats.notes_updates, 1);
    assert_eq!(agent.stats.rejections, 1);
    assert!(!agent.wants_reply(&turn));
    let (outcome, _) = agent.end_turn(&game, turn, 9);
    assert_eq!(outcome.mv, Move::Play(pt("Q16")));
    assert_eq!(outcome.rationale, "star");
    assert_eq!(outcome.attempts, 1);
    assert!(!outcome.forced_pass);
    let stat = agent.stats.turns[0];
    assert_eq!(stat.messages, 9);
    assert_eq!(stat.rejections, 1);
    assert_eq!(stat.api_calls, 1);
    assert_eq!(stat.move_number, 1);
    assert_eq!(stat.total_input(), 111);

    // The call that was left pending is answered at the end.
    conv.perform(agent.finish(conv.volatile.is_some()));
    assert_eq!(
        conv.messages[5..],
        [Said::Result("c".to_string(), "game over".to_string())]
    );
    assert_eq!(conv.volatile, None);
    assert_eq!(conv.messages[0], Said::User("game over".to_string()));
    assert!(agent.finish(false).is_empty());
}

#[test]
fn attempts_run_out_into_a_forced_pass() {
    let mut game = Game::new();
    let mut agent = black_agent();
    let mut conv = Transcript::new();
    let (mut turn, actions) = agent.begin_turn(&game);
    conv.perform(actions);
    let mut replies = 0;
    while agent.wants_reply(&turn) {
        replies += 1;
        let said = reply(vec![Block::ToolUse(call("x", "play_move", &[]))]);
        conv.perform(agent.take_reply(&game, &mut turn, &said));
    }
    assert_eq!(replies, 3);
    let (outcome, _) = agent.end_turn(&game, turn, conv.messages.len());
    assert_eq!(outcome.mv, Move::Pass);
    assert!(outcome.forced_pass);
    assert_eq!(outcome.attempts, 3);
    assert_eq!(outcome.rationale, "");
    assert_eq!(agent.stats.forced_passes, 1);
    assert_eq!(agent.stats.rejections, 3);
    assert_eq!(agent.stats.turns[0].rejections, 3);
    game.play(outcome.mv).unwrap();
    game.play(Move::Play(pt("D4"))).unwrap();

    // Nothing is pending but the stub.
    conv.perform(agent.deliver_state(&game, "FAT 2"));
    assert_eq!(
        conv.messages[0],
        Said::User("Move 1 — you played pass. Opponent replied D4.".to_string())
    );
    assert_eq!(conv.messages.last(), Some(&Said::User("FAT 2".to_string())));
}

#[test]
fn no_attempts_at_all_is_a_pass_at_once() {
    let game = Game::new();
    let mut agent = Agent::new("m".to_string(), Color::Black, ThinkingEffort::Low, 0);
    let (turn, _) = agent.begin_turn(&game);
    assert!(!agent.wants_reply(&turn));
    let (outcome, _) = agent.end_turn(&game, turn, 1);
    assert!(outcome.forced_pass);
    assert_eq!(outcome.attempts, 0);
}

#[test]
fn one_fat_block_over_many_turns() {
    let mut game = Game::new();
    let mut agent = black_agent();
    let mut conv = Transcript::new();
    let moves = [("D4", "Q16"), ("D16", "Q4"), ("K10", "K4")];
    for (i, (own, other)) in moves.iter().enumerate() {
        let (mut turn, actions) = agent.begin_turn(&game);
        conv.perform(actions);
        assert_eq!(conv.volatile, Some(conv.messages.len() - 1));
        let id = format!("toolu_{i}");
        let said = reply(vec![Block::ToolUse(call(&id, "play_move", &[("point", own)]))]);
        conv.messages.push(Said::Assistant(own.to_string()));
        conv.perform(agent.take_reply(&game, &mut turn, &said));
        let (outcome, _) = agent.end_turn(&game, turn, conv.messages.len());
        game.play(outcome.mv).unwrap();
        game.play(Move::Play(pt(other))).unwrap();
    }
    conv.perform(agent.finish(conv.volatile.is_some()));
    let user = |t: &str| Said::User(t.to_string());
    let said = |t: &str| Said::Assistant(t.to_string());
    let result = |id: &str, t: &str| Said::Result(id.to_string(), t.to_string());
    assert_eq!(
        conv.messages,
        vec![
            user("Move 1 — you played D4. Opponent replied Q16."),
            said("D4"),
            result("toolu_0", "ok: D4"),
            user("Move 3 — you played D16. Opponent replied Q4."),
            said("D16"),
            result("toolu_1", "ok: D16"),
            user("game over"),
            said("K10"),
            result("toolu_2", "game over"),
        ]
    );
    assert_eq!(agent.stats.total_moves(), 3);
    assert_eq!(agent.stats.total_api_calls(), 3);
}

#[test]
fn only_the_tiers_that_are_given_are_rewritten() {
    let game = Game::new();
    let mut agent = black_agent();
    let (mut turn, _) = agent.begin_turn(&game);
    let long = "x".repeat(900);
    let said = reply(vec![
        Block::ToolUse(call("a", "update_notes", &[("strategy", "s"), ("tactics", &long)])),
        Block::ToolUse(call("b", "update_notes", &[])),
    ]);
    agent.take_reply(&game, &mut turn, &said);
    assert_eq!(agent.notes().strategy, "s");
    assert_eq!(agent.notes().tactics, format!("{}…", "x".repeat(800)));
    assert_eq!(agent.stats.notes_updates, 2);
}

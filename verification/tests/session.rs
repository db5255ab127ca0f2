use indium::agent::{ThinkingEffort, TurnOutcome};
use indium::bot::{bot_move, Rng};
use indium::goban::{Color, Game, Illegal, Move, Point};
use indium::options::{Opts, Provider};
use indium::report::{report, Figures};
use indium::session::{
    apply_model_move, captured_line, describe_outcome, describe_rejection, describe_turn,
    first_line, greet, next_step, read_command, Command, Next,
};
use indium::stats::{Stats, TurnStat};

fn pt(s: &str) -> Point {
    Point::parse(s).unwrap()
}

fn game_of(moves: &[&str]) -> Game {
    let mut g = Game::new();
    for mv in moves {
        g.play(Move::Play(pt(mv))).unwrap();
    }
    g
}

#[test]
fn the_players_alternate_until_the_end() {
    let mut g = Game::new();
    assert_eq!(next_step(&g, 0), Next::Opponent);
    g.play(Move::Play(pt("D4"))).unwrap();
    assert_eq!(next_step(&g, 0), Next::Model);
    assert_eq!(next_step(&g, 1), Next::Enough);
    assert_eq!(next_step(&g, 2), Next::Model);
    g.play(Move::Pass).unwrap();
    g.play(Move::Pass).unwrap();
    assert_eq!(next_step(&g, 1), Next::Over);
}

#[test]
fn a_refused_model_move_becomes_a_pass() {
    let mut g = game_of(&["D4"]);
    let (refused, played) = apply_model_move(&mut g, Move::Play(pt("D4")));
    assert_eq!(refused, Some(Illegal::Occupied(Color::Black)));
    assert_eq!(played.unwrap().mv, Move::Pass);
    let (refused, played) = apply_model_move(&mut g, Move::Play(pt("Q16")));
    assert_eq!(refused, None);
    assert_eq!(played.unwrap().mv, Move::Play(pt("Q16")));
    g.resign(Color::Black);
    let (refused, played) = apply_model_move(&mut g, Move::Pass);
    assert_eq!(refused, Some(Illegal::GameOver));
    assert_eq!(played, Err(Illegal::GameOver));
}

#[test]
fn typed_lines_are_understood() {
    let g = game_of(&["D4", "Q16"]);
    assert!(matches!(read_command(&g, "  \n"), Command::Again(None)));
    assert!(matches!(read_command(&g, "QUIT\n"), Command::Resign));
    assert!(matches!(read_command(&g, "resign"), Command::Resign));
    assert!(matches!(read_command(&g, " Pass "), Command::Make(Move::Pass)));
    assert!(matches!(
        read_command(&g, "c3\r\n"),
        Command::Make(Move::Play(p)) if p == pt("C3")
    ));
    assert!(matches!(
        read_command(&g, "d4"),
        Command::Again(Some(t)) if t == "  D4: occupied by Black"
    ));
    assert!(matches!(
        read_command(&g, "i1"),
        Command::Again(Some(t)) if t == "  bad column 'I' (use A-T, no I)"
    ));
}

#[test]
fn first_lines_are_cut() {
    assert_eq!(first_line("", 3), "");
    assert_eq!(first_line("abc", 3), "abc");
    assert_eq!(first_line("abcd", 3), "abc…");
    assert_eq!(first_line("ab\r\ncd", 3), "ab");
    assert_eq!(first_line("\ncd", 3), "");
    assert_eq!(first_line("日本語です", 4), "日本語で…");
    assert_eq!(first_line("x", 0), "…");
}

fn outcome(rationale: &str, commentary: &str, reasoning: &str, forced: bool) -> TurnOutcome {
    TurnOutcome {
        mv: Move::Pass,
        attempts: 3,
        commentary: commentary.to_string(),
        reasoning: reasoning.to_string(),
        rationale: rationale.to_string(),
        forced_pass: forced,
    }
}

#[test]
fn a_turn_is_told() {
    let g = game_of(&["D5", "D4", "C4", "T1", "E4", "T2", "D3"]);
    let taking = g.history()[6];
    assert_eq!(
        describe_turn(&outcome(" why\nnot ", "talk", "think", false), &taking),
        "plays D3\n  captured 1 stone(s)\n  \"why\"\n"
    );
    let quiet = g.history()[0];
    assert_eq!(
        describe_turn(&outcome(" ", "\n", "think", false), &quiet),
        "plays D5\n  \"think\"\n"
    );
    assert_eq!(
        describe_turn(&outcome("", "talk", "think", true), &quiet),
        "plays D5\n  [forced pass after 3 attempts]\n  \"talk\"\n"
    );
    assert_eq!(describe_turn(&outcome("", "", "", false), &quiet), "plays D5\n");
    let long = "y".repeat(161);
    assert_eq!(
        describe_turn(&outcome(&long, "", "", false), &quiet),
        format!("plays D5\n  \"{}…\"\n", "y".repeat(160))
    );
    assert_eq!(captured_line(0), "");
    assert_eq!(captured_line(2), "  captured 2 stone(s)\n");
}

#[test]
fn a_turn_is_logged_and_a_refusal_told() {
    assert_eq!(
        describe_outcome(&outcome("r", "c", "t", true), Move::Pass),
        "played pass (attempts 3, forced_pass true)\nrationale: r\ncommentary: c\nreasoning: t"
    );
    assert_eq!(
        describe_outcome(&outcome("", "", "", false), Move::Play(pt("Q16"))),
        "played Q16 (attempts 3, forced_pass false)\nrationale: \ncommentary: \nreasoning: "
    );
    assert_eq!(
        describe_rejection(Move::Play(pt("D4")), Illegal::GameOver),
        "\n  [referee rejected D4 at apply time: the game is already over]\n"
    );
    assert_eq!(
        greet("m", "xai"),
        "indium — you are Black (X), m (xai) is White (O)\n\
         commands: a coordinate like Q16, or 'pass', 'resign', 'quit'\n\n"
    );
}

fn figures() -> Figures {
    Figures {
        rejections: "12.5".to_string(),
        per_move: "20".to_string(),
        cached: "65".to_string(),
    }
}

#[test]
fn a_report_without_turns_is_short() {
    let mut g = game_of(&["D4"]);
    g.resign(Color::Black);
    let text = report(&g, &Opts::default(), "m", &Stats::default(), 0, &figures());
    assert_eq!(
        text,
        "=== result ===\nBlack resigned.\ncaptures: Black 0, White 0\n\
         provisional area score (no dead-stone removal): Black 361, White 0\n\
         \n=== loop telemetry ===\n\
         provider:           anthropic\n\
         model:              m\n\
         thinking:           medium\n\
         model moves:        0\n\
         api calls:          0\n\
         illegal proposals:  0 (12.5% of calls)\n\
         no-tool-call turns: 0\n\
         forced passes:      0\n\
         notes updates:      0\n\
         final messages:     0\n"
    );
}

#[test]
fn a_report_shows_how_the_context_grew() {
    let g = game_of(&["D4", "Q16"]);
    let mut stats = Stats {
        rejections: 1,
        no_tool_call: 2,
        forced_passes: 3,
        notes_updates: 4,
        ..Default::default()
    };
    for n in [2u32, 4, 6] {
        stats.turns.push(TurnStat {
            move_number: n,
            messages: 100 * n as usize,
            api_calls: 1,
            rejections: 0,
            input_tokens: n,
            cache_creation: 10,
            cache_read: 1000,
            output_tokens: 1234567,
        });
    }
    let opts = Opts {
        provider: Provider::Xai,
        thinking: ThinkingEffort::Low,
        ..Default::default()
    };
    let text = report(&g, &opts, "house", &stats, 17, &figures());
    let at = text.find("\n=== context growth").unwrap();
    assert_eq!(
        &text[at..],
        format!(
            "\n=== context growth (the thing the pattern exists to keep flat) ===\n\
             {:>5}  {:>5}  {:>9}  {:>9}  {:>9}  {:>7}\n\
             {:>5}  {:>5}  {:>9}  {:>9}  {:>9}  {:>7}\n\
             {:>5}  {:>5}  {:>9}  {:>9}  {:>9}  {:>7}\n\
             {:>5}  {:>5}  {:>9}  {:>9}  {:>9}  {:>7}\n\
             \ncontext grew 4 tokens over 2 model moves = 20 tok/move\n\
             (a naive board-per-turn loop would grow by the full fat block, ~700-900/move)\n\
             prompt cache served 3000/3042 input tokens (65%)\n\
             cache: xAI automatic prefix caching (prompt_cache_key); demotion edits earlier \
             messages so hit rate is lower than pure-append\n",
            "move", "msgs", "total_in", "cache_rd", "uncached", "out", 2, 200, 1012, 1000, 12,
            1234567, 4, 400, 1014, 1000, 14, 1234567, 6, 600, 1016, 1000, 16, 1234567
        )
    );
    assert!(text.contains("provider:           xai\nmodel:              grok-4.5\n"));
    assert!(text.contains("thinking:           low\nmodel moves:        3\napi calls:          3\n"));
    assert!(text.contains("no-tool-call turns: 2\nforced passes:      3\nnotes updates:      4\n"));
    assert!(text.contains("final messages:     17\n"));
}

#[test]
fn nothing_is_said_of_a_cache_that_was_not_used() {
    let mut stats = Stats::default();
    stats.turns.push(TurnStat::default());
    let text = report(&Game::new(), &Opts::default(), "m", &stats, 1, &figures());
    assert!(!text.contains("prompt cache served"));
    assert!(text.contains("over 1 model moves"));
    assert!(text.ends_with("cache: hydrogen automatic stable-prefix caching (volatile mark)\n"));
}

#[test]
fn a_context_may_shrink() {
    let turn = |n: u32| TurnStat {
        input_tokens: n,
        cache_creation: 1,
        ..Default::default()
    };
    let mut stats = Stats::default();
    stats.turns.push(turn(1000));
    stats.turns.push(turn(5000));
    stats.turns.push(turn(877));
    let told = |stats: &Stats| report(&Game::new(), &Opts::default(), "m", stats, 1, &figures());
    assert!(told(&stats).contains("\ncontext grew -123 tokens over 2 model moves = 20 tok/move\n"));
    stats.turns.truncate(1);
    assert!(told(&stats).contains("\ncontext grew 0 tokens over 1 model moves"));
}

#[test]
fn a_finished_game_refuses_every_move() {
    let mut g = game_of(&["D4"]);
    let before = g.render_board();
    g.resign(Color::Black);
    let far = Move::Play(Point::new(usize::MAX, 7));
    for mv in [Move::Pass, Move::Play(pt("D4")), Move::Play(pt("Q16")), far] {
        assert_eq!(g.play(mv), Err(Illegal::GameOver));
        assert_eq!(g.validate(mv), Err(Illegal::GameOver));
        assert!(!g.is_legal(mv));
        assert_eq!(
            apply_model_move(&mut g, mv),
            (Some(Illegal::GameOver), Err(Illegal::GameOver))
        );
    }
    assert_eq!(g.render_board(), before);
    assert_eq!(g.to_move(), Color::White);
    assert_eq!(g.history().len(), 1);
    assert_eq!(g.resigned_by(), Some(Color::Black));
}

/// The generator written down once more, step by step.
struct Reference(u64);

impl Reference {
    fn next(&mut self) -> u32 {
        self.0 ^= self.0 >> 12;
        self.0 ^= self.0 << 25;
        self.0 ^= self.0 >> 27;
        (self.0.wrapping_mul(0x2545_F491_4F6C_DD1D) >> 32) as u32
    }
}

#[test]
fn the_generator_is_reproducible() {
    for seed in [1u64, 2, 12345, u64::MAX] {
        let mut a = Rng::new(seed);
        let mut b = Reference(seed);
        for _ in 0..1000 {
            assert_eq!(a.next_u32(), b.next());
            assert_ne!(b.0, 0);
        }
    }
    assert_eq!(Rng::new(0).next_u32(), Rng::new(1).next_u32());
    assert_eq!(Rng::new(1).next_u32(), 1_206_177_355);
}

#[test]
fn the_bot_plays_legal_moves_mostly_in_contact() {
    let mut g = Game::new();
    let mut rng = Rng::new(1);
    let mut touching = 0;
    for _ in 0..60 {
        if g.is_over() {
            break;
        }
        let mv = bot_move(&g, &mut rng);
        assert!(g.is_legal(mv));
        if let Move::Play(p) = mv {
            let near = |q: Point| {
                q != p && q.row.abs_diff(p.row) <= 1 && q.col.abs_diff(p.col) <= 1
            };
            let stones: Vec<Point> = g.groups().iter().flat_map(|x| x.stones.clone()).collect();
            if stones.iter().any(|q| near(*q)) {
                touching += 1;
            }
        }
        g.play(mv).unwrap();
    }
    assert!(touching > 30);
}

#[test]
fn the_bot_draws_from_the_legal_moves() {
    let g = game_of(&["D4"]);
    for seed in 1..20u64 {
        let mut r = Reference(seed);
        let legal = g.legal_moves();
        let contact: Vec<Point> = ["C5", "D5", "E5", "C4", "E4", "C3", "D3", "E3"]
            .iter()
            .map(|s| pt(s))
            .collect();
        let pool = if r.next() % 4 != 0 { &contact } else { &legal };
        let expected = pool[r.next() as usize % pool.len()];
        assert_eq!(bot_move(&g, &mut Rng::new(seed)), Move::Play(expected));
    }
    let mut over = Game::new();
    over.resign(Color::White);
    assert_eq!(bot_move(&over, &mut Rng::new(1)), Move::Pass);
}

use indium::goban::{Color, Game, Move, Point};
use indium::prompt::{
    fat_state_block, recent_moves, thin_stub, truncate, Notes, SYSTEM_PROMPT,
};

fn pt(s: &str) -> Point {
    Point::parse(s).unwrap()
}

#[test]
fn fat_block_reports_atari_with_ownership_and_liberties() {
    let mut g = Game::new();
    // Put the black D4 stone in atari.
    for mv in ["D4", "D5", "T1", "D3", "T2", "C4"] {
        g.play(Move::Play(pt(mv))).unwrap();
    }
    let text = fat_state_block(&g, Color::Black, &Notes::default());
    let atari_line = text
        .lines()
        .find(|l| l.starts_with("Groups in atari"))
        .unwrap();
    assert!(atari_line.contains("D4"), "got: {atari_line}");
    assert!(atari_line.contains("yours"), "got: {atari_line}");
    assert!(atari_line.contains("E4"), "liberty listed: {atari_line}");
}

#[test]
fn fat_block_reports_no_atari_on_a_quiet_board() {
    let mut g = Game::new();
    g.play(Move::Play(pt("Q16"))).unwrap();
    let text = fat_state_block(&g, Color::White, &Notes::default());
    assert!(text.contains("Groups in atari (1 liberty): none"));
    assert!(text.contains("Ko point (illegal this turn): none"));
    assert!(text.contains("You are White"));
}

#[test]
fn fat_block_surfaces_the_ko_point() {
    let mut g = Game::new();
    for mv in ["D3", "E3", "C4", "F4", "D5", "E5", "E4", "T1", "T2", "D4"] {
        g.play(Move::Play(pt(mv))).unwrap();
    }
    let text = fat_state_block(&g, Color::Black, &Notes::default());
    assert!(text.contains("Ko point (illegal this turn): E4"), "{text}");
}

/// The whole cost argument rests on the fat block being big and the stub
/// being tiny. Guard the ratio so a careless edit cannot erase it.
#[test]
fn thin_stub_is_far_smaller_than_the_fat_block() {
    let g = Game::new();
    let fat = fat_state_block(&g, Color::Black, &Notes::default());
    let thin = thin_stub(47, Move::Play(pt("Q3")), Some(Move::Play(pt("R4"))));
    assert!(fat.len() > 900, "fat block was {} chars", fat.len());
    assert!(thin.len() < 80, "thin stub was {} chars", thin.len());
    assert_eq!(thin, "Move 47 — you played Q3. Opponent replied R4.");
}

#[test]
fn notes_are_capped() {
    let mut n = Notes::default();
    n.set_strategy(&"a".repeat(5000));
    n.set_tactics(&"b".repeat(5000));
    assert!(n.strategy.len() <= Notes::STRATEGY_CAP + 4);
    assert!(n.tactics.len() <= Notes::TACTICS_CAP + 4);
    assert!(n.strategy.ends_with('…'));
}

#[test]
fn recent_moves_lists_captures_and_truncates_to_six() {
    let mut g = Game::new();
    for mv in ["D5", "D4", "C4", "T1", "E4", "T2", "D3"] {
        g.play(Move::Play(pt(mv))).unwrap();
    }
    let text = recent_moves(&g, 6);
    assert!(text.contains("(captured 1)"), "{text}");
    assert_eq!(text.matches('.').count(), 6, "six entries: {text}");
    assert!(!text.contains("1. Black D5"), "oldest dropped: {text}");
}

#[test]
fn the_fat_block_of_an_opening_move() {
    let mut g = Game::new();
    g.play(Move::Play(pt("Q16"))).unwrap();
    let mut notes = Notes::default();
    notes.set_tactics("hold the corner");
    let text = fat_state_block(&g, Color::White, &notes);
    let expected = format!(
        "{}\n\n--- position analysis (authoritative) ---\nMove number: 2\nYou are White (O).\n\
         Groups in atari (1 liberty): none\nGroups at 2 liberties:       none\n\
         Ko point (illegal this turn): none\nCaptures so far: Black 0, White 0\n\
         Recent moves: 1. Black Q16\n\nYour scratchpad:\n  strategy: (none yet)\n  \
         tactics:  hold the corner\n\nYou are White and it is your turn. \
         Call play_move with your chosen point.",
        g.render_board()
    );
    assert_eq!(text, expected);
}

#[test]
fn groups_are_listed_in_dictionary_order_with_their_liberties() {
    let mut g = Game::new();
    for mv in ["A1", "T19", "A2", "Q16"] {
        g.play(Move::Play(pt(mv))).unwrap();
    }
    let text = fat_state_block(&g, Color::White, &Notes::default());
    let line = text
        .lines()
        .find(|l| l.starts_with("Groups at 2 liberties:"))
        .unwrap();
    assert_eq!(
        line,
        "Groups at 2 liberties:       T19 (yours, 1 stone, liberties: S19,T18)"
    );
    g.play(Move::Play(pt("B2"))).unwrap();
    g.play(Move::Play(pt("A3"))).unwrap();
    let text = fat_state_block(&g, Color::White, &Notes::default());
    let line = text
        .lines()
        .find(|l| l.starts_with("Groups at 2 liberties:"))
        .unwrap();
    assert_eq!(
        line,
        "Groups at 2 liberties:       A3 (yours, 1 stone, liberties: A4,B3); \
         T19 (yours, 1 stone, liberties: S19,T18)"
    );
}

#[test]
fn a_group_is_named_by_its_highest_stone() {
    let mut g = Game::new();
    for mv in ["A1", "B2", "A2", "Q16", "T1", "A3"] {
        g.play(Move::Play(pt(mv))).unwrap();
    }
    let text = fat_state_block(&g, Color::Black, &Notes::default());
    assert!(text.contains("Groups in atari (1 liberty): A2 (yours, 2 stones, liberties: B1)\n"));
}

#[test]
fn no_moves_are_recent_on_an_empty_board() {
    assert_eq!(recent_moves(&Game::new(), 6), "none (empty board)");
}

#[test]
fn recent_moves_name_passes() {
    let mut g = Game::new();
    g.play(Move::Play(pt("D4"))).unwrap();
    g.play(Move::Pass).unwrap();
    assert_eq!(recent_moves(&g, 6), "1. Black D4, 2. White pass");
    assert_eq!(recent_moves(&g, 1), "2. White pass");
    assert_eq!(recent_moves(&g, 0), "");
}

#[test]
fn stubs_without_a_reply() {
    assert_eq!(thin_stub(3, Move::Pass, None), "Move 3 — you played pass.");
    assert_eq!(
        thin_stub(3, Move::Play(pt("A1")), Some(Move::Pass)),
        "Move 3 — you played A1. Opponent replied pass."
    );
    let longest = thin_stub(u32::MAX, Move::Play(pt("T19")), Some(Move::Play(pt("T18"))));
    assert!(longest.len() < 80);
}

#[test]
fn texts_are_cut_between_characters() {
    assert_eq!(truncate("abc", 3), "abc");
    assert_eq!(truncate("abcd", 3), "abc…");
    assert_eq!(truncate("aé", 1), "a…");
    assert_eq!(truncate("aé", 2), "aé");
    assert_eq!(truncate("日本語", 2), "日本…");
    assert_eq!(truncate("日本", 2), "日本");
    assert_eq!(truncate("𝄞𝄞", 1), "𝄞…");
    assert_eq!(truncate("x", 0), "…");
    assert_eq!(truncate("", 0), "");
}

#[test]
fn notes_that_fit_are_kept_whole() {
    let mut n = Notes::default();
    let exact = "a".repeat(Notes::STRATEGY_CAP);
    n.set_strategy(&exact);
    assert_eq!(n.strategy, exact);
    n.set_tactics("é");
    assert_eq!(n.tactics, "é");
    assert_eq!(n.render(), format!("  strategy: {exact}\n  tactics:  é"));
    assert_eq!(
        Notes::default().render(),
        "  strategy: (none yet)\n  tactics:  (none yet)"
    );
}

#[test]
fn notes_keep_to_their_caps_in_characters() {
    let mut n = Notes::default();
    let short = "é".repeat(500);
    n.set_tactics(&short);
    assert_eq!(n.tactics, short);
    assert_eq!(n.strategy, "");
    n.set_strategy(&"é".repeat(5000));
    n.set_tactics(&"日".repeat(801));
    assert_eq!(n.strategy.chars().count(), 1200 + 1);
    assert_eq!(n.tactics, format!("{}…", "日".repeat(800)));
    assert!(n.strategy.ends_with('…'));
}

#[test]
fn the_system_prompt_sets_out_the_rules_of_the_house() {
    assert!(SYSTEM_PROMPT.starts_with("You are playing Go on a 19x19 board"));
    assert!(SYSTEM_PROMPT.ends_with("Keep your groups connected and out of atari."));
    assert_eq!(SYSTEM_PROMPT.matches("\n\n").count(), 4);
}

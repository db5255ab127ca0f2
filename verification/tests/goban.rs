use indium::goban::{Color, Game, Illegal, Move, Point, COLS, SIZE};

fn pt(s: &str) -> Point {
    Point::parse(s).unwrap()
}

fn play_all(moves: &[&str]) -> Game {
    let mut g = Game::new();
    for mv in moves {
        if *mv == "pass" {
            g.play(Move::Pass).unwrap();
        } else {
            g.play(Move::Play(pt(mv))).unwrap();
        }
    }
    g
}

/// The I-skip is the classic off-by-one: J must be the 9th column, and the
/// letter I must not parse at all.
#[test]
fn coordinates_skip_i_and_round_trip() {
    assert_eq!(COLS.len(), SIZE);
    assert_eq!(pt("A1"), Point::new(18, 0));
    assert_eq!(pt("T19"), Point::new(0, 18));
    assert_eq!(pt("J10").col, 8);
    assert_eq!(pt("H10").col, 7);
    assert!(Point::parse("I10").is_err());
    for s in ["A1", "T19", "Q16", "D4", "K10", "J1"] {
        assert_eq!(pt(s).to_string(), s);
    }
}

#[test]
fn out_of_range_rows_are_rejected() {
    assert!(Point::parse("A0").is_err());
    assert!(Point::parse("A20").is_err());
    assert!(Point::parse("").is_err());
    assert!(Point::parse("QQ").is_err());
}

/// Rendered rows must line up with the coordinate that produced them, or
/// the model reads stones off the wrong row.
#[test]
fn render_places_stone_on_the_labeled_row() {
    let mut g = Game::new();
    g.play(Move::Play(pt("Q16"))).unwrap();
    let text = g.render_board();
    let row16 = text
        .lines()
        .find(|l| l.starts_with("16 "))
        .expect("row 16 present");
    // Q is the 16th column (0-based 15) once I is skipped.
    let cells: Vec<&str> = row16
        .trim_start_matches("16 ")
        .trim()
        .split_whitespace()
        .collect();
    assert_eq!(cells.len(), SIZE + 1); // 19 cells + trailing row label
    assert_eq!(cells[15], "X");
    assert_eq!(cells[SIZE], "16");
}

#[test]
fn capture_removes_group_and_counts_stones() {
    let mut g = Game::new();
    // Black surrounds a lone white stone at D4.
    g.play(Move::Play(pt("D5"))).unwrap(); // B
    g.play(Move::Play(pt("D4"))).unwrap(); // W
    g.play(Move::Play(pt("C4"))).unwrap(); // B
    g.play(Move::Play(pt("T1"))).unwrap(); // W elsewhere
    g.play(Move::Play(pt("E4"))).unwrap(); // B
    g.play(Move::Play(pt("T2"))).unwrap(); // W elsewhere
    let rec = g.play(Move::Play(pt("D3"))).unwrap(); // B captures
    assert_eq!(rec.captured, 1);
    assert_eq!(g.at(pt("D4")), None);
    assert_eq!(g.captures(Color::Black), 1);
}

/// The order matters: captures resolve before the suicide check, so a
/// stone placed with zero liberties of its own is legal when it kills.
#[test]
fn capturing_move_is_legal_even_with_no_liberties_of_its_own() {
    let mut g = Game::new();
    // B A3, W A2, B B3, W B1, B C2, W B2, B C1
    for mv in ["A3", "A2", "B3", "B1", "C2", "B2", "C1"] {
        g.play(Move::Play(pt(mv))).unwrap();
    }
    // White A2/B1/B2 is now in atari with its last liberty at A1.
    let white = g.group_at(pt("A2")).unwrap();
    assert_eq!(white.stones.len(), 3);
    assert_eq!(white.liberties, vec![pt("A1")]);

    g.play(Move::Play(pt("T19"))).unwrap(); // W tenuki
    let rec = g.play(Move::Play(pt("A1"))).unwrap(); // B fills its own last liberty
    assert_eq!(rec.captured, 3);
    assert_eq!(g.at(pt("A1")), Some(Color::Black));
    assert_eq!(g.captures(Color::Black), 3);
}

#[test]
fn suicide_error_is_reported() {
    let mut g = Game::new();
    g.play(Move::Play(pt("A2"))).unwrap(); // B
    g.play(Move::Play(pt("T19"))).unwrap(); // W
    g.play(Move::Play(pt("B1"))).unwrap(); // B
    // White to move; A1 is a true suicide.
    assert_eq!(g.play(Move::Play(pt("A1"))), Err(Illegal::Suicide));
}

#[test]
fn occupied_point_is_rejected_with_the_occupying_color() {
    let mut g = Game::new();
    g.play(Move::Play(pt("Q16"))).unwrap();
    assert_eq!(
        g.play(Move::Play(pt("Q16"))),
        Err(Illegal::Occupied(Color::Black))
    );
}

/// Simple ko: after a one-stone recapture the taken point is closed for
/// exactly one move.
#[test]
fn ko_forbids_immediate_recapture_then_reopens() {
    let mut g = Game::new();
    // Standard ko shape around D4/E4.
    for (mv, _) in [
        ("D3", ()), // B
        ("E3", ()), // W
        ("C4", ()), // B
        ("F4", ()), // W
        ("D5", ()), // B
        ("E5", ()), // W
        ("E4", ()), // B  <- black stone that white will capture
        ("T1", ()), // W elsewhere
        ("T2", ()), // B elsewhere
        ("D4", ()), // W captures E4
    ] {
        g.play(Move::Play(pt(mv))).unwrap();
    }
    assert_eq!(g.at(pt("E4")), None);
    assert_eq!(g.ko_point(), Some(pt("E4")));
    // Black may not retake at once.
    assert_eq!(g.play(Move::Play(pt("E4"))), Err(Illegal::Ko));
    // Play elsewhere, and the ko clears.
    g.play(Move::Play(pt("T3"))).unwrap(); // B
    g.play(Move::Play(pt("T4"))).unwrap(); // W
    assert_eq!(g.ko_point(), None);
    assert!(g.play(Move::Play(pt("E4"))).is_ok());
}

#[test]
fn liberties_and_atari_detection() {
    let mut g = Game::new();
    g.play(Move::Play(pt("D4"))).unwrap(); // B
    assert_eq!(g.group_at(pt("D4")).unwrap().liberties.len(), 4);
    g.play(Move::Play(pt("D5"))).unwrap(); // W
    g.play(Move::Play(pt("T1"))).unwrap(); // B
    g.play(Move::Play(pt("D3"))).unwrap(); // W
    g.play(Move::Play(pt("T2"))).unwrap(); // B
    g.play(Move::Play(pt("C4"))).unwrap(); // W
    let g4 = g.group_at(pt("D4")).unwrap();
    assert_eq!(g4.liberties.len(), 1);
    assert_eq!(g4.liberties[0], pt("E4"));
}

#[test]
fn two_passes_end_the_game() {
    let mut g = Game::new();
    g.play(Move::Pass).unwrap();
    assert!(!g.is_over());
    g.play(Move::Pass).unwrap();
    assert!(g.is_over());
    assert_eq!(g.play(Move::Play(pt("D4"))), Err(Illegal::GameOver));
}

#[test]
fn area_score_counts_surrounded_empty_region() {
    let mut g = Game::new();
    // Black walls off the A19/B19 corner; White takes stones far away so
    // the rest of the board borders both colors and stays neutral.
    for (b, w) in [("A18", "T1"), ("B18", "T2"), ("C19", "T3")] {
        g.play(Move::Play(pt(b))).unwrap();
        g.play(Move::Play(pt(w))).unwrap();
    }
    let (black, white) = g.area_score();
    // 3 stones + the 2-point corner (A19, B19).
    assert_eq!(black, 5);
    assert_eq!(white, 3);
}

#[test]
fn groups_reports_each_group_once() {
    let mut g = Game::new();
    g.play(Move::Play(pt("D4"))).unwrap(); // B
    g.play(Move::Play(pt("Q16"))).unwrap(); // W
    g.play(Move::Play(pt("D5"))).unwrap(); // B, joins D4
    let groups = g.groups();
    assert_eq!(groups.len(), 2);
    let black = groups.iter().find(|g| g.color == Color::Black).unwrap();
    assert_eq!(black.stones.len(), 2);
}

#[test]
fn coordinate_errors_name_what_is_wrong() {
    assert_eq!(Point::parse("").unwrap_err(), "empty coordinate");
    assert_eq!(Point::parse("   ").unwrap_err(), "empty coordinate");
    assert_eq!(Point::parse("i10").unwrap_err(), "bad column 'I' (use A-T, no I)");
    assert_eq!(Point::parse("Z1").unwrap_err(), "bad column 'Z' (use A-T, no I)");
    assert_eq!(Point::parse("é1").unwrap_err(), "bad column 'Ã' (use A-T, no I)");
    assert_eq!(Point::parse("qq").unwrap_err(), "bad row in 'QQ' (use 1-19)");
    assert_eq!(Point::parse("a").unwrap_err(), "bad row in 'A' (use 1-19)");
    assert_eq!(Point::parse("A0").unwrap_err(), "row 0 is off the board (use 1-19)");
    assert_eq!(Point::parse("A20").unwrap_err(), "row 20 is off the board (use 1-19)");
    assert_eq!(
        Point::parse("A99999999999999999999999").unwrap_err(),
        "bad row in 'A99999999999999999999999' (use 1-19)"
    );
}

#[test]
fn coordinates_may_be_padded_and_lower_case() {
    assert_eq!(Point::parse(" q16\n"), Ok(Point::new(3, 15)));
    assert_eq!(Point::parse("d+4"), Ok(Point::new(15, 3)));
    assert_eq!(Point::parse("d004"), Ok(Point::new(15, 3)));
}

#[test]
fn every_point_has_a_name_of_its_own() {
    let mut names: Vec<String> = Vec::new();
    for row in 0..SIZE {
        for col in 0..SIZE {
            let p = Point::new(row, col);
            let name = p.to_string();
            assert_eq!(Point::parse(&name), Ok(p));
            assert_eq!(Point::parse(&name.to_lowercase()), Ok(p));
            names.push(name);
        }
    }
    names.sort();
    names.dedup();
    assert_eq!(names.len(), 361);
}

#[test]
fn names_of_colors_moves_and_refusals() {
    assert_eq!(Color::Black.to_string(), "Black");
    assert_eq!(Color::White.to_string(), "White");
    assert_eq!(Move::Pass.to_string(), "pass");
    assert_eq!(Move::Play(pt("J9")).to_string(), "J9");
    assert_eq!(Illegal::Occupied(Color::White).to_string(), "occupied by White");
    assert_eq!(
        Illegal::Suicide.to_string(),
        "suicide — that group would have no liberties"
    );
    assert_eq!(
        Illegal::Ko.to_string(),
        "forbidden by ko — you may not immediately recapture"
    );
    assert_eq!(Illegal::GameOver.to_string(), "the game is already over");
}

#[test]
fn colors_take_turns() {
    assert_eq!(Color::Black.opposite(), Color::White);
    assert_eq!(Color::White.opposite(), Color::Black);
    let g = play_all(&["D4"]);
    assert_eq!(g.to_move(), Color::White);
    assert_eq!(g.move_number(), 2);
}

#[test]
fn neighbors_keep_to_the_board() {
    assert_eq!(
        pt("D4").neighbors(),
        vec![pt("D5"), pt("D3"), pt("C4"), pt("E4")]
    );
    assert_eq!(pt("A19").neighbors(), vec![pt("A18"), pt("B19")]);
    assert_eq!(pt("T1").neighbors(), vec![pt("T2"), pt("S1")]);
    assert_eq!(Point::new(25, 3).neighbors(), vec![]);
}

#[test]
fn resignation_ends_the_game() {
    let mut g = play_all(&["D4"]);
    g.resign(Color::White);
    assert!(g.is_over());
    assert_eq!(g.resigned_by(), Some(Color::White));
    assert_eq!(g.validate(Move::Pass), Err(Illegal::GameOver));
    assert!(!g.is_legal(Move::Play(pt("Q16"))));
    assert_eq!(g.legal_moves(), vec![]);
}

#[test]
fn a_refused_move_leaves_the_game_as_it_was() {
    let mut g = play_all(&["A2", "T19", "B1"]);
    let before = g.render_board();
    assert_eq!(g.validate(Move::Play(pt("A1"))), Err(Illegal::Suicide));
    assert_eq!(g.play(Move::Play(pt("A1"))), Err(Illegal::Suicide));
    assert_eq!(g.render_board(), before);
    assert_eq!(g.history().len(), 3);
    assert_eq!(g.to_move(), Color::White);
    assert_eq!(g.at(pt("A1")), None);
}

#[test]
fn a_pass_clears_the_ko() {
    let mut g = play_all(&["D3", "E3", "C4", "F4", "D5", "E5", "E4", "T1", "T2", "D4"]);
    assert_eq!(g.ko_point(), Some(pt("E4")));
    g.play(Move::Pass).unwrap();
    assert_eq!(g.ko_point(), None);
}

#[test]
fn taking_two_stones_makes_no_ko() {
    let mut g = play_all(&["A2", "A1", "B2", "B1", "C1"]);
    assert_eq!(g.at(pt("A1")), None);
    assert_eq!(g.at(pt("B1")), None);
    assert_eq!(g.captures(Color::Black), 2);
    assert_eq!(g.ko_point(), None);
    assert_eq!(g.history()[4].captured, 2);
    assert!(g.play(Move::Pass).is_ok());
}

#[test]
fn stones_on_the_board_and_taken_add_up_to_those_placed() {
    let g = play_all(&[
        "A3", "A2", "B3", "B1", "C2", "B2", "C1", "T19", "A1", "pass", "D4",
    ]);
    let mut standing = 0;
    for row in 0..SIZE {
        for col in 0..SIZE {
            if g.at(Point::new(row, col)).is_some() {
                standing += 1;
            }
        }
    }
    let placed = g
        .history()
        .iter()
        .filter(|r| r.mv != Move::Pass)
        .count();
    let taken = g.captures(Color::Black) + g.captures(Color::White);
    assert_eq!(standing + taken as usize, placed);
    let by_records: usize = g.history().iter().map(|r| r.captured).sum();
    assert_eq!(by_records, taken as usize);
}

#[test]
fn every_group_on_the_board_keeps_a_liberty() {
    let g = play_all(&["A3", "A2", "B3", "B1", "C2", "B2", "C1", "T19", "A1"]);
    for group in g.groups() {
        assert!(!group.liberties.is_empty());
    }
}

#[test]
fn groups_divide_up_the_stones() {
    let g = play_all(&["D4", "Q16", "D5", "Q15", "E4", "K10", "A1"]);
    let groups = g.groups();
    let mut all: Vec<Point> = groups.iter().flat_map(|g| g.stones.clone()).collect();
    assert_eq!(all.len(), 7);
    all.sort();
    all.dedup();
    assert_eq!(all.len(), 7);
    for group in &groups {
        for p in &group.stones {
            assert_eq!(g.at(*p), Some(group.color));
        }
    }
    assert!(g.group_at(pt("T19")).is_none());
}

#[test]
fn stones_and_liberties_are_listed_in_reading_order() {
    let g = play_all(&["D4", "Q16", "D5", "T1", "E4"]);
    let group = g.group_at(pt("E4")).unwrap();
    assert_eq!(group.stones, vec![pt("D5"), pt("D4"), pt("E4")]);
    assert_eq!(
        group.liberties,
        vec![
            pt("D6"),
            pt("C5"),
            pt("E5"),
            pt("C4"),
            pt("F4"),
            pt("D3"),
            pt("E3")
        ]
    );
}

#[test]
fn an_empty_board_belongs_to_nobody() {
    let g = Game::default();
    assert_eq!(g.area_score(), (0, 0));
    assert_eq!(g.legal_moves().len(), 361);
    assert!(g.groups().is_empty());
}

#[test]
fn a_single_stone_owns_the_board() {
    let g = play_all(&["K10"]);
    assert_eq!(g.area_score(), (361, 0));
    let h = play_all(&["K10", "A1"]);
    let (black, white) = h.area_score();
    assert_eq!((black, white), (1, 1));
    assert!(black + white <= 361);
}

#[test]
fn legal_moves_leave_out_stones_ko_and_suicide() {
    let g = play_all(&["A2", "T19", "B1"]);
    let legal = g.legal_moves();
    assert_eq!(legal.len(), 361 - 3 - 1);
    assert!(!legal.contains(&pt("A1")));
    assert!(!legal.contains(&pt("T19")));
    for p in &legal {
        assert!(g.is_legal(Move::Play(*p)));
    }
    let k = play_all(&["D3", "E3", "C4", "F4", "D5", "E5", "E4", "T1", "T2", "D4"]);
    assert!(!k.legal_moves().contains(&pt("E4")));
}

#[test]
fn the_board_is_drawn_with_labels_on_all_sides() {
    let g = play_all(&["A19", "T1"]);
    let text = g.render_board();
    assert_eq!(text.len(), 917);
    let rows: Vec<&str> = text.split('\n').collect();
    assert_eq!(rows.len(), 21);
    assert_eq!(rows[0], "   A B C D E F G H J K L M N O P Q R S T");
    assert_eq!(rows[20], rows[0]);
    assert_eq!(rows[1], "19 X . . . . . . . . . . . . . . . . . . 19");
    assert_eq!(rows[4], "16 . . . + . . . . . + . . . . . + . . . 16");
    assert_eq!(rows[10], "10 . . . + . . . . . + . . . . . + . . . 10");
    assert_eq!(rows[19], " 1 . . . . . . . . . . . . . . . . . . O  1");
}

#[test]
fn a_point_is_drawn_under_its_letter() {
    let g = play_all(&["Q16"]);
    let text = g.render_board();
    let p = pt("Q16");
    let bytes = text.as_bytes();
    assert_eq!(bytes[3 + 2 * p.col], b'Q');
    assert_eq!(&text[41 + 44 * p.row..43 + 44 * p.row], "16");
    assert_eq!(bytes[44 + 44 * p.row + 2 * p.col], b'X');
}

#[test]
fn a_copy_plays_on_by_itself() {
    let g = play_all(&["D4"]);
    let mut h = g.clone();
    h.play(Move::Play(pt("Q16"))).unwrap();
    assert_eq!(g.history().len(), 1);
    assert_eq!(h.history().len(), 2);
    assert_eq!(g.at(pt("Q16")), None);
}

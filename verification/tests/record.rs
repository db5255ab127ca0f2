use indium::goban::{Game, Move, Point};
use indium::record::{sgf, Recorder, LOG_FILE, SGF_FILE};

fn pt(s: &str) -> Point {
    Point::parse(s).unwrap()
}

/// SGF counts rows from the top while the display counts from the bottom.
/// Q16 is row 4 from the top => `pd`, the standard SGF opening.
#[test]
fn sgf_coordinates_use_the_top_left_origin() {
    let mut g = Game::new();
    g.play(Move::Play(pt("Q16"))).unwrap();
    g.play(Move::Play(pt("D4"))).unwrap();
    let out = sgf(g.history(), "Human", "grok");
    assert!(out.contains(";B[pd]"), "{out}");
    assert!(out.contains(";W[dp]"), "{out}");
    assert!(out.starts_with("(;FF[4]GM[1]"));
    assert!(out.ends_with(')'));
}

#[test]
fn sgf_encodes_a_pass_as_an_empty_value() {
    let mut g = Game::new();
    g.play(Move::Pass).unwrap();
    let out = sgf(g.history(), "a", "b");
    assert!(out.contains(";B[]"), "{out}");
}

#[test]
fn sgf_corners_map_to_the_expected_letters() {
    let mut g = Game::new();
    g.play(Move::Play(pt("A19"))).unwrap(); // top-left
    g.play(Move::Play(pt("T1"))).unwrap(); // bottom-right
    let out = sgf(g.history(), "a", "b");
    assert!(out.contains(";B[aa]"), "{out}");
    assert!(out.contains(";W[ss]"), "{out}");
}

#[test]
fn player_names_are_escaped() {
    let out = sgf(&[], "a]b", "c\\d");
    assert!(out.contains("PB[a\\]b]"), "{out}");
    assert!(out.contains("PW[c\\\\d]"), "{out}");
}

#[test]
fn the_whole_record_of_a_short_game() {
    let mut g = Game::new();
    g.play(Move::Play(pt("Q16"))).unwrap();
    g.play(Move::Pass).unwrap();
    assert_eq!(
        sgf(g.history(), "Human", "grok-4.5"),
        "(;FF[4]GM[1]CA[UTF-8]SZ[19]KM[6.5]RU[Japanese]PB[Human]PW[grok-4.5];B[pd];W[])"
    );
    assert_eq!(
        sgf(&[], "", ""),
        "(;FF[4]GM[1]CA[UTF-8]SZ[19]KM[6.5]RU[Japanese]PB[]PW[])"
    );
}

/// Takes the backslashes out again, up to the bracket that closes the value.
fn value(text: &str) -> String {
    let mut out = String::new();
    let mut escaped = false;
    for c in text.chars() {
        if escaped {
            out.push(c);
            escaped = false;
        } else if c == '\\' {
            escaped = true;
        } else if c == ']' {
            break;
        } else {
            out.push(c);
        }
    }
    out
}

#[test]
fn escaped_names_read_back() {
    for name in ["", "plain", "a]b", "\\", "]]\\\\]", "é]日\\n"] {
        let out = sgf(&[], name, "x");
        let at = out.find("PB[").unwrap() + 3;
        assert_eq!(value(&out[at..]), name);
    }
}

#[test]
fn moves_read_back_from_their_letters() {
    let mut g = Game::new();
    let points = ["A19", "T1", "K10", "D4", "Q16", "J9"];
    for p in points {
        g.play(Move::Play(pt(p))).unwrap();
    }
    let out = sgf(g.history(), "a", "b");
    let nodes: Vec<&str> = out.split(';').skip(2).collect();
    assert_eq!(nodes.len(), points.len());
    for (node, p) in nodes.iter().zip(points) {
        let b = node.as_bytes();
        let back = Point::new((b[3] - b'a') as usize, (b[2] - b'a') as usize);
        assert_eq!(back, pt(p));
    }
}

#[test]
fn turns_are_logged_one_after_the_other() {
    let mut r = Recorder::new("games/latest");
    assert_eq!(r.dir(), "games/latest");
    let first = r.log_turn(2, "FAT", "played Q16", "");
    assert_eq!(
        first,
        "=== move 2 ===\n--- fat state block sent ---\nFAT\n--- outcome ---\nplayed Q16\n\n"
    );
    let second = r.log_turn(4, "FAT 2", "played D4", &first);
    assert_eq!(
        second,
        format!(
            "{first}=== move 4 ===\n--- fat state block sent ---\nFAT 2\n--- outcome ---\nplayed D4\n\n"
        )
    );
    assert_eq!(LOG_FILE, "prompts.log");
    assert_eq!(SGF_FILE, "game.sgf");
}

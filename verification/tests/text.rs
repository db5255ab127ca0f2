use indium::order::sort_texts;
use indium::text::{
    is_white_space, join_texts, parse_number, push_decimal, same_text_any_case, split_lines, strip,
    to_upper, trim, NumberError,
};

const SAMPLES: [&str; 12] = [
    "",
    " ",
    "a",
    "  a b \t\n",
    "\u{a0}é\u{3000}",
    "one\ntwo\r\nthree",
    "\n",
    "\r\n\r\n",
    "a\rb\n",
    "'\"x\"'",
    "''''",
    "ß日本 Straße",
];

#[test]
fn white_space_is_that_of_the_standard_library() {
    for c in '\0'..=char::MAX {
        assert_eq!(is_white_space(c), c.is_whitespace(), "{:?}", c);
    }
}

#[test]
fn texts_are_trimmed_cased_and_split_as_usual() {
    for s in SAMPLES {
        assert_eq!(trim(s), s.trim());
        assert_eq!(strip(s, '\''), s.trim_matches('\''));
        assert_eq!(to_upper(s), s.to_ascii_uppercase());
        let lines: Vec<&str> = s.lines().collect();
        assert_eq!(split_lines(s), lines);
        for t in SAMPLES {
            assert_eq!(same_text_any_case(s, t), s.eq_ignore_ascii_case(t));
        }
    }
    assert!(same_text_any_case("PaSs", "pass"));
}

#[test]
fn texts_are_joined_and_sorted_as_usual() {
    let mut v: Vec<String> = SAMPLES.iter().map(|s| s.to_string()).collect();
    assert_eq!(join_texts(&v, ", "), v.join(", "));
    assert_eq!(join_texts(&Vec::new(), ", "), "");
    let sorted = sort_texts(v.clone());
    v.sort();
    assert_eq!(sorted, v);
}

#[test]
fn numerals_read_back() {
    for n in [0u64, 7, 10, 99, 100, 4294967295, u64::MAX] {
        let mut s = String::from("n=");
        push_decimal(&mut s, n);
        assert_eq!(s, format!("n={n}"));
        assert_eq!(parse_number(&s[2..], u64::MAX), Ok(n));
    }
    assert_eq!(parse_number("", 9), Err(NumberError::Empty));
    assert_eq!(parse_number("+", 9), Err(NumberError::InvalidDigit));
    assert_eq!(parse_number("10", 9), Err(NumberError::Overflow));
    assert_eq!(parse_number("1a", 9), Err(NumberError::InvalidDigit));
}

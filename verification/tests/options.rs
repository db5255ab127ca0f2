use indium::agent::ThinkingEffort;
use indium::options::{
    entries_to_set, parse_args, parse_env, Opts, Provider, ANTHROPIC_MODEL_KEY, USAGE,
};

fn args(list: &[&str]) -> Vec<String> {
    list.iter().map(|s| s.to_string()).collect()
}

fn read(list: &[&str]) -> Opts {
    match parse_args(&args(list)) {
        Ok(Some(o)) => o,
        Ok(None) => panic!("help"),
        Err(e) => panic!("{}", e),
    }
}

fn complaint(list: &[&str]) -> String {
    match parse_args(&args(list)) {
        Err(e) => e,
        Ok(_) => panic!("accepted"),
    }
}

#[test]
fn options_that_are_not_given_have_defaults() {
    let o = read(&[]);
    assert_eq!(o.provider, Provider::Anthropic);
    assert!(!o.bot);
    assert_eq!(o.moves, 0);
    assert_eq!(o.model, None);
    assert_eq!(o.thinking, ThinkingEffort::Medium);
    assert_eq!(o.max_attempts, 3);
    assert_eq!(o.seed, 1);
    assert_eq!(o.out, "games/latest");
}

#[test]
fn every_option_can_be_set() {
    let o = read(&[
        "--provider", "xai", "--opponent", "bot", "--moves", "30", "--model", "m",
        "--thinking", "high", "--max-attempts", "5", "--seed", "18446744073709551615", "--out",
        "x/y",
    ]);
    assert_eq!(o.provider, Provider::Xai);
    assert!(o.bot);
    assert_eq!(o.moves, 30);
    assert_eq!(o.model, Some("m".to_string()));
    assert_eq!(o.thinking, ThinkingEffort::High);
    assert_eq!(o.max_attempts, 5);
    assert_eq!(o.seed, u64::MAX);
    assert_eq!(o.out, "x/y");
}

#[test]
fn later_options_win_and_odd_opponents_are_human() {
    let o = read(&["--moves", "1", "--moves", "+2", "--opponent", "Bot"]);
    assert_eq!(o.moves, 2);
    assert!(!o.bot);
    let o = read(&["--thinking", "low", "--thinking", "medium"]);
    assert_eq!(o.thinking, ThinkingEffort::Medium);
}

#[test]
fn help_is_asked_for() {
    assert!(matches!(parse_args(&args(&["-h"])), Ok(None)));
    assert!(matches!(parse_args(&args(&["--moves", "3", "--help", "junk"])), Ok(None)));
    assert!(USAGE.contains("-h, --help               Show this help.\n"));
    assert!(USAGE.starts_with("indium — human vs LLM Go on 19x19\n\nUSAGE:\n"));
}

#[test]
fn bad_arguments_are_named() {
    assert_eq!(complaint(&["--what"]), "unknown argument '--what'");
    assert_eq!(complaint(&["--seed"]), "--seed needs a value");
    assert_eq!(complaint(&["--out", "d", "--model"]), "--model needs a value");
    assert_eq!(
        complaint(&["--provider", "acme"]),
        "unknown --provider 'acme' (want anthropic|xai)"
    );
    assert_eq!(
        complaint(&["--thinking", "Low"]),
        "unknown --thinking 'Low' (want high|medium|low)"
    );
    assert_eq!(complaint(&["--moves", "x", "-h"]), "invalid digit found in string");
}

#[test]
fn number_errors_read_as_those_of_the_standard_library() {
    for s in ["", "+", "-", "-1", "1x", "4294967296", "99999999999999999999999", "4294967296x"] {
        assert_eq!(
            complaint(&["--moves", s]),
            s.parse::<u32>().unwrap_err().to_string()
        );
    }
    for s in ["0", "+7", "007", "4294967295"] {
        assert_eq!(read(&["--moves", s]).moves, s.parse::<u32>().unwrap());
    }
    for s in ["18446744073709551616", " 1", "é"] {
        assert_eq!(
            complaint(&["--seed", s]),
            s.parse::<u64>().unwrap_err().to_string()
        );
        assert_eq!(
            complaint(&["--max-attempts", s]),
            s.parse::<usize>().unwrap_err().to_string()
        );
    }
}

#[test]
fn providers_know_their_names_keys_and_models() {
    assert_eq!(Provider::parse("anthropic"), Ok(Provider::Anthropic));
    assert_eq!(Provider::parse("xai"), Ok(Provider::Xai));
    for p in [Provider::Anthropic, Provider::Xai] {
        assert_eq!(Provider::parse(p.name()), Ok(p));
    }
    assert_eq!(Provider::Anthropic.env_key(), "ANTHROPIC_API_KEY");
    assert_eq!(Provider::Xai.env_key(), "XAI_API_KEY");
    assert_eq!(Provider::Xai.default_model("house"), "grok-4.5");
    assert_eq!(Provider::Anthropic.default_model("house"), "house");
    assert_eq!(read(&["--provider", "xai"]).model("house"), "grok-4.5");
    assert_eq!(read(&["--provider", "xai", "--model", "m"]).model("house"), "m");
    assert_eq!(read(&["--model", "m"]).model("house"), "m");
    assert_eq!(read(&[]).model("house"), "house");
    assert_eq!(ANTHROPIC_MODEL_KEY, "ANTHROPIC_MODEL");
    assert_eq!(ThinkingEffort::High.name(), "high");
    assert_eq!(ThinkingEffort::Medium.name(), "medium");
    assert_eq!(ThinkingEffort::Low.name(), "low");
}

#[test]
fn env_files_are_read_line_by_line() {
    let text = "# keys\n\nXAI_API_KEY = \"abc\"\r\n  A='x=y'  \nnothing\n#B=1\nC=\n =v\nQ=\"'q'\"";
    let pair = |k: &str, v: &str| (k.to_string(), v.to_string());
    assert_eq!(
        parse_env(text),
        vec![
            pair("XAI_API_KEY", "abc"),
            pair("A", "x=y"),
            pair("C", ""),
            pair("", "v"),
            pair("Q", "q"),
        ]
    );
    assert_eq!(parse_env(""), vec![]);
}

#[test]
fn env_files_set_what_is_not_set_and_only_once() {
    let entries = parse_env("A=1\nB=2\nA=3\nC=4\nC=5\nB=6\n");
    let set: Vec<bool> = entries.iter().map(|(k, _)| k == "B").collect();
    let pair = |k: &str, v: &str| (k.to_string(), v.to_string());
    assert_eq!(
        entries_to_set(&entries, &set),
        vec![pair("A", "1"), pair("C", "4")]
    );
    assert_eq!(entries_to_set(&Vec::new(), &Vec::new()), vec![]);
}

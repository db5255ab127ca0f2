//! The command line and the `.env` file.

use vstd::prelude::*;

use crate::agent::{text_view, ThinkingEffort};
use crate::text::{
    chars_of, find_char, is_digit, lines, parse_number, read_digits, read_number, same_text, span, split_lines,
    strip, stripped, text_of, texts, trim, trimmed, NumberError,
};

verus! {

/// What can be given on the command line.
pub const USAGE: &'static str = "indium — human vs LLM Go on 19x19\n\nUSAGE:\n    indium [OPTIONS]\n\nOPTIONS:\n    --provider <NAME>        anthropic | xai. Default: anthropic.\n    --opponent <human|bot>   Who plays Black. Default: human.\n    --moves <N>              Stop after N total moves. Default: 0 (unlimited).\n    --model <ID>             Default depends on --provider:\n                             anthropic → $ANTHROPIC_MODEL\n                             xai       → grok-4.5\n    --thinking <LEVEL>       high | medium | low. Default: medium.\n                             Reasoning budget (hydrogen ThinkingEffort).\n    --max-attempts <N>       Illegal-move retries before forcing a pass. Default: 3.\n    --seed <N>               Bot opponent seed. Default: 1.\n    --out <DIR>              Where to write game.sgf and prompts.log.\n                             Default: ./games/latest.\n    -h, --help               Show this help.\n\nENV:\n    ANTHROPIC_API_KEY        Required for --provider anthropic (or ./.env).\n    XAI_API_KEY              Required for --provider xai (or ./.env).\n    ANTHROPIC_MODEL          Default model at anthropic (or ./.env).\n";

/// The environment variable that holds the default model at Anthropic.
pub const ANTHROPIC_MODEL_KEY: &'static str = "ANTHROPIC_MODEL";

/// Who serves the model.
#[derive(Debug, Clone, Copy, PartialEq, Eq, Structural)]
pub enum Provider {
    Anthropic,
    Xai,
}

/// The provider that a name selects, or what is wrong with it.
pub open spec fn provider_of(s: Seq<char>) -> Result<Provider, Seq<char>> {
    if s == "anthropic"@ {
        Ok(Provider::Anthropic)
    } else if s == "xai"@ {
        Ok(Provider::Xai)
    } else {
        Err("unknown --provider '"@ + s + "' (want anthropic|xai)"@)
    }
}

impl Provider {
    pub open spec fn text(self) -> Seq<char> {
        match self {
            Provider::Anthropic => "anthropic"@,
            Provider::Xai => "xai"@,
        }
    }

    /// The model that is asked when none is named, given the default at
    /// Anthropic.
    pub open spec fn model_text(self, anthropic: Seq<char>) -> Seq<char> {
        match self {
            Provider::Anthropic => anthropic,
            Provider::Xai => "grok-4.5"@,
        }
    }

    pub fn parse(s: &str) -> (r: Result<Provider, String>)
        ensures
            match r {
                Ok(p) => provider_of(s@) == Ok::<Provider, Seq<char>>(p),
                Err(e) => provider_of(s@) == Err::<Provider, Seq<char>>(e@),
            },
    {
        if same_text(s, "anthropic") {
            Ok(Provider::Anthropic)
        } else if same_text(s, "xai") {
            Ok(Provider::Xai)
        } else {
            let mut e = "unknown --provider '".to_owned();
            e.append(s);
            e.append("' (want anthropic|xai)");
            Err(e)
        }
    }

    /// The model that is asked when none is named, given the default at
    /// Anthropic.
    pub fn default_model<'a>(self, anthropic: &'a str) -> (r: &'a str)
        ensures
            r@ == self.model_text(anthropic@),
    {
        match self {
            Provider::Anthropic => anthropic,
            Provider::Xai => "grok-4.5",
        }
    }

    /// The environment variable that holds the key.
    pub fn env_key(self) -> (r: &'static str)
        ensures
            r@ == match self {
                Provider::Anthropic => "ANTHROPIC_API_KEY"@,
                Provider::Xai => "XAI_API_KEY"@,
            },
    {
        match self {
            Provider::Anthropic => "ANTHROPIC_API_KEY",
            Provider::Xai => "XAI_API_KEY",
        }
    }

    pub fn name(self) -> (r: &'static str)
        ensures
            r@ == self.text(),
    {
        match self {
            Provider::Anthropic => "anthropic",
            Provider::Xai => "xai",
        }
    }
}

/// The name of a provider is what selects it.
pub proof fn law_provider_names_read_back(p: Provider)
    ensures
        provider_of(p.text()) == Ok::<Provider, Seq<char>>(p),
{
    reveal_strlit("anthropic");
    reveal_strlit("xai");
    assert("anthropic"@.len() != "xai"@.len());
}

/// The effort that a name selects, or what is wrong with it.
pub open spec fn effort_of(s: Seq<char>) -> Result<ThinkingEffort, Seq<char>> {
    if s == "high"@ {
        Ok(ThinkingEffort::High)
    } else if s == "medium"@ {
        Ok(ThinkingEffort::Medium)
    } else if s == "low"@ {
        Ok(ThinkingEffort::Low)
    } else {
        Err("unknown --thinking '"@ + s + "' (want high|medium|low)"@)
    }
}

impl ThinkingEffort {
    pub open spec fn text(self) -> Seq<char> {
        match self {
            ThinkingEffort::High => "high"@,
            ThinkingEffort::Medium => "medium"@,
            ThinkingEffort::Low => "low"@,
        }
    }

    pub fn parse(s: &str) -> (r: Result<ThinkingEffort, String>)
        ensures
            match r {
                Ok(t) => effort_of(s@) == Ok::<ThinkingEffort, Seq<char>>(t),
                Err(e) => effort_of(s@) == Err::<ThinkingEffort, Seq<char>>(e@),
            },
    {
        if same_text(s, "high") {
            Ok(ThinkingEffort::High)
        } else if same_text(s, "medium") {
            Ok(ThinkingEffort::Medium)
        } else if same_text(s, "low") {
            Ok(ThinkingEffort::Low)
        } else {
            let mut e = "unknown --thinking '".to_owned();
            e.append(s);
            e.append("' (want high|medium|low)");
            Err(e)
        }
    }

    pub fn name(self) -> (r: &'static str)
        ensures
            r@ == self.text(),
    {
        match self {
            ThinkingEffort::High => "high",
            ThinkingEffort::Medium => "medium",
            ThinkingEffort::Low => "low",
        }
    }
}

/// What the program is to do.
pub struct Opts {
    pub provider: Provider,
    pub bot: bool,
    pub moves: u32,
    /// `None` until a model is named; the default depends on the provider.
    pub model: Option<String>,
    pub thinking: ThinkingEffort,
    pub max_attempts: usize,
    pub seed: u64,
    pub out: String,
}

/// What the program is to do.
#[verifier::ext_equal]
pub struct OptsView {
    pub provider: Provider,
    pub bot: bool,
    pub moves: nat,
    pub model: Option<Seq<char>>,
    pub thinking: ThinkingEffort,
    pub max_attempts: nat,
    pub seed: nat,
    pub out: Seq<char>,
}

impl View for Opts {
    type V = OptsView;

    open spec fn view(&self) -> OptsView {
        OptsView {
            provider: self.provider,
            bot: self.bot,
            moves: self.moves as nat,
            model: text_view(self.model),
            thinking: self.thinking,
            max_attempts: self.max_attempts as nat,
            seed: self.seed as nat,
            out: self.out@,
        }
    }
}

impl OptsView {
    /// The options when none is given.
    pub open spec fn initial() -> OptsView {
        OptsView {
            provider: Provider::Anthropic,
            bot: false,
            moves: 0,
            model: None,
            thinking: ThinkingEffort::Medium,
            max_attempts: 3,
            seed: 1,
            out: "games/latest"@,
        }
    }

    /// The model that was named, or the default of the provider, given the one
    /// at Anthropic.
    pub open spec fn model_text(self, anthropic: Seq<char>) -> Seq<char> {
        match self.model {
            Some(m) => m,
            None => self.provider.model_text(anthropic),
        }
    }
}

impl Default for Opts {
    fn default() -> (r: Opts)
        ensures
            r@ == OptsView::initial(),
    {
        Opts {
            provider: Provider::Anthropic,
            bot: false,
            moves: 0,
            model: None,
            thinking: ThinkingEffort::Medium,
            max_attempts: 3,
            seed: 1,
            out: "games/latest".to_owned(),
        }
    }
}

impl Opts {
    /// The model to be asked, given the default at Anthropic.
    pub fn model(&self, anthropic: &str) -> (r: String)
        ensures
            r@ == self@.model_text(anthropic@),
    {
        match &self.model {
            Some(m) => m.clone(),
            None => self.provider.default_model(anthropic).to_owned(),
        }
    }
}

/// What is said of a numeral that cannot be read.
pub open spec fn number_error_text(e: NumberError) -> Seq<char> {
    match e {
        NumberError::Empty => "cannot parse integer from empty string"@,
        NumberError::InvalidDigit => "invalid digit found in string"@,
        NumberError::Overflow => "number too large to fit in target type"@,
    }
}

fn describe_number_error(e: NumberError) -> (r: String)
    ensures
        r@ == number_error_text(e),
{
    match e {
        NumberError::Empty => "cannot parse integer from empty string".to_owned(),
        NumberError::InvalidDigit => "invalid digit found in string".to_owned(),
        NumberError::Overflow => "number too large to fit in target type".to_owned(),
    }
}

/// The number that an argument gives, or what is wrong with it.
pub open spec fn number_value(s: Seq<char>, max: nat) -> Result<nat, Seq<char>> {
    match read_number(s, max) {
        Ok(n) => Ok(n),
        Err(e) => Err(number_error_text(e)),
    }
}

fn parse_value(s: &str, max: u64) -> (r: Result<u64, String>)
    ensures
        match r {
            Ok(n) => number_value(s@, max as nat) == Ok::<nat, Seq<char>>(n as nat) && n <= max,
            Err(e) => number_value(s@, max as nat) == Err::<nat, Seq<char>>(e@),
        },
{
    match parse_number(s, max) {
        Ok(n) => {
            proof {
                lemma_number_bound(s@, max as nat);
            }
            Ok(n)
        },
        Err(e) => Err(describe_number_error(e)),
    }
}

proof fn lemma_digits_bound(s: Seq<char>, acc: nat, max: nat)
    requires
        acc <= max,
    ensures
        read_digits(s, acc, max) matches Ok(n) ==> n <= max,
    decreases s.len(),
{
    if s.len() > 0 && is_digit(s[0]) && acc * 10 + (s[0] as nat - 48) <= max {
        lemma_digits_bound(s.drop_first(), (acc * 10 + (s[0] as nat - 48)) as nat, max);
    }
}

/// A number that can be read is within the bound.
proof fn lemma_number_bound(s: Seq<char>, max: nat)
    ensures
        read_number(s, max) matches Ok(n) ==> n <= max,
{
    lemma_digits_bound(s, 0, max);
    if s.len() > 0 {
        lemma_digits_bound(s.drop_first(), 0, max);
    }
}

// ---------------------------------------------------------------------------
// Arguments
// ---------------------------------------------------------------------------

/// The options that take a value.
pub open spec fn takes_value(name: Seq<char>) -> bool {
    ||| name == "--provider"@
    ||| name == "--opponent"@
    ||| name == "--moves"@
    ||| name == "--model"@
    ||| name == "--max-attempts"@
    ||| name == "--seed"@
    ||| name == "--out"@
    ||| name == "--thinking"@
}

impl OptsView {
    /// With the value of one option set, or what is wrong with it.
    pub open spec fn with(self, name: Seq<char>, value: Seq<char>) -> Result<OptsView, Seq<char>> {
        if name == "--provider"@ {
            match provider_of(value) {
                Ok(provider) => Ok(OptsView { provider, ..self }),
                Err(e) => Err(e),
            }
        } else if name == "--opponent"@ {
            Ok(OptsView { bot: value == "bot"@, ..self })
        } else if name == "--moves"@ {
            match number_value(value, u32::MAX as nat) {
                Ok(moves) => Ok(OptsView { moves, ..self }),
                Err(e) => Err(e),
            }
        } else if name == "--model"@ {
            Ok(OptsView { model: Some(value), ..self })
        } else if name == "--max-attempts"@ {
            match number_value(value, usize::MAX as nat) {
                Ok(max_attempts) => Ok(OptsView { max_attempts, ..self }),
                Err(e) => Err(e),
            }
        } else if name == "--seed"@ {
            match number_value(value, u64::MAX as nat) {
                Ok(seed) => Ok(OptsView { seed, ..self }),
                Err(e) => Err(e),
            }
        } else if name == "--out"@ {
            Ok(OptsView { out: value, ..self })
        } else {
            match effort_of(value) {
                Ok(thinking) => Ok(OptsView { thinking, ..self }),
                Err(e) => Err(e),
            }
        }
    }

    /// With the arguments read one after the other: the options, or nothing
    /// where help is asked for, or what is wrong.
    pub open spec fn read(self, args: Seq<Seq<char>>) -> Result<Option<OptsView>, Seq<char>>
        decreases args.len(),
    {
        if args.len() == 0 {
            Ok(Some(self))
        } else if args[0] == "-h"@ || args[0] == "--help"@ {
            Ok(None)
        } else if !takes_value(args[0]) {
            Err("unknown argument '"@ + args[0] + "'"@)
        } else if args.len() == 1 {
            Err(args[0] + " needs a value"@)
        } else {
            match self.with(args[0], args[1]) {
                Ok(opts) => opts.read(args.skip(2)),
                Err(e) => Err(e),
            }
        }
    }
}

/// `name` is one of the options that take a value.
fn is_valued(name: &str) -> (r: bool)
    ensures
        r == takes_value(name@),
{
    same_text(name, "--provider") || same_text(name, "--opponent") || same_text(name, "--moves")
        || same_text(name, "--model") || same_text(name, "--max-attempts") || same_text(
        name,
        "--seed",
    ) || same_text(name, "--out") || same_text(name, "--thinking")
}

impl Opts {
    /// Set the value of one option.
    fn set(self, name: &str, value: &str) -> (r: Result<Opts, String>)
        requires
            takes_value(name@),
        ensures
            match r {
                Ok(o) => self@.with(name@, value@) == Ok::<OptsView, Seq<char>>(o@),
                Err(e) => self@.with(name@, value@) == Err::<OptsView, Seq<char>>(e@),
            },
    {
        if same_text(name, "--provider") {
            match Provider::parse(value) {
                Ok(provider) => Ok(Opts { provider, ..self }),
                Err(e) => Err(e),
            }
        } else if same_text(name, "--opponent") {
            let bot = same_text(value, "bot");
            Ok(Opts { bot, ..self })
        } else if same_text(name, "--moves") {
            match parse_value(value, u32::MAX as u64) {
                Ok(n) => Ok(Opts { moves: n as u32, ..self }),
                Err(e) => Err(e),
            }
        } else if same_text(name, "--model") {
            Ok(Opts { model: Some(value.to_owned()), ..self })
        } else if same_text(name, "--max-attempts") {
            match parse_value(value, usize::MAX as u64) {
                Ok(n) => Ok(Opts { max_attempts: n as usize, ..self }),
                Err(e) => Err(e),
            }
        } else if same_text(name, "--seed") {
            match parse_value(value, u64::MAX) {
                Ok(n) => Ok(Opts { seed: n, ..self }),
                Err(e) => Err(e),
            }
        } else if same_text(name, "--out") {
            Ok(Opts { out: value.to_owned(), ..self })
        } else {
            match ThinkingEffort::parse(value) {
                Ok(thinking) => Ok(Opts { thinking, ..self }),
                Err(e) => Err(e),
            }
        }
    }
}

/// Read the arguments that follow the name of the program.
pub fn parse_args(args: &Vec<String>) -> (r: Result<Option<Opts>, String>)
    ensures
        match r {
            Ok(Some(o)) => OptsView::initial().read(texts(args@)) == Ok::<
                Option<OptsView>,
                Seq<char>,
            >(Some(o@)),
            Ok(None) => OptsView::initial().read(texts(args@)) == Ok::<Option<OptsView>, Seq<char>>(
                None,
            ),
            Err(e) => OptsView::initial().read(texts(args@)) == Err::<Option<OptsView>, Seq<char>>(
                e@,
            ),
        },
{
    let ghost all = texts(args@);
    let ghost goal = OptsView::initial().read(all);
    let mut o = Opts::default();
    let mut i: usize = 0;
    assert(all.skip(0) =~= all);
    while i < args.len()
        invariant
            all == texts(args@),
            goal == OptsView::initial().read(all),
            i <= args@.len(),
            o@.read(all.skip(i as int)) == goal,
        decreases args@.len() - i,
    {
        let ghost rest = all.skip(i as int);
        let a = args[i].as_str();
        assert(rest[0] == a@);
        if same_text(a, "-h") || same_text(a, "--help") {
            return Ok(None);
        }
        if !is_valued(a) {
            let mut e = "unknown argument '".to_owned();
            e.append(a);
            e.append("'");
            return Err(e);
        }
        if i + 1 == args.len() {
            let mut e = a.to_owned();
            e.append(" needs a value");
            return Err(e);
        }
        let value = args[i + 1].as_str();
        assert(rest[1] == value@);
        assert(rest.skip(2) =~= all.skip(i + 2));
        match o.set(a, value) {
            Ok(next) => {
                o = next;
            },
            Err(e) => {
                return Err(e);
            },
        }
        i += 2;
    }
    Ok(Some(o))
}

// ---------------------------------------------------------------------------
// The environment file
// ---------------------------------------------------------------------------

/// What a line of a `.env` file sets, if it sets anything: not an empty line,
/// not a comment, and not a line without an equals sign. Quotes around the
/// value are taken off.
pub open spec fn env_line(line: Seq<char>) -> Option<(Seq<char>, Seq<char>)> {
    let t = trimmed(line);
    let n = span(t, '=');
    if t.len() == 0 || t[0] == '#' || n == t.len() {
        None
    } else {
        Some(
            (
                trimmed(t.take(n as int)),
                stripped(stripped(trimmed(t.skip(n as int + 1)), '"'), '\''),
            ),
        )
    }
}

/// What the lines set, in order.
pub open spec fn env_lines(lines: Seq<Seq<char>>) -> Seq<(Seq<char>, Seq<char>)>
    decreases lines.len(),
{
    if lines.len() == 0 {
        Seq::empty()
    } else {
        match env_line(lines.last()) {
            Some(entry) => env_lines(lines.drop_last()).push(entry),
            None => env_lines(lines.drop_last()),
        }
    }
}

/// Names and values.
pub open spec fn entry_views(entries: Seq<(String, String)>) -> Seq<(Seq<char>, Seq<char>)> {
    Seq::new(entries.len(), |i: int| (entries[i].0@, entries[i].1@))
}

fn read_env_line(line: &str) -> (r: Option<(String, String)>)
    ensures
        match r {
            Some((name, value)) => env_line(line@) == Some((name@, value@)),
            None => env_line(line@) is None,
        },
{
    let t = trim(line);
    let chars = chars_of(t.as_str());
    if chars.len() == 0 || chars[0] == '#' {
        return None;
    }
    let n = find_char(&chars, 0, '=');
    assert(chars@.skip(0) =~= t@);
    if n == chars.len() {
        return None;
    }
    let name = text_of(&chars, 0, n);
    let value = text_of(&chars, n + 1, chars.len());
    assert(name@ =~= t@.take(n as int));
    assert(value@ =~= t@.skip(n + 1));
    let bare = strip(strip(trim(value.as_str()).as_str(), '"').as_str(), '\'');
    Some((trim(name.as_str()), bare))
}

/// The names and values that the text of a `.env` file sets, in order.
pub fn parse_env(text: &str) -> (r: Vec<(String, String)>)
    ensures
        entry_views(r@) == env_lines(lines(text@)),
{
    let all = split_lines(text);
    let ghost parts = lines(text@);
    let mut r: Vec<(String, String)> = Vec::new();
    let mut i: usize = 0;
    assert(entry_views(r@) =~= env_lines(parts.take(0)));
    while i < all.len()
        invariant
            parts == lines(text@),
            all@.len() == parts.len(),
            forall|k: int| 0 <= k < all@.len() ==> (#[trigger] all@[k])@ == parts[k],
            i <= all@.len(),
            entry_views(r@) == env_lines(parts.take(i as int)),
        decreases all@.len() - i,
    {
        let ghost wide = parts.take(i + 1);
        let ghost before = r@;
        assert(wide.drop_last() =~= parts.take(i as int));
        assert(wide.last() == all@[i as int]@);
        if let Some(entry) = read_env_line(all[i].as_str()) {
            let ghost view = (entry.0@, entry.1@);
            r.push(entry);
            assert(entry_views(r@) =~= entry_views(before).push(view));
        }
        i += 1;
    }
    assert(parts.take(i as int) =~= parts);
    r
}

/// One of the entries has this name.
pub open spec fn named(entries: Seq<(Seq<char>, Seq<char>)>, name: Seq<char>) -> bool {
    exists|i: int| 0 <= i < entries.len() && (#[trigger] entries[i]).0 == name
}

/// The entries whose names are not set, each by its first one.
pub open spec fn first_unset(entries: Seq<(Seq<char>, Seq<char>)>, set: Seq<bool>) -> Seq<
    (Seq<char>, Seq<char>),
>
    decreases entries.len(),
{
    if entries.len() == 0 {
        Seq::empty()
    } else {
        let before = first_unset(entries.drop_last(), set.drop_last());
        if set.last() || named(entries.drop_last(), entries.last().0) {
            before
        } else {
            before.push(entries.last())
        }
    }
}

/// Does one of the first `n` entries have this name?
fn is_named(entries: &Vec<(String, String)>, n: usize, name: &str) -> (r: bool)
    requires
        n <= entries@.len(),
    ensures
        r == named(entry_views(entries@).take(n as int), name@),
{
    let ghost views = entry_views(entries@).take(n as int);
    let mut i: usize = 0;
    while i < n
        invariant
            n <= entries@.len(),
            views == entry_views(entries@).take(n as int),
            i <= n,
            forall|k: int| 0 <= k < i ==> (#[trigger] views[k]).0 != name@,
        decreases n - i,
    {
        assert(views[i as int].0 == entries@[i as int].0@);
        if same_text(entries[i].0.as_str(), name) {
            return true;
        }
        i += 1;
    }
    false
}

/// What a `.env` file adds to the environment: the entries whose names are not
/// set there, each by its first one. `set` says of each entry whether the
/// environment has its name.
pub fn entries_to_set(entries: &Vec<(String, String)>, set: &Vec<bool>) -> (r: Vec<
    (String, String),
>)
    requires
        set@.len() == entries@.len(),
    ensures
        entry_views(r@) == first_unset(entry_views(entries@), set@),
{
    let ghost views = entry_views(entries@);
    let mut r: Vec<(String, String)> = Vec::new();
    let mut i: usize = 0;
    assert(entry_views(r@) =~= first_unset(views.take(0), set@.take(0)));
    while i < entries.len()
        invariant
            set@.len() == entries@.len(),
            views == entry_views(entries@),
            i <= entries@.len(),
            entry_views(r@) == first_unset(views.take(i as int), set@.take(i as int)),
        decreases entries@.len() - i,
    {
        let ghost before = r@;
        assert(views.take(i + 1).drop_last() =~= views.take(i as int));
        assert(set@.take(i + 1).drop_last() =~= set@.take(i as int));
        if !set[i] && !is_named(entries, i, entries[i].0.as_str()) {
            let entry = (entries[i].0.clone(), entries[i].1.clone());
            let ghost view = (entry.0@, entry.1@);
            r.push(entry);
            assert(entry_views(r@) =~= entry_views(before).push(view));
        }
        i += 1;
    }
    assert(views.take(i as int) =~= views);
    assert(set@.take(i as int) =~= set@);
    r
}

proof fn lemma_first_unset_named(
    entries: Seq<(Seq<char>, Seq<char>)>,
    set: Seq<bool>,
    k: int,
)
    requires
        set.len() == entries.len(),
        0 <= k < first_unset(entries, set).len(),
    ensures
        entries.contains(first_unset(entries, set)[k]),
    decreases entries.len(),
{
    let rest = entries.drop_last();
    if k < first_unset(rest, set.drop_last()).len() {
        lemma_first_unset_named(rest, set.drop_last(), k);
        let entry = first_unset(rest, set.drop_last())[k];
        let i = choose|i: int| 0 <= i < rest.len() && rest[i] == entry;
        assert(entries[i] == entry);
    } else {
        assert(entries[entries.len() - 1] == entries.last());
    }
}

/// A `.env` file sets no name twice, and only as one of its lines has it.
pub proof fn law_no_name_is_set_twice(entries: Seq<(Seq<char>, Seq<char>)>, set: Seq<bool>)
    requires
        set.len() == entries.len(),
    ensures
        forall|k: int|
            0 <= k < first_unset(entries, set).len() ==> entries.contains(
                #[trigger] first_unset(entries, set)[k],
            ),
        forall|j: int, k: int|
            #![trigger first_unset(entries, set)[j], first_unset(entries, set)[k]]
            0 <= j < k < first_unset(entries, set).len() ==> first_unset(entries, set)[j].0
                != first_unset(entries, set)[k].0,
    decreases entries.len(),
{
    let kept = first_unset(entries, set);
    assert forall|k: int| 0 <= k < kept.len() implies entries.contains(#[trigger] kept[k]) by {
        lemma_first_unset_named(entries, set, k);
    }
    if entries.len() > 0 {
        let rest = entries.drop_last();
        let fewer = first_unset(rest, set.drop_last());
        law_no_name_is_set_twice(rest, set.drop_last());
        assert forall|j: int, k: int|
            #![trigger kept[j], kept[k]]
            0 <= j < k < kept.len() implies kept[j].0 != kept[k].0 by {
            assert(kept[j] == fewer[j]);
            assert(rest.contains(fewer[j]));
            if k < fewer.len() {
                assert(kept[k] == fewer[k]);
            } else {
                let i = choose|i: int| 0 <= i < rest.len() && rest[i] == fewer[j];
                assert(rest[i].0 == kept[j].0);
            }
        }
    }
}

} // verus!

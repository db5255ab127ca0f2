//! The report at the end of a game.

use vstd::prelude::*;

use crate::coords::color_text;
use crate::goban::{Color, Game};
use crate::options::{Opts, OptsView, Provider};
use crate::rules::{area, GameState};
use crate::stats::{billed_of, cached_of, calls_of, lemma_sums_grow, Stats, StatsView, TurnStat};
use crate::text::{decimal, push_decimal};

verus! {

/// Figures that are no whole numbers, as they are to be shown.
pub struct Figures {
    /// How many of a hundred replies were refused.
    pub rejections: String,
    /// By how many tokens the context grew with each move.
    pub per_move: String,
    /// How many of a hundred prompt tokens came from the cache.
    pub cached: String,
}

/// Figures that are no whole numbers, as they are to be shown.
#[verifier::ext_equal]
pub struct FiguresView {
    pub rejections: Seq<char>,
    pub per_move: Seq<char>,
    pub cached: Seq<char>,
}

impl View for Figures {
    type V = FiguresView;

    open spec fn view(&self) -> FiguresView {
        FiguresView {
            rejections: self.rejections@,
            per_move: self.per_move@,
            cached: self.cached@,
        }
    }
}

/// So many spaces.
pub open spec fn spaces(n: int) -> Seq<char> {
    Seq::new(
        if n > 0 {
            n as nat
        } else {
            0
        },
        |i: int| ' ',
    )
}

/// A number, right-aligned in `width` places.
pub open spec fn padded(n: nat, width: int) -> Seq<char> {
    spaces(width - decimal(n).len()) + decimal(n)
}

fn push_padded(out: &mut String, n: u64, width: usize)
    ensures
        final(out)@ == old(out)@ + padded(n as nat, width as int),
{
    let ghost start = out@;
    let mut numeral = String::new();
    push_decimal(&mut numeral, n);
    assert(numeral@ =~= decimal(n as nat));
    let len = numeral.as_str().unicode_len();
    let mut k: usize = len;
    assert(out@ =~= start + spaces(0));
    while k < width
        invariant
            len == decimal(n as nat).len(),
            len <= k,
            k <= width || k == len,
            out@ == start + spaces(k - len),
        decreases width - k,
    {
        out.push(' ');
        k += 1;
        assert(out@ =~= start + spaces(k - len));
    }
    assert(spaces(k - len) =~= spaces(width - len));
    out.append(numeral.as_str());
    assert(out@ =~= start + padded(n as nat, width as int));
}

/// What one turn took.
pub open spec fn turn_row(t: TurnStat) -> Seq<char> {
    padded(t.move_number as nat, 5) + "  "@ + padded(t.messages as nat, 5) + "  "@ + padded(
        t.billed(),
        9,
    ) + "  "@ + padded(t.cache_read as nat, 9) + "  "@ + padded(
        (t.input_tokens + t.cache_creation) as nat,
        9,
    ) + "  "@ + padded(t.output_tokens as nat, 7) + "\n"@
}

/// What each turn took.
pub open spec fn turn_rows(turns: Seq<TurnStat>) -> Seq<char>
    decreases turns.len(),
{
    if turns.len() == 0 {
        Seq::empty()
    } else {
        turn_rows(turns.drop_last()) + turn_row(turns.last())
    }
}

fn describe_row(t: &TurnStat) -> (r: String)
    requires
        t.billed() <= u32::MAX,
    ensures
        r@ == turn_row(*t),
{
    let mut r = String::new();
    push_padded(&mut r, t.move_number as u64, 5);
    assert(r@ =~= padded(t.move_number as nat, 5));
    r.append("  ");
    push_padded(&mut r, t.messages as u64, 5);
    r.append("  ");
    push_padded(&mut r, t.total_input() as u64, 9);
    r.append("  ");
    push_padded(&mut r, t.cache_read as u64, 9);
    r.append("  ");
    push_padded(&mut r, (t.input_tokens + t.cache_creation) as u64, 9);
    r.append("  ");
    push_padded(&mut r, t.output_tokens as u64, 7);
    r.append("\n");
    r
}

/// Who resigned, if anyone did.
pub open spec fn resigned_text(c: Option<Color>) -> Seq<char> {
    match c {
        Some(c) => color_text(c) + " resigned.\n"@,
        None => Seq::empty(),
    }
}

/// How the game ended.
pub open spec fn result_text(s: GameState) -> Seq<char> {
    "=== result ===\n"@ + resigned_text(s.resigned) + "captures: Black "@ + decimal(
        s.captures(Color::Black) as nat,
    ) + ", White "@ + decimal(s.captures(Color::White) as nat)
        + "\nprovisional area score (no dead-stone removal): Black "@ + decimal(
        area(s.cells, Color::Black).len(),
    ) + ", White "@ + decimal(area(s.cells, Color::White).len()) + "\n"@
}

/// How the loop did.
pub open spec fn telemetry_text(
    o: OptsView,
    anthropic: Seq<char>,
    stats: StatsView,
    messages: nat,
    figures: FiguresView,
) -> Seq<char> {
    "\n=== loop telemetry ===\nprovider:           "@ + o.provider.text()
        + "\nmodel:              "@ + o.model_text(anthropic)
        + "\nthinking:           "@ + o.thinking.text()
        + "\nmodel moves:        "@ + decimal(stats.turns.len()) + "\napi calls:          "@
        + decimal(calls_of(stats.turns)) + "\nillegal proposals:  "@ + decimal(stats.rejections)
        + " ("@ + figures.rejections + "% of calls)\nno-tool-call turns: "@ + decimal(
        stats.no_tool_call,
    ) + "\nforced passes:      "@ + decimal(stats.forced_passes) + "\nnotes updates:      "@
        + decimal(stats.notes_updates) + "\nfinal messages:     "@ + decimal(messages) + "\n"@
}

/// How much the cache served, if anything was billed.
pub open spec fn cache_text(turns: Seq<TurnStat>, figures: FiguresView) -> Seq<char> {
    if billed_of(turns) > 0 {
        "prompt cache served "@ + decimal(cached_of(turns)) + "/"@ + decimal(billed_of(turns))
            + " input tokens ("@ + figures.cached + "%)\n"@
    } else {
        Seq::empty()
    }
}

/// How the provider caches.
pub open spec fn policy_text(p: Provider) -> Seq<char> {
    match p {
        Provider::Anthropic => "cache: hydrogen automatic stable-prefix caching (volatile mark)\n"@,
        Provider::Xai => "cache: xAI automatic prefix caching (prompt_cache_key); demotion edits earlier messages so hit rate is lower than pure-append\n"@,
    }
}

/// How many moves lie between the first turn and the last, and one at least.
pub open spec fn span_of(turns: Seq<TurnStat>) -> nat {
    if turns.len() <= 2 {
        1
    } else {
        (turns.len() - 1) as nat
    }
}

/// By how many tokens the last turn was billed for more than the first.
pub open spec fn growth_of(turns: Seq<TurnStat>) -> int {
    turns.last().billed() - turns[0].billed()
}

/// The decimal numeral of a number, with its sign if it is negative.
pub open spec fn signed(n: int) -> Seq<char> {
    if n < 0 {
        "-"@ + decimal((-n) as nat)
    } else {
        decimal(n as nat)
    }
}

/// How the context grew, if there was any turn.
pub open spec fn growth_text(o: OptsView, turns: Seq<TurnStat>, figures: FiguresView) -> Seq<char> {
    if turns.len() == 0 {
        Seq::empty()
    } else {
        "\n=== context growth (the thing the pattern exists to keep flat) ===\n move   msgs   total_in   cache_rd   uncached      out\n"@
            + turn_rows(turns) + "\ncontext grew "@ + signed(
            growth_of(turns),
        ) + " tokens over "@ + decimal(
            span_of(turns),
        ) + " model moves = "@ + figures.per_move
            + " tok/move\n(a naive board-per-turn loop would grow by the full fat block, ~700-900/move)\n"@
            + cache_text(turns, figures) + policy_text(o.provider)
    }
}

/// The report.
pub open spec fn report_text(
    s: GameState,
    o: OptsView,
    anthropic: Seq<char>,
    stats: StatsView,
    messages: nat,
    figures: FiguresView,
) -> Seq<char> {
    result_text(s) + telemetry_text(o, anthropic, stats, messages, figures) + growth_text(
        o,
        stats.turns,
        figures,
    )
}

fn describe_result(game: &Game) -> (r: String)
    requires
        game.wf(),
    ensures
        r@ == result_text(game@),
{
    proof {
        assert(game@.captures(Color::Black) >= 0 && game@.captures(Color::White) >= 0);
    }
    let (black, white) = game.area_score();
    let mut resigned = String::new();
    assert(resigned@ =~= Seq::<char>::empty());
    if let Some(c) = game.resigned_by() {
        resigned = c.to_string();
        resigned.append(" resigned.\n");
    }
    let mut r = "=== result ===\n".to_owned();
    r.append(resigned.as_str());
    r.append("captures: Black ");
    push_decimal(&mut r, game.captures(Color::Black) as u64);
    r.append(", White ");
    push_decimal(&mut r, game.captures(Color::White) as u64);
    r.append("\nprovisional area score (no dead-stone removal): Black ");
    push_decimal(&mut r, black as u64);
    r.append(", White ");
    push_decimal(&mut r, white as u64);
    r.append("\n");
    r
}

fn describe_telemetry(
    opts: &Opts,
    anthropic: &str,
    stats: &Stats,
    messages: usize,
    figures: &Figures,
) -> (r: String)
    requires
        calls_of(stats@.turns) <= usize::MAX,
    ensures
        r@ == telemetry_text(opts@, anthropic@, stats@, messages as nat, figures@),
{
    let mut r = "\n=== loop telemetry ===\nprovider:           ".to_owned();
    r.append(opts.provider.name());
    r.append("\nmodel:              ");
    r.append(opts.model(anthropic).as_str());
    r.append("\nthinking:           ");
    r.append(opts.thinking.name());
    r.append("\nmodel moves:        ");
    push_decimal(&mut r, stats.total_moves() as u64);
    r.append("\napi calls:          ");
    push_decimal(&mut r, stats.total_api_calls() as u64);
    r.append("\nillegal proposals:  ");
    push_decimal(&mut r, stats.rejections as u64);
    r.append(" (");
    r.append(figures.rejections.as_str());
    r.append("% of calls)\nno-tool-call turns: ");
    push_decimal(&mut r, stats.no_tool_call as u64);
    r.append("\nforced passes:      ");
    push_decimal(&mut r, stats.forced_passes as u64);
    r.append("\nnotes updates:      ");
    push_decimal(&mut r, stats.notes_updates as u64);
    r.append("\nfinal messages:     ");
    push_decimal(&mut r, messages as u64);
    r.append("\n");
    r
}

fn describe_cache(stats: &Stats, figures: &Figures) -> (r: String)
    requires
        billed_of(stats@.turns) <= u32::MAX,
    ensures
        r@ == cache_text(stats@.turns, figures@),
{
    let (cached, billed) = stats.prompt_tokens();
    if billed == 0 {
        let r = String::new();
        assert(r@ =~= Seq::<char>::empty());
        return r;
    }
    let mut r = "prompt cache served ".to_owned();
    push_decimal(&mut r, cached as u64);
    r.append("/");
    push_decimal(&mut r, billed as u64);
    r.append(" input tokens (");
    r.append(figures.cached.as_str());
    r.append("%)\n");
    r
}

fn describe_rows(stats: &Stats) -> (r: String)
    requires
        billed_of(stats@.turns) <= u32::MAX,
    ensures
        r@ == turn_rows(stats@.turns),
{
    let ghost turns = stats.turns@;
    let mut r = String::new();
    assert(r@ =~= turn_rows(turns.take(0)));
    let mut i: usize = 0;
    while i < stats.turns.len()
        invariant
            turns == stats.turns@,
            billed_of(turns) <= u32::MAX,
            i <= turns.len(),
            r@ == turn_rows(turns.take(i as int)),
        decreases turns.len() - i,
    {
        proof {
            lemma_sums_grow(turns, i + 1);
            assert(turns.take(i + 1).drop_last() =~= turns.take(i as int));
        }
        r.append(describe_row(&stats.turns[i]).as_str());
        i += 1;
    }
    assert(turns.take(i as int) =~= turns);
    r
}

fn describe_difference(a: u32, b: u32) -> (r: String)
    ensures
        r@ == signed(a - b),
{
    if a < b {
        let mut r = "-".to_owned();
        push_decimal(&mut r, (b - a) as u64);
        r
    } else {
        let mut r = String::new();
        push_decimal(&mut r, (a - b) as u64);
        assert(r@ =~= signed(a - b));
        r
    }
}

/// No turn is billed for more than all of them.
proof fn lemma_turn_billed(turns: Seq<TurnStat>, i: int)
    requires
        0 <= i < turns.len(),
    ensures
        turns[i].billed() <= billed_of(turns),
{
    lemma_sums_grow(turns, i + 1);
    assert(turns.take(i + 1).last() == turns[i]);
}

fn describe_growth(opts: &Opts, stats: &Stats, figures: &Figures) -> (r: String)
    requires
        billed_of(stats@.turns) <= u32::MAX,
    ensures
        r@ == growth_text(opts@, stats@.turns, figures@),
{
    let n = stats.turns.len();
    if n == 0 {
        let r = String::new();
        assert(r@ =~= Seq::<char>::empty());
        return r;
    }
    let mut r =
        "\n=== context growth (the thing the pattern exists to keep flat) ===\n move   msgs   total_in   cache_rd   uncached      out\n".to_owned();
    r.append(describe_rows(stats).as_str());
    r.append("\ncontext grew ");
    proof {
        lemma_turn_billed(stats.turns@, 0);
        lemma_turn_billed(stats.turns@, n - 1);
    }
    let first = stats.turns[0].total_input();
    let last = stats.turns[n - 1].total_input();
    r.append(describe_difference(last, first).as_str());
    r.append(" tokens over ");
    let moves: usize = if n <= 2 {
        1
    } else {
        n - 1
    };
    push_decimal(&mut r, moves as u64);
    r.append(" model moves = ");
    r.append(figures.per_move.as_str());
    r.append(
        " tok/move\n(a naive board-per-turn loop would grow by the full fat block, ~700-900/move)\n",
    );
    r.append(describe_cache(stats, figures).as_str());
    r.append(
        match opts.provider {
            Provider::Anthropic => "cache: hydrogen automatic stable-prefix caching (volatile mark)\n",
            Provider::Xai => "cache: xAI automatic prefix caching (prompt_cache_key); demotion edits earlier messages so hit rate is lower than pure-append\n",
        },
    );
    r
}

/// Report how the game ended, how the loop did, and how the context grew.
/// `anthropic` is the default model at Anthropic.
pub fn report(
    game: &Game,
    opts: &Opts,
    anthropic: &str,
    stats: &Stats,
    messages: usize,
    figures: &Figures,
) -> (r: String)
    requires
        game.wf(),
        calls_of(stats@.turns) <= usize::MAX,
        billed_of(stats@.turns) <= u32::MAX,
    ensures
        r@ == report_text(game@, opts@, anthropic@, stats@, messages as nat, figures@),
{
    let mut r = describe_result(game);
    r.append(describe_telemetry(opts, anthropic, stats, messages, figures).as_str());
    r.append(describe_growth(opts, stats, figures).as_str());
    r
}

} // verus!

//! What the report tells of the game and of the turns.

use vstd::prelude::*;

use crate::goban::Color;
use crate::options::{OptsView, Provider};
use crate::report::{
    cache_text, growth_text, padded, policy_text, report_text, resigned_text, result_text, signed,
    span_of, telemetry_text, turn_row, turn_rows, FiguresView,
};
use crate::rules::{area, GameState};
use crate::stats::{billed_of, cached_of, calls_of, StatsView, TurnStat, Usage};
use crate::text::{
    decimal, holds, lemma_holds_end, lemma_holds_four, lemma_holds_more, lemma_holds_pieces,
};

verus! {

// ---------------------------------------------------------------------------
// Counting
// ---------------------------------------------------------------------------

/// One more turn adds its replies, the tokens it had from the cache, and all the
/// prompt tokens that it was billed for; no turn at all adds nothing.
pub proof fn law_turns_add_up(turns: Seq<TurnStat>, t: TurnStat)
    ensures
        calls_of(Seq::empty()) == 0,
        cached_of(Seq::empty()) == 0,
        billed_of(Seq::empty()) == 0,
        calls_of(turns.push(t)) == calls_of(turns) + t.api_calls,
        cached_of(turns.push(t)) == cached_of(turns) + t.cache_read,
        billed_of(turns.push(t)) == billed_of(turns) + t.input_tokens + t.cache_creation
            + t.cache_read,
{
    assert(turns.push(t).drop_last() =~= turns);
}

/// The tokens of a reply are added kind by kind: to what was read, to what was
/// put into the cache, to what came from it, and to what was written.
pub proof fn law_tokens_add_up(t: TurnStat, u: Usage)
    requires
        t.has_room_for(u),
    ensures
        t.plus(u).input_tokens == t.input_tokens + u.input_tokens,
        t.plus(u).cache_creation == t.cache_creation + u.cache_creation_input_tokens,
        t.plus(u).cache_read == t.cache_read + u.cache_read_input_tokens,
        t.plus(u).output_tokens == t.output_tokens + u.output_tokens,
        t.plus(u).billed() == t.billed() + u.input_tokens + u.cache_creation_input_tokens
            + u.cache_read_input_tokens,
        t.plus(u).move_number == t.move_number,
        t.plus(u).messages == t.messages,
        t.plus(u).api_calls == t.api_calls,
        t.plus(u).rejections == t.rejections,
{
}

// ---------------------------------------------------------------------------
// The result
// ---------------------------------------------------------------------------

/// The result tells the stones that each player took, Black first, and the area
/// of each.
#[verifier::spinoff_prover]
pub proof fn law_captures_and_areas_are_told(s: GameState)
    ensures
        holds(
            result_text(s),
            "captures: Black "@ + decimal(s.black_captures as nat) + ", White "@ + decimal(
                s.white_captures as nat,
            ) + "\nprovisional area score (no dead-stone removal): Black "@,
        ),
        ("\nprovisional area score (no dead-stone removal): Black "@ + decimal(
            area(s.cells, Color::Black).len(),
        ) + ", White "@ + decimal(area(s.cells, Color::White).len()) + "\n"@).is_suffix_of(
            result_text(s),
        ),
{
    let head = "=== result ===\n"@ + resigned_text(s.resigned);
    let l1 = "captures: Black "@;
    let b = decimal(s.black_captures as nat);
    let l2 = ", White "@;
    let w = decimal(s.white_captures as nat);
    let l3 = "\nprovisional area score (no dead-stone removal): Black "@;
    let ab = decimal(area(s.cells, Color::Black).len());
    let aw = decimal(area(s.cells, Color::White).len());
    let taken = l1 + b + l2 + w + l3;
    lemma_holds_pieces(head, l1, b, l2, w, l3);
    lemma_holds_four(head + l1 + b + l2 + w + l3, ab, l2, aw, "\n"@, taken);
    let t = result_text(s);
    let last = l3 + ab + l2 + aw + "\n"@;
    assert(t =~= head + l1 + b + l2 + w + last);
    assert(t.subrange(t.len() - last.len(), t.len() as int) =~= last);
}

/// The result opens with whoever resigned, by color, and with the captures if
/// nobody did.
pub proof fn law_a_resignation_is_told(s: GameState)
    ensures
        s.resigned == Some(Color::Black) ==> ("=== result ===\n"@ + ("Black"@ + " resigned.\n"@)
            + "captures: Black "@).is_prefix_of(result_text(s)),
        s.resigned == Some(Color::White) ==> ("=== result ===\n"@ + ("White"@ + " resigned.\n"@)
            + "captures: Black "@).is_prefix_of(result_text(s)),
        s.resigned is None ==> ("=== result ===\n"@ + "captures: Black "@).is_prefix_of(
            result_text(s),
        ),
{
    let head = "=== result ===\n"@ + resigned_text(s.resigned) + "captures: Black "@;
    let t = result_text(s);
    assert(t.take(head.len() as int) =~= head);
    if s.resigned is None {
        assert(head =~= "=== result ===\n"@ + "captures: Black "@);
    }
}

// ---------------------------------------------------------------------------
// The turns
// ---------------------------------------------------------------------------

/// The report tells with what the game was played and what was counted, each
/// figure behind its own label.
#[verifier::spinoff_prover]
pub proof fn law_what_the_telemetry_tells(
    o: OptsView,
    anthropic: Seq<char>,
    stats: StatsView,
    messages: nat,
    figures: FiguresView,
)
    ensures
        ({
            let t = telemetry_text(o, anthropic, stats, messages, figures);
            let provider = if o.provider == Provider::Anthropic {
                "anthropic"@
            } else {
                "xai"@
            };
            &&& holds(
                t,
                "\n=== loop telemetry ===\nprovider:           "@ + provider
                    + "\nmodel:              "@ + o.model_text(anthropic)
                    + "\nthinking:           "@,
            )
            &&& holds(
                t,
                "\nthinking:           "@ + o.thinking.text() + "\nmodel moves:        "@,
            )
            &&& holds(
                t,
                "\nmodel moves:        "@ + decimal(stats.turns.len()) + "\napi calls:          "@
                    + decimal(calls_of(stats.turns)) + "\nillegal proposals:  "@,
            )
            &&& holds(
                t,
                "\nillegal proposals:  "@ + decimal(stats.rejections) + " ("@ + figures.rejections
                    + "% of calls)\nno-tool-call turns: "@,
            )
            &&& holds(
                t,
                "% of calls)\nno-tool-call turns: "@ + decimal(stats.no_tool_call)
                    + "\nforced passes:      "@ + decimal(stats.forced_passes)
                    + "\nnotes updates:      "@,
            )
            &&& holds(
                t,
                "\nnotes updates:      "@ + decimal(stats.notes_updates)
                    + "\nfinal messages:     "@ + decimal(messages) + "\n"@,
            )
        }),
{
    let l0 = "\n=== loop telemetry ===\nprovider:           "@;
    let p = o.provider.text();
    let l1 = "\nmodel:              "@;
    let m = o.model_text(anthropic);
    let l2 = "\nthinking:           "@;
    let k = o.thinking.text();
    let l3 = "\nmodel moves:        "@;
    let n = decimal(stats.turns.len());
    let l4 = "\napi calls:          "@;
    let c = decimal(calls_of(stats.turns));
    let l5 = "\nillegal proposals:  "@;
    let r = decimal(stats.rejections);
    let l6 = " ("@;
    let f = figures.rejections;
    let l7 = "% of calls)\nno-tool-call turns: "@;
    let q = decimal(stats.no_tool_call);
    let l8 = "\nforced passes:      "@;
    let x = decimal(stats.forced_passes);
    let l9 = "\nnotes updates:      "@;
    let u = decimal(stats.notes_updates);
    let l10 = "\nfinal messages:     "@;
    let g = decimal(messages);
    let l11 = "\n"@;

    let t2 = l0 + p + l1 + m + l2;
    let t3 = t2 + k + l3;
    let t5 = t3 + n + l4 + c + l5;
    let t7 = t5 + r + l6 + f + l7;
    let t9 = t7 + q + l8 + x + l9;
    let t = t9 + u + l10 + g + l11;
    assert(t == telemetry_text(o, anthropic, stats, messages, figures));

    assert(Seq::<char>::empty() + t2 =~= t2);
    lemma_holds_end(Seq::empty(), t2);
    let n1 = l2 + k + l3;
    lemma_holds_pieces(l0 + p + l1 + m, l2, k, l3, n, l4);
    let n2 = l3 + n + l4 + c + l5;
    lemma_holds_pieces(t2 + k, l3, n, l4, c, l5);
    let n3 = l5 + r + l6 + f + l7;
    lemma_holds_pieces(t3 + n + l4 + c, l5, r, l6, f, l7);
    let n4 = l7 + q + l8 + x + l9;
    lemma_holds_pieces(t5 + r + l6 + f, l7, q, l8, x, l9);
    lemma_holds_pieces(t7 + q + l8 + x, l9, u, l10, g, l11);

    lemma_holds_more(t2, k, t2);
    lemma_holds_more(t2 + k, l3, t2);
    lemma_holds_four(t3, n, l4, c, l5, t2);
    lemma_holds_four(t5, r, l6, f, l7, t2);
    lemma_holds_four(t7, q, l8, x, l9, t2);
    lemma_holds_four(t9, u, l10, g, l11, t2);
    lemma_holds_four(t3, n, l4, c, l5, n1);
    lemma_holds_four(t5, r, l6, f, l7, n1);
    lemma_holds_four(t7, q, l8, x, l9, n1);
    lemma_holds_four(t9, u, l10, g, l11, n1);
    lemma_holds_four(t5, r, l6, f, l7, n2);
    lemma_holds_four(t7, q, l8, x, l9, n2);
    lemma_holds_four(t9, u, l10, g, l11, n2);
    lemma_holds_four(t7, q, l8, x, l9, n3);
    lemma_holds_four(t9, u, l10, g, l11, n3);
    lemma_holds_four(t9, u, l10, g, l11, n4);
}

/// A number is padded on the left with spaces, to so many places at least, and
/// keeps all its digits.
pub proof fn law_numbers_are_padded(n: nat, width: int)
    ensures
        decimal(n).is_suffix_of(padded(n, width)),
        forall|i: int|
            0 <= i < padded(n, width).len() - decimal(n).len() ==> #[trigger] padded(n, width)[i]
                == ' ',
        padded(n, width).len() == if decimal(n).len() < width {
            width as nat
        } else {
            decimal(n).len()
        },
{
    let t = padded(n, width);
    assert(t.subrange(t.len() - decimal(n).len(), t.len() as int) =~= decimal(n));
}

/// A row tells of a turn its number, its messages, the tokens it was billed for,
/// those of them from the cache, the others, and those that were written.
pub proof fn law_what_a_row_tells(t: TurnStat)
    ensures
        ({
            let others = (t.input_tokens + t.cache_creation) as nat;
            turn_row(t) == padded(t.move_number as nat, 5) + "  "@ + padded(t.messages as nat, 5)
                + "  "@ + padded(others + t.cache_read as nat, 9) + "  "@ + padded(
                t.cache_read as nat,
                9,
            ) + "  "@ + padded(others, 9) + "  "@ + padded(t.output_tokens as nat, 7) + "\n"@
        }),
{
}

/// Every turn has its row, in the order of the turns.
pub proof fn law_every_turn_has_its_row(turns: Seq<TurnStat>, t: TurnStat)
    ensures
        turn_rows(Seq::empty()) == Seq::<char>::empty(),
        turn_rows(turns.push(t)) == turn_rows(turns) + turn_row(t),
{
    assert(turns.push(t).drop_last() =~= turns);
}

/// The rows are followed by how the context grew: by what the last turn was
/// billed for more than the first, with a sign if it was less, and over how many
/// moves, the first left out.
#[verifier::spinoff_prover]
pub proof fn law_growth_is_told(o: OptsView, turns: Seq<TurnStat>, figures: FiguresView)
    requires
        turns.len() > 0,
    ensures
        ({
            let t = growth_text(o, turns, figures);
            let first = turns[0].input_tokens + turns[0].cache_creation + turns[0].cache_read;
            let last = turns.last().input_tokens + turns.last().cache_creation
                + turns.last().cache_read;
            let grew = if last >= first {
                decimal((last - first) as nat)
            } else {
                "-"@ + decimal((first - last) as nat)
            };
            let moves = if turns.len() == 1 {
                1
            } else {
                (turns.len() - 1) as nat
            };
            &&& holds(t, turn_rows(turns) + "\ncontext grew "@ + grew + " tokens over "@ + decimal(
                moves,
            ))
            &&& holds(
                t,
                " tokens over "@ + decimal(moves) + " model moves = "@ + figures.per_move
                    + " tok/move\n(a naive board-per-turn loop would grow by the full fat block, ~700-900/move)\n"@,
            )
        }),
{
    let head =
        "\n=== context growth (the thing the pattern exists to keep flat) ===\n move   msgs   total_in   cache_rd   uncached      out\n"@;
    let rows = turn_rows(turns);
    let l1 = "\ncontext grew "@;
    let grew = signed(turns.last().billed() - turns[0].billed());
    let l2 = " tokens over "@;
    let moves = decimal(span_of(turns));
    let l3 = " model moves = "@;
    let per = figures.per_move;
    let l4 =
        " tok/move\n(a naive board-per-turn loop would grow by the full fat block, ~700-900/move)\n"@;
    let c = cache_text(turns, figures);
    let p = policy_text(o.provider);
    let told = rows + l1 + grew + l2 + moves;
    lemma_holds_pieces(head, rows, l1, grew, l2, moves);
    lemma_holds_four(head + rows + l1 + grew + l2 + moves, l3, per, l4, c, told);
    lemma_holds_more(head + rows + l1 + grew + l2 + moves + l3 + per + l4 + c, p, told);
    let rest = l2 + moves + l3 + per + l4;
    lemma_holds_pieces(head + rows + l1 + grew, l2, moves, l3, per, l4);
    lemma_holds_more(head + rows + l1 + grew + l2 + moves + l3 + per + l4, c, rest);
    lemma_holds_more(head + rows + l1 + grew + l2 + moves + l3 + per + l4 + c, p, rest);
}

/// The report ends with what the cache served, if anything was billed, and with
/// how the provider caches.
#[verifier::spinoff_prover]
pub proof fn law_the_cache_is_told(o: OptsView, turns: Seq<TurnStat>, figures: FiguresView)
    requires
        turns.len() > 0,
    ensures
        ({
            let served = "prompt cache served "@ + decimal(cached_of(turns)) + "/"@ + decimal(
                billed_of(turns),
            ) + " input tokens ("@ + figures.cached + "%)\n"@;
            let policy = if o.provider == Provider::Anthropic {
                "cache: hydrogen automatic stable-prefix caching (volatile mark)\n"@
            } else {
                "cache: xAI automatic prefix caching (prompt_cache_key); demotion edits earlier messages so hit rate is lower than pure-append\n"@
            };
            let before =
                " tok/move\n(a naive board-per-turn loop would grow by the full fat block, ~700-900/move)\n"@;
            &&& billed_of(turns) > 0 ==> (before + (served + policy)).is_suffix_of(
                growth_text(o, turns, figures),
            )
            &&& billed_of(turns) == 0 ==> (before + policy).is_suffix_of(
                growth_text(o, turns, figures),
            )
        }),
{
    let before =
        " tok/move\n(a naive board-per-turn loop would grow by the full fat block, ~700-900/move)\n"@;
    let t = growth_text(o, turns, figures);
    let c = cache_text(turns, figures);
    let p = policy_text(o.provider);
    let last = before + (c + p);
    assert(t.subrange(t.len() - last.len(), t.len() as int) =~= last);
    if billed_of(turns) == 0 {
        assert(last =~= before + p);
    }
}

/// The report is the result, then the telemetry, then the growth, which is left
/// out where no turn was taken.
pub proof fn law_the_report_is_whole(
    s: GameState,
    o: OptsView,
    anthropic: Seq<char>,
    stats: StatsView,
    messages: nat,
    figures: FiguresView,
)
    ensures
        ({
            let t = report_text(s, o, anthropic, stats, messages, figures);
            let result = result_text(s);
            let telemetry = telemetry_text(o, anthropic, stats, messages, figures);
            let growth = growth_text(o, stats.turns, figures);
            &&& result.is_prefix_of(t)
            &&& holds(t, telemetry)
            &&& growth.is_suffix_of(t)
            &&& t.len() == result.len() + telemetry.len() + growth.len()
            &&& stats.turns.len() == 0 <==> growth.len() == 0
        }),
{
    let t = report_text(s, o, anthropic, stats, messages, figures);
    let result = result_text(s);
    let telemetry = telemetry_text(o, anthropic, stats, messages, figures);
    let growth = growth_text(o, stats.turns, figures);
    assert(t.take(result.len() as int) =~= result);
    lemma_holds_end(result, telemetry);
    lemma_holds_more(result + telemetry, growth, telemetry);
    assert(t.subrange(t.len() - growth.len(), t.len() as int) =~= growth);
    reveal_strlit("\ncontext grew ");
}

} // verus!

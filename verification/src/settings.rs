//! What the command line and the `.env` file set.

use vstd::prelude::*;

use crate::agent::ThinkingEffort;
use crate::options::{
    effort_of, entry_views, env_line, env_lines, first_unset, named, number_error_text, provider_of,
    takes_value, OptsView, Provider,
};
use crate::text::{
    decimal, law_decimal_reads_back, law_padding_is_trimmed,
    law_stripping_takes_a_character_off_the_ends, read_number, span, stripped, white_space,
    NumberError,
};

verus! {

// ---------------------------------------------------------------------------
// The command line
// ---------------------------------------------------------------------------

/// The names of the options, all of them different.
proof fn lemma_names()
    ensures
        "--provider"@.len() == 10 && "--provider"@[2] == 'p',
        "--opponent"@.len() == 10 && "--opponent"@[2] == 'o',
        "--moves"@.len() == 7 && "--moves"@[3] == 'o' && "--moves"@[4] == 'v',
        "--model"@.len() == 7 && "--model"@[3] == 'o' && "--model"@[4] == 'd',
        "--max-attempts"@.len() == 14,
        "--seed"@.len() == 6 && "--seed"@[2] == 's',
        "--out"@.len() == 5,
        "--thinking"@.len() == 10 && "--thinking"@[2] == 't',
        "-h"@.len() == 2,
        "--help"@.len() == 6 && "--help"@[2] == 'h',
{
    reveal_strlit("--provider");
    reveal_strlit("--opponent");
    reveal_strlit("--moves");
    reveal_strlit("--model");
    reveal_strlit("--max-attempts");
    reveal_strlit("--seed");
    reveal_strlit("--out");
    reveal_strlit("--thinking");
    reveal_strlit("-h");
    reveal_strlit("--help");
}

/// Every option sets what it names and leaves all else as it was.
pub proof fn law_an_option_sets_what_it_names(o: OptsView, value: Seq<char>)
    ensures
        o.with("--opponent"@, value) == Ok::<OptsView, Seq<char>>(
            OptsView { bot: value == "bot"@, ..o },
        ),
        o.with("--model"@, value) == Ok::<OptsView, Seq<char>>(
            OptsView { model: Some(value), ..o },
        ),
        o.with("--out"@, value) == Ok::<OptsView, Seq<char>>(OptsView { out: value, ..o }),
        o.with("--provider"@, "anthropic"@) == Ok::<OptsView, Seq<char>>(
            OptsView { provider: Provider::Anthropic, ..o },
        ),
        o.with("--provider"@, "xai"@) == Ok::<OptsView, Seq<char>>(
            OptsView { provider: Provider::Xai, ..o },
        ),
        o.with("--thinking"@, "high"@) == Ok::<OptsView, Seq<char>>(
            OptsView { thinking: ThinkingEffort::High, ..o },
        ),
        o.with("--thinking"@, "medium"@) == Ok::<OptsView, Seq<char>>(
            OptsView { thinking: ThinkingEffort::Medium, ..o },
        ),
        o.with("--thinking"@, "low"@) == Ok::<OptsView, Seq<char>>(
            OptsView { thinking: ThinkingEffort::Low, ..o },
        ),
{
    lemma_names();
    reveal_strlit("anthropic");
    reveal_strlit("xai");
    reveal_strlit("high");
    reveal_strlit("medium");
    reveal_strlit("low");
    assert("anthropic"@.len() != "xai"@.len());
    assert("high"@.len() == 4 && "medium"@.len() == 6 && "low"@.len() == 3);
}

/// A number that is given as its numeral is set as it is.
pub proof fn law_numbers_are_set(o: OptsView, n: nat)
    ensures
        n <= u32::MAX ==> o.with("--moves"@, decimal(n)) == Ok::<OptsView, Seq<char>>(
            OptsView { moves: n, ..o },
        ),
        n <= usize::MAX ==> o.with("--max-attempts"@, decimal(n)) == Ok::<OptsView, Seq<char>>(
            OptsView { max_attempts: n, ..o },
        ),
        n <= u64::MAX ==> o.with("--seed"@, decimal(n)) == Ok::<OptsView, Seq<char>>(
            OptsView { seed: n, ..o },
        ),
{
    lemma_names();
    if n <= u32::MAX {
        law_decimal_reads_back(n, u32::MAX as nat);
    }
    if n <= usize::MAX {
        law_decimal_reads_back(n, usize::MAX as nat);
    }
    if n <= u64::MAX {
        law_decimal_reads_back(n, u64::MAX as nat);
    }
}

/// An option is refused only for its own value: a provider or an effort of
/// another name, or a number that cannot be read or does not fit.
pub proof fn law_when_a_value_is_refused(o: OptsView, value: Seq<char>)
    ensures
        o.with("--provider"@, value) is Err <==> value != "anthropic"@ && value != "xai"@,
        o.with("--provider"@, value) matches Err(e) ==> e == "unknown --provider '"@ + value
            + "' (want anthropic|xai)"@,
        o.with("--thinking"@, value) is Err <==> value != "high"@ && value != "medium"@ && value
            != "low"@,
        o.with("--thinking"@, value) matches Err(e) ==> e == "unknown --thinking '"@ + value
            + "' (want high|medium|low)"@,
        o.with("--moves"@, value) is Err <==> read_number(value, u32::MAX as nat) is Err,
        o.with("--max-attempts"@, value) is Err <==> read_number(value, usize::MAX as nat) is Err,
        o.with("--seed"@, value) is Err <==> read_number(value, u64::MAX as nat) is Err,
        number_error_text(NumberError::Empty) == "cannot parse integer from empty string"@,
        number_error_text(NumberError::InvalidDigit) == "invalid digit found in string"@,
        number_error_text(NumberError::Overflow) == "number too large to fit in target type"@,
{
    lemma_names();
}

/// The arguments are read from the first to the last: an option and its value
/// are set before the rest is read, and what is wrong ends the reading.
pub proof fn law_arguments_are_read_in_order(
    o: OptsView,
    name: Seq<char>,
    value: Seq<char>,
    rest: Seq<Seq<char>>,
)
    ensures
        o.read(Seq::empty()) == Ok::<Option<OptsView>, Seq<char>>(Some(o)),
        o.read(seq!["-h"@] + rest) == Ok::<Option<OptsView>, Seq<char>>(None),
        o.read(seq!["--help"@] + rest) == Ok::<Option<OptsView>, Seq<char>>(None),
        ({
            let valued = name == "--provider"@ || name == "--opponent"@ || name == "--moves"@
                || name == "--model"@ || name == "--max-attempts"@ || name == "--seed"@ || name
                == "--out"@ || name == "--thinking"@;
            &&& valued ==> o.read(seq![name, value] + rest) == match o.with(name, value) {
                Ok(next) => next.read(rest),
                Err(e) => Err(e),
            }
            &&& valued ==> o.read(seq![name]) == Err::<Option<OptsView>, Seq<char>>(
                name + " needs a value"@,
            )
            &&& !valued && name != "-h"@ && name != "--help"@ ==> o.read(seq![name] + rest) == Err::<
                Option<OptsView>,
                Seq<char>,
            >("unknown argument '"@ + name + "'"@)
        }),
{
    lemma_names();
    let both = seq![name, value] + rest;
    assert(both[0] == name && both[1] == value);
    assert(both.skip(2) =~= rest);
    assert((seq![name] + rest)[0] == name);
    assert((seq!["-h"@] + rest)[0] == "-h"@);
    assert((seq!["--help"@] + rest)[0] == "--help"@);
    assert(seq![name].len() == 1 && seq![name][0] == name);
    if takes_value(name) {
        assert(name != "-h"@ && name != "--help"@);
    }
}

/// What is done where nothing is asked for.
pub proof fn law_what_is_done_by_default()
    ensures
        OptsView::initial().provider == Provider::Anthropic,
        !OptsView::initial().bot,
        OptsView::initial().moves == 0,
        OptsView::initial().model is None,
        OptsView::initial().thinking == ThinkingEffort::Medium,
        OptsView::initial().max_attempts == 3,
        OptsView::initial().seed == 1,
        OptsView::initial().out == "games/latest"@,
{
}

/// The model that was named is the one that is asked; where none was, it is the
/// default of the provider.
pub proof fn law_which_model_is_asked(o: OptsView, anthropic: Seq<char>)
    ensures
        o.model matches Some(m) ==> o.model_text(anthropic) == m,
        o.model is None && o.provider == Provider::Anthropic ==> o.model_text(anthropic)
            == anthropic,
        o.model is None && o.provider == Provider::Xai ==> o.model_text(anthropic) == "grok-4.5"@,
{
}

/// The name of a provider and that of an effort is what selects it.
pub proof fn law_names_select(p: Provider, t: ThinkingEffort)
    ensures
        provider_of(p.text()) == Ok::<Provider, Seq<char>>(p),
        effort_of(t.text()) == Ok::<ThinkingEffort, Seq<char>>(t),
{
    reveal_strlit("anthropic");
    reveal_strlit("xai");
    reveal_strlit("high");
    reveal_strlit("medium");
    reveal_strlit("low");
    assert("anthropic"@.len() != "xai"@.len());
    assert("high"@.len() == 4 && "medium"@.len() == 6 && "low"@.len() == 3);
}

// ---------------------------------------------------------------------------
// The environment file
// ---------------------------------------------------------------------------

/// Only white space.
pub open spec fn blank(s: Seq<char>) -> bool {
    forall|i: int| 0 <= i < s.len() ==> white_space(#[trigger] s[i])
}

/// The first equals sign stands behind what holds none.
proof fn lemma_span_to(name: Seq<char>, rest: Seq<char>)
    requires
        !name.contains('='),
    ensures
        span(name + seq!['='] + rest, '=') == name.len(),
    decreases name.len(),
{
    let s = name + seq!['='] + rest;
    if name.len() > 0 {
        let fewer = name.drop_first();
        assert(name[0] != '=') by {
            assert(name.contains(name[0]));
        }
        assert(!fewer.contains('=')) by {
            if fewer.contains('=') {
                let i = choose|i: int| 0 <= i < fewer.len() && fewer[i] == '=';
                assert(name[i + 1] == '=');
            }
        }
        lemma_span_to(fewer, rest);
        assert(s.drop_first() =~= fewer + seq!['='] + rest);
    }
}

/// Without an equals sign there is none to be found.
proof fn lemma_span_none(s: Seq<char>)
    requires
        !s.contains('='),
    ensures
        span(s, '=') == s.len(),
    decreases s.len(),
{
    if s.len() > 0 {
        let fewer = s.drop_first();
        assert(s[0] != '=') by {
            assert(s.contains(s[0]));
        }
        assert(!fewer.contains('=')) by {
            if fewer.contains('=') {
                let i = choose|i: int| 0 <= i < fewer.len() && fewer[i] == '=';
                assert(s[i + 1] == '=');
            }
        }
        lemma_span_none(fewer);
    }
}

/// Either kind of quotes around a value is taken off, and nothing of the value.
proof fn lemma_unquoted(value: Seq<char>, quote: Option<char>)
    requires
        value.len() > 0 ==> value[0] != '"' && value[0] != '\'' && value.last() != '"'
            && value.last() != '\'',
        quote matches Some(q) ==> q == '"' || q == '\'',
    ensures
        stripped(stripped(quoted(value, quote), '"'), '\'') == value,
{
    let raw = quoted(value, quote);
    let none = Seq::<char>::empty();
    assert(Seq::new(0, |i: int| '"') =~= none);
    assert(Seq::new(0, |i: int| '\'') =~= none);
    assert(Seq::new(1, |i: int| '"') =~= seq!['"']);
    assert(Seq::new(1, |i: int| '\'') =~= seq!['\'']);
    assert(none + value + none =~= value);
    assert(none + raw + none =~= raw);
    law_stripping_takes_a_character_off_the_ends(0, value, 0, '"');
    law_stripping_takes_a_character_off_the_ends(0, value, 0, '\'');
    law_stripping_takes_a_character_off_the_ends(1, value, 1, '"');
    law_stripping_takes_a_character_off_the_ends(1, value, 1, '\'');
    if quote == Some('\'') {
        assert(raw[0] == '\'' && raw.last() == '\'');
        law_stripping_takes_a_character_off_the_ends(0, raw, 0, '"');
    }
}

/// A value as it stands in the file, between quotes or bare.
pub open spec fn quoted(value: Seq<char>, quote: Option<char>) -> Seq<char> {
    match quote {
        Some(q) => seq![q] + value + seq![q],
        None => value,
    }
}

/// A line that sets a name reads back, whatever white space stands round the
/// name and the value, and whether the value is bare or between quotes of either
/// kind.
pub proof fn law_a_setting_reads_back(
    name: Seq<char>,
    value: Seq<char>,
    quote: Option<char>,
    a: Seq<char>,
    b: Seq<char>,
    c: Seq<char>,
    d: Seq<char>,
)
    requires
        name.len() > 0,
        !white_space(name[0]) && !white_space(name.last()),
        name[0] != '#',
        !name.contains('='),
        value.len() > 0 ==> value[0] != '"' && value[0] != '\'' && value.last() != '"'
            && value.last() != '\'',
        quote is None && value.len() > 0 ==> !white_space(value[0]) && !white_space(value.last()),
        quote matches Some(q) ==> q == '"' || q == '\'',
        blank(a) && blank(b) && blank(c) && blank(d),
    ensures
        env_line(a + name + b + seq!['='] + c + quoted(value, quote) + d) == Some((name, value)),
{
    let raw = quoted(value, quote);
    let none = Seq::<char>::empty();
    let line = a + name + b + seq!['='] + c + raw + d;
    let left = name + b;
    lemma_unquoted(value, quote);
    law_padding_is_trimmed(none, name, b);
    assert(none + name + b =~= left);
    assert(!left.contains('=')) by {
        if left.contains('=') {
            let i = choose|i: int| 0 <= i < left.len() && left[i] == '=';
            if i < name.len() {
                assert(name[i] == '=');
            } else {
                assert(white_space(b[i - name.len()]));
            }
        }
    }
    if raw.len() > 0 {
        let t = left + seq!['='] + (c + raw);
        assert(t.last() == raw.last());
        assert(t[0] == name[0]);
        law_padding_is_trimmed(a, t, d);
        assert(line =~= a + t + d);
        lemma_span_to(left, c + raw);
        assert(t.take(left.len() as int) =~= left);
        assert(t.skip(left.len() as int + 1) =~= c + raw);
        law_padding_is_trimmed(c, raw, none);
        assert(c + raw + none =~= c + raw);
    } else {
        let t = left + seq!['='] + none;
        let end = c + d;
        assert forall|i: int| 0 <= i < end.len() implies white_space(#[trigger] end[i]) by {
            if i < c.len() {
                assert(end[i] == c[i]);
            } else {
                assert(end[i] == d[i - c.len()]);
            }
        }
        assert(t.last() == '=');
        assert(t[0] == name[0]);
        law_padding_is_trimmed(a, t, end);
        assert(line =~= a + t + end);
        lemma_span_to(left, none);
        assert(t.take(left.len() as int) =~= left);
        assert(t.skip(left.len() as int + 1) =~= none);
        law_padding_is_trimmed(none, none, none);
        assert(none + none + none =~= none);
        assert(raw =~= none);
    }
}

/// An empty line, a comment and a line without an equals sign set nothing.
pub proof fn law_what_sets_nothing(a: Seq<char>, s: Seq<char>, b: Seq<char>)
    requires
        blank(a) && blank(b),
        s.len() > 0 ==> !white_space(s[0]) && !white_space(s.last()),
    ensures
        s.len() == 0 || s[0] == '#' || !s.contains('=') ==> env_line(a + s + b) is None,
{
    law_padding_is_trimmed(a, s, b);
    if !s.contains('=') {
        lemma_span_none(s);
    }
}

/// The lines are read in order, and each adds what it sets.
pub proof fn law_lines_are_read_in_order(lines: Seq<Seq<char>>, line: Seq<char>)
    ensures
        env_lines(Seq::empty()) == Seq::<(Seq<char>, Seq<char>)>::empty(),
        env_line(line) is None ==> env_lines(lines.push(line)) == env_lines(lines),
        env_line(line) matches Some(entry) ==> env_lines(lines.push(line)) == env_lines(lines).push(
            entry,
        ),
{
    assert(lines.push(line).drop_last() =~= lines);
}

/// One entry more is set exactly if the environment does not have its name and
/// no entry before it has that name; the others are set as without it.
pub proof fn law_what_is_set(
    entries: Seq<(Seq<char>, Seq<char>)>,
    set: Seq<bool>,
    entry: (Seq<char>, Seq<char>),
    known: bool,
)
    requires
        set.len() == entries.len(),
    ensures
        first_unset(Seq::empty(), Seq::empty()) == Seq::<(Seq<char>, Seq<char>)>::empty(),
        known ==> first_unset(entries.push(entry), set.push(known)) == first_unset(entries, set),
        (exists|i: int| 0 <= i < entries.len() && (#[trigger] entries[i]).0 == entry.0)
            ==> first_unset(entries.push(entry), set.push(known)) == first_unset(entries, set),
        !known && (forall|i: int| 0 <= i < entries.len() ==> (#[trigger] entries[i]).0 != entry.0)
            ==> first_unset(entries.push(entry), set.push(known)) == first_unset(entries, set).push(
            entry,
        ),
{
    assert(entries.push(entry).drop_last() =~= entries);
    assert(set.push(known).drop_last() =~= set);
    assert(entries.push(entry).last() == entry);
    assert(named(entries, entry.0) <==> exists|i: int|
        0 <= i < entries.len() && (#[trigger] entries[i]).0 == entry.0);
}

/// Names and values are listed in order, each name with its own value.
pub proof fn law_entries_keep_their_order(entries: Seq<(String, String)>, i: int)
    ensures
        entry_views(entries).len() == entries.len(),
        0 <= i < entries.len() ==> entry_views(entries)[i].0 == entries[i].0@
            && entry_views(entries)[i].1 == entries[i].1@,
{
}

} // verus!

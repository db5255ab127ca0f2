//! Plain text: numerals, trimming, joining, ordering.
//!
//! Every function here works on the characters of a string and is stated over
//! `Seq<char>`, so that larger texts can be specified by concatenation.

use vstd::prelude::*;

verus! {

/// `String::push` appends one character to the end of the string.
pub assume_specification[ String::push ](s: &mut String, c: char)
    ensures
        final(s)@ == old(s)@.push(c),
;

// ---------------------------------------------------------------------------
// Characters and strings
// ---------------------------------------------------------------------------

/// The characters of a string, in order.
pub fn chars_of(s: &str) -> (r: Vec<char>)
    ensures
        r@ == s@,
{
    let mut r: Vec<char> = Vec::new();
    for c in it: s.chars()
        invariant
            it.seq() == s@,
            r@ == s@.take(it.index()),
    {
        r.push(c);
        assert(s@.take(it.index() + 1) =~= s@.take(it.index()).push(c));
    }
    assert(s@.take(s@.len() as int) =~= s@);
    r
}

/// The string made of `chars[from..to]`.
pub fn text_of(chars: &Vec<char>, from: usize, to: usize) -> (r: String)
    requires
        from <= to <= chars@.len(),
    ensures
        r@ == chars@.subrange(from as int, to as int),
{
    let mut r = String::new();
    let mut i: usize = from;
    while i < to
        invariant
            from <= i <= to <= chars@.len(),
            r@ == chars@.subrange(from as int, i as int),
        decreases to - i,
    {
        r.push(chars[i]);
        i += 1;
        assert(r@ =~= chars@.subrange(from as int, i as int));
    }
    r
}

/// Do the two strings hold the same characters?
pub fn same_text(a: &str, b: &str) -> (r: bool)
    ensures
        r == (a@ == b@),
{
    a.to_owned() == b.to_owned()
}

// ---------------------------------------------------------------------------
// Decimal numerals
// ---------------------------------------------------------------------------

/// The character that stands for the digit `d`, `0 <= d < 10`.
pub open spec fn digit_char(d: int) -> char {
    (48 + d) as char
}

/// The decimal numeral of `n`, without leading zeros.
pub open spec fn decimal(n: nat) -> Seq<char>
    decreases n,
{
    if n < 10 {
        seq![digit_char(n as int)]
    } else {
        decimal(n / 10).push(digit_char((n % 10) as int))
    }
}

/// Append the decimal numeral of `n`.
pub fn push_decimal(out: &mut String, n: u64)
    ensures
        final(out)@ == old(out)@ + decimal(n as nat),
    decreases n,
{
    if n >= 10 {
        push_decimal(out, n / 10);
    }
    let d: u8 = (n % 10) as u8;
    out.push((48u8 + d) as char);
}

/// Why a numeral cannot be read.
#[derive(Debug, Clone, Copy, PartialEq, Eq, Structural)]
pub enum NumberError {
    Empty,
    InvalidDigit,
    Overflow,
}

pub open spec fn is_digit(c: char) -> bool {
    '0' <= c <= '9'
}

/// The number that the digits `s` make when they follow digits that make
/// `acc`, as far as it stays within `max`.
pub open spec fn read_digits(s: Seq<char>, acc: nat, max: nat) -> Result<nat, NumberError>
    decreases s.len(),
{
    if s.len() == 0 {
        Ok(acc)
    } else if !is_digit(s[0]) {
        Err(NumberError::InvalidDigit)
    } else if acc * 10 + (s[0] as nat - 48) > max {
        Err(NumberError::Overflow)
    } else {
        read_digits(s.drop_first(), (acc * 10 + (s[0] as nat - 48)) as nat, max)
    }
}

/// The number written by a numeral: digits, with at most one plus sign before
/// them.
pub open spec fn read_number(s: Seq<char>, max: nat) -> Result<nat, NumberError> {
    if s.len() == 0 {
        Err(NumberError::Empty)
    } else if s[0] == '+' && s.len() > 1 {
        read_digits(s.drop_first(), 0, max)
    } else {
        read_digits(s, 0, max)
    }
}

/// Read a numeral of at most `max`.
pub fn parse_number(s: &str, max: u64) -> (r: Result<u64, NumberError>)
    ensures
        match r {
            Ok(n) => read_number(s@, max as nat) == Ok::<nat, NumberError>(n as nat),
            Err(e) => read_number(s@, max as nat) == Err::<nat, NumberError>(e),
        },
{
    let chars = chars_of(s);
    if chars.len() == 0 {
        return Err(NumberError::Empty);
    }
    let mut i: usize = if chars[0] == '+' && chars.len() > 1 {
        1
    } else {
        0
    };
    let mut acc: u64 = 0;
    proof {
        if i == 1 {
            assert(s@.drop_first() =~= s@.skip(1));
        } else {
            assert(s@ =~= s@.skip(0));
        }
    }
    while i < chars.len()
        invariant
            i <= chars@.len(),
            chars@ == s@,
            read_number(s@, max as nat) == read_digits(s@.skip(i as int), acc as nat, max as nat),
        decreases chars@.len() - i,
    {
        let c = chars[i];
        assert(s@.skip(i as int)[0] == c);
        assert(s@.skip(i as int).drop_first() =~= s@.skip(i + 1));
        if c < '0' || c > '9' {
            return Err(NumberError::InvalidDigit);
        }
        let d: u64 = (c as u32 - 48) as u64;
        let next: u128 = acc as u128 * 10 + d as u128;
        if next > max as u128 {
            return Err(NumberError::Overflow);
        }
        acc = next as u64;
        i += 1;
    }
    assert(s@.skip(i as int) =~= Seq::<char>::empty());
    Ok(acc)
}

/// The digits of a numeral, read back, make the number again.
proof fn lemma_read_decimal_digits(n: nat, rest: Seq<char>, acc: nat, max: nat)
    requires
        n <= max,
    ensures
        read_digits(decimal(n) + rest, 0, max) == read_digits(rest, n, max),
    decreases n,
{
    let s = decimal(n) + rest;
    if n < 10 {
        assert(s[0] == digit_char(n as int));
        assert(s.drop_first() =~= rest);
    } else {
        let d = digit_char((n % 10) as int);
        let tail = seq![d] + rest;
        assert(s =~= decimal(n / 10) + tail);
        lemma_read_decimal_digits(n / 10, tail, acc, max);
        assert(tail[0] == d);
        assert(tail.drop_first() =~= rest);
        assert((n / 10) * 10 + n % 10 == n);
    }
}

/// Reading the decimal numeral of a number gives the number.
pub proof fn law_decimal_reads_back(n: nat, max: nat)
    requires
        n <= max,
    ensures
        read_number(decimal(n), max) == Ok::<nat, NumberError>(n),
{
    lemma_read_decimal_digits(n, Seq::empty(), 0, max);
    lemma_decimal_digits(n);
    assert(decimal(n) + Seq::<char>::empty() =~= decimal(n));
}

/// A decimal numeral consists of digits, and of one at least.
pub proof fn lemma_decimal_digits(n: nat)
    ensures
        decimal(n).len() > 0,
        forall|i: int| 0 <= i < decimal(n).len() ==> is_digit(#[trigger] decimal(n)[i]),
    decreases n,
{
    if n >= 10 {
        lemma_decimal_digits(n / 10);
        assert forall|i: int| 0 <= i < decimal(n).len() implies is_digit(
            #[trigger] decimal(n)[i],
        ) by {
            if i < decimal(n / 10).len() {
                assert(decimal(n)[i] == decimal(n / 10)[i]);
            }
        }
    }
}

// ---------------------------------------------------------------------------
// White space, case, lines
// ---------------------------------------------------------------------------

/// The characters with the Unicode property White_Space.
pub open spec fn white_space(c: char) -> bool {
    let n = c as u32;
    ||| 0x9 <= n <= 0xd
    ||| n == 0x20
    ||| n == 0x85
    ||| n == 0xa0
    ||| n == 0x1680
    ||| 0x2000 <= n <= 0x200a
    ||| n == 0x2028
    ||| n == 0x2029
    ||| n == 0x202f
    ||| n == 0x205f
    ||| n == 0x3000
}

pub fn is_white_space(c: char) -> (r: bool)
    ensures
        r == white_space(c),
{
    let n: u32 = c as u32;
    (0x9 <= n && n <= 0xd) || n == 0x20 || n == 0x85 || n == 0xa0 || n == 0x1680 || (0x2000 <= n
        && n <= 0x200a) || n == 0x2028 || n == 0x2029 || n == 0x202f || n == 0x205f || n == 0x3000
}

/// Without the characters at the start that satisfy `p`.
pub open spec fn trim_start(s: Seq<char>, p: spec_fn(char) -> bool) -> Seq<char>
    decreases s.len(),
{
    if s.len() > 0 && p(s[0]) {
        trim_start(s.drop_first(), p)
    } else {
        s
    }
}

/// Without the characters at the end that satisfy `p`.
pub open spec fn trim_end(s: Seq<char>, p: spec_fn(char) -> bool) -> Seq<char>
    decreases s.len(),
{
    if s.len() > 0 && p(s.last()) {
        trim_end(s.drop_last(), p)
    } else {
        s
    }
}

/// Without white space at either end.
pub open spec fn trimmed(s: Seq<char>) -> Seq<char> {
    trim_end(trim_start(s, |c: char| white_space(c)), |c: char| white_space(c))
}

/// The predicate that holds of `q` alone.
pub open spec fn is_char(q: char) -> spec_fn(char) -> bool {
    |c: char| c == q
}

/// Without the character `q` at either end.
pub open spec fn stripped(s: Seq<char>, q: char) -> Seq<char> {
    trim_end(trim_start(s, is_char(q)), is_char(q))
}

/// `s.trim()`: the text without white space at either end.
pub fn trim(s: &str) -> (r: String)
    ensures
        r@ == trimmed(s@),
{
    let chars = chars_of(s);
    let ghost p = |c: char| white_space(c);
    let mut from: usize = 0;
    assert(s@.skip(0) =~= s@);
    while from < chars.len() && is_white_space(chars[from])
        invariant
            chars@ == s@,
            from <= chars@.len(),
            p == (|c: char| white_space(c)),
            trim_start(s@, p) == trim_start(s@.skip(from as int), p),
        decreases chars@.len() - from,
    {
        assert(s@.skip(from as int)[0] == chars@[from as int]);
        assert(s@.skip(from as int).drop_first() =~= s@.skip(from + 1));
        from += 1;
    }
    let ghost head = s@.skip(from as int);
    assert(trim_start(s@, p) == head) by {
        if from < chars@.len() {
            assert(head[0] == chars@[from as int]);
        }
    }
    let mut to: usize = chars.len();
    assert(s@.subrange(from as int, to as int) =~= head);
    while to > from && is_white_space(chars[to - 1])
        invariant
            chars@ == s@,
            from <= to <= chars@.len(),
            p == (|c: char| white_space(c)),
            trim_end(head, p) == trim_end(s@.subrange(from as int, to as int), p),
        decreases to,
    {
        let ghost cur = s@.subrange(from as int, to as int);
        assert(cur.last() == chars@[to - 1]);
        assert(cur.drop_last() =~= s@.subrange(from as int, to - 1));
        to -= 1;
    }
    let r = text_of(&chars, from, to);
    assert(trim_end(r@, p) == r@) by {
        if r@.len() > 0 {
            assert(r@.last() == chars@[to - 1]);
        }
    }
    r
}

/// `s.trim_matches(q)`: the text without the character `q` at either end.
pub fn strip(s: &str, q: char) -> (r: String)
    ensures
        r@ == stripped(s@, q),
{
    let chars = chars_of(s);
    let ghost p = is_char(q);
    let mut from: usize = 0;
    assert(s@.skip(0) =~= s@);
    while from < chars.len() && chars[from] == q
        invariant
            chars@ == s@,
            from <= chars@.len(),
            p == is_char(q),
            trim_start(s@, p) == trim_start(s@.skip(from as int), p),
        decreases chars@.len() - from,
    {
        assert(s@.skip(from as int)[0] == chars@[from as int]);
        assert(s@.skip(from as int).drop_first() =~= s@.skip(from + 1));
        from += 1;
    }
    let ghost head = s@.skip(from as int);
    assert(trim_start(s@, p) == head) by {
        if from < chars@.len() {
            assert(head[0] == chars@[from as int]);
        }
    }
    let mut to: usize = chars.len();
    assert(s@.subrange(from as int, to as int) =~= head);
    while to > from && chars[to - 1] == q
        invariant
            chars@ == s@,
            from <= to <= chars@.len(),
            p == is_char(q),
            trim_end(head, p) == trim_end(s@.subrange(from as int, to as int), p),
        decreases to,
    {
        let ghost cur = s@.subrange(from as int, to as int);
        assert(cur.last() == chars@[to - 1]);
        assert(cur.drop_last() =~= s@.subrange(from as int, to - 1));
        to -= 1;
    }
    let r = text_of(&chars, from, to);
    assert(trim_end(r@, p) == r@) by {
        if r@.len() > 0 {
            assert(r@.last() == chars@[to - 1]);
        }
    }
    r
}

/// The upper-case form of an ASCII letter; any other character as it is.
pub open spec fn upper_char(c: char) -> char {
    if 'a' <= c <= 'z' {
        (c as int - 32) as char
    } else {
        c
    }
}

/// The text with its ASCII letters in upper case.
pub open spec fn upper(s: Seq<char>) -> Seq<char> {
    Seq::new(s.len(), |i: int| upper_char(s[i]))
}

/// `s.to_ascii_uppercase()`.
pub fn to_upper(s: &str) -> (r: String)
    ensures
        r@ == upper(s@),
{
    let chars = chars_of(s);
    let mut r = String::new();
    let mut i: usize = 0;
    while i < chars.len()
        invariant
            chars@ == s@,
            i <= chars@.len(),
            r@ == upper(s@).take(i as int),
        decreases chars@.len() - i,
    {
        let c = chars[i];
        let u = if 'a' <= c && c <= 'z' {
            (c as u8 - 32) as char
        } else {
            c
        };
        r.push(u);
        assert(upper(s@).take(i + 1) =~= upper(s@).take(i as int).push(u));
        i += 1;
    }
    assert(upper(s@).take(i as int) =~= upper(s@));
    r
}

/// `a.eq_ignore_ascii_case(b)`.
pub fn same_text_any_case(a: &str, b: &str) -> (r: bool)
    ensures
        r == (upper(a@) == upper(b@)),
{
    to_upper(a) == to_upper(b)
}

/// How many characters come before the first `c`, or in all if there is none.
pub open spec fn span(s: Seq<char>, c: char) -> nat
    decreases s.len(),
{
    if s.len() == 0 || s[0] == c {
        0
    } else {
        1 + span(s.drop_first(), c)
    }
}

proof fn lemma_span(s: Seq<char>, c: char)
    ensures
        span(s, c) <= s.len(),
        span(s, c) < s.len() ==> s[span(s, c) as int] == c,
        forall|i: int| 0 <= i < span(s, c) ==> #[trigger] s[i] != c,
    decreases s.len(),
{
    if s.len() > 0 && s[0] != c {
        lemma_span(s.drop_first(), c);
        assert forall|i: int| 0 <= i < span(s, c) implies #[trigger] s[i] != c by {
            if i > 0 {
                assert(s.drop_first()[i - 1] == s[i]);
            }
        }
    }
}

/// The characters from `from` on that come before the next `c`.
pub fn find_char(chars: &Vec<char>, from: usize, c: char) -> (r: usize)
    requires
        from <= chars@.len(),
    ensures
        r == from + span(chars@.skip(from as int), c),
        from <= r <= chars@.len(),
{
    let mut i: usize = from;
    while i < chars.len() && chars[i] != c
        invariant
            from <= i <= chars@.len(),
            span(chars@.skip(from as int), c) == (i - from) + span(chars@.skip(i as int), c),
        decreases chars@.len() - i,
    {
        assert(chars@.skip(i as int)[0] == chars@[i as int]);
        assert(chars@.skip(i as int).drop_first() =~= chars@.skip(i + 1));
        i += 1;
    }
    proof {
        if i < chars@.len() {
            assert(chars@.skip(i as int)[0] == chars@[i as int]);
        }
    }
    i
}

/// A line without the carriage return that ends it, if one does.
pub open spec fn without_return(s: Seq<char>) -> Seq<char> {
    if s.len() > 0 && s.last() == '\r' {
        s.drop_last()
    } else {
        s
    }
}

/// The lines of a text. A line ends with a line feed, or with a carriage
/// return and a line feed; the last one may do without.
pub open spec fn lines(s: Seq<char>) -> Seq<Seq<char>>
    decreases s.len(),
    via lines_decreases
{
    let n = span(s, '\n');
    if s.len() == 0 {
        Seq::empty()
    } else if n == s.len() {
        seq![s]
    } else {
        seq![without_return(s.take(n as int))] + lines(s.skip(n as int + 1))
    }
}

#[via_fn]
proof fn lines_decreases(s: Seq<char>) {
    lemma_span(s, '\n');
}

/// `s.lines()`, as owned strings.
pub fn split_lines(s: &str) -> (r: Vec<String>)
    ensures
        r@.len() == lines(s@).len(),
        forall|i: int| 0 <= i < r@.len() ==> (#[trigger] r@[i])@ == lines(s@)[i],
{
    let chars = chars_of(s);
    let mut r: Vec<String> = Vec::new();
    let mut from: usize = 0;
    assert(s@.skip(0) =~= s@);
    while from < chars.len()
        invariant
            chars@ == s@,
            from <= chars@.len(),
            lines(s@).len() == r@.len() + lines(s@.skip(from as int)).len(),
            forall|i: int| 0 <= i < r@.len() ==> (#[trigger] r@[i])@ == lines(s@)[i],
            forall|i: int|
                0 <= i < lines(s@.skip(from as int)).len() ==> lines(s@)[r@.len() + i]
                    == #[trigger] lines(s@.skip(from as int))[i],
        decreases chars@.len() - from,
    {
        let end = find_char(&chars, from, '\n');
        let ghost rest = s@.skip(from as int);
        let ghost n = span(rest, '\n');
        let ghost done = r@;
        if end == chars.len() {
            r.push(text_of(&chars, from, end));
            proof {
                assert(r@[done.len() as int]@ =~= rest);
                assert(lines(rest)[0] == rest);
                assert(s@.skip(end as int) =~= Seq::<char>::empty());
            }
            from = end;
        } else {
            let stop = if end > from && chars[end - 1] == '\r' {
                end - 1
            } else {
                end
            };
            let line = text_of(&chars, from, stop);
            proof {
                let whole = rest.take(n as int);
                assert(whole =~= s@.subrange(from as int, end as int));
                if end > from {
                    assert(whole.last() == chars@[end - 1]);
                }
                assert(line@ =~= without_return(whole));
                assert(lines(rest)[0] == without_return(whole));
                assert(rest.skip(n as int + 1) =~= s@.skip(end + 1));
                let tail = lines(s@.skip(end + 1));
                assert forall|i: int| 0 <= i < tail.len() implies lines(s@)[done.len() + 1 + i]
                    == #[trigger] tail[i] by {
                    assert(lines(rest)[i + 1] == tail[i]);
                }
            }
            r.push(line);
            from = end + 1;
        }
    }
    assert(s@.skip(from as int) =~= Seq::<char>::empty());
    r
}

// ---------------------------------------------------------------------------
// Joining
// ---------------------------------------------------------------------------

/// The parts, one after the other, with `sep` between them.
pub open spec fn join(parts: Seq<Seq<char>>, sep: Seq<char>) -> Seq<char>
    decreases parts.len(),
{
    if parts.len() == 0 {
        Seq::empty()
    } else if parts.len() == 1 {
        parts[0]
    } else {
        join(parts.drop_last(), sep) + sep + parts.last()
    }
}

/// The characters of each string.
pub open spec fn texts(v: Seq<String>) -> Seq<Seq<char>> {
    Seq::new(v.len(), |i: int| v[i]@)
}

pub proof fn lemma_texts_push(v: Seq<String>, s: String)
    ensures
        texts(v.push(s)) == texts(v).push(s@),
{
    assert(texts(v.push(s)) =~= texts(v).push(s@));
}

/// `parts.join(sep)`.
pub fn join_texts(parts: &Vec<String>, sep: &str) -> (r: String)
    ensures
        r@ == join(texts(parts@), sep@),
{
    let mut r = String::new();
    let ghost all = texts(parts@);
    let mut i: usize = 0;
    while i < parts.len()
        invariant
            i <= parts@.len(),
            all == texts(parts@),
            r@ == join(all.take(i as int), sep@),
        decreases parts@.len() - i,
    {
        if i > 0 {
            r.append(sep);
        }
        r.append(parts[i].as_str());
        proof {
            let wide = all.take(i + 1);
            assert(wide.drop_last() =~= all.take(i as int));
            assert(wide.last() == parts@[i as int]@);
            if i == 0 {
                assert(wide[0] == parts@[0]@);
                assert(r@ =~= wide[0]);
            }
        }
        i += 1;
    }
    assert(all.take(i as int) =~= all);
    r
}

// ---------------------------------------------------------------------------
// What a text holds
// ---------------------------------------------------------------------------

/// `part` occurs somewhere in `s`.
pub open spec fn holds(s: Seq<char>, part: Seq<char>) -> bool {
    exists|i: int|
        0 <= i && i + part.len() <= s.len() && #[trigger] s.subrange(i, i + part.len()) == part
}

/// A text holds what it ends with.
pub proof fn lemma_holds_end(s: Seq<char>, part: Seq<char>)
    ensures
        holds(s + part, part),
{
    let t = s + part;
    let i = s.len() as int;
    assert(t.subrange(i, i + part.len()) =~= part);
}

/// A text that grows holds what it held.
pub proof fn lemma_holds_more(s: Seq<char>, more: Seq<char>, part: Seq<char>)
    requires
        holds(s, part),
    ensures
        holds(s + more, part),
{
    let i = choose|i: int|
        0 <= i && i + part.len() <= s.len() && #[trigger] s.subrange(i, i + part.len()) == part;
    assert((s + more).subrange(i, i + part.len()) =~= part);
}

/// A text that grows by four pieces holds what it held.
pub proof fn lemma_holds_four(
    s: Seq<char>,
    a: Seq<char>,
    b: Seq<char>,
    c: Seq<char>,
    d: Seq<char>,
    part: Seq<char>,
)
    requires
        holds(s, part),
    ensures
        holds(s + a, part),
        holds(s + a + b, part),
        holds(s + a + b + c, part),
        holds(s + a + b + c + d, part),
{
    lemma_holds_more(s, a, part);
    lemma_holds_more(s + a, b, part);
    lemma_holds_more(s + a + b, c, part);
    lemma_holds_more(s + a + b + c, d, part);
}

/// A text that ends with some pieces holds them as one.
pub proof fn lemma_holds_pieces(
    s: Seq<char>,
    a: Seq<char>,
    b: Seq<char>,
    c: Seq<char>,
    d: Seq<char>,
    e: Seq<char>,
)
    ensures
        holds(s + a + b + c, a + b + c),
        holds(s + a + b + c + d + e, a + b + c + d + e),
{
    assert(s + a + b + c =~= s + (a + b + c));
    lemma_holds_end(s, a + b + c);
    assert(s + a + b + c + d + e =~= s + (a + b + c + d + e));
    lemma_holds_end(s, a + b + c + d + e);
}

// ---------------------------------------------------------------------------
// What trimming, casing and splitting do
// ---------------------------------------------------------------------------

proof fn lemma_trim_start(s: Seq<char>, p: spec_fn(char) -> bool) -> (k: int)
    ensures
        0 <= k <= s.len(),
        trim_start(s, p) == s.skip(k),
        forall|i: int| 0 <= i < k ==> p(#[trigger] s[i]),
        k < s.len() ==> !p(s[k]),
    decreases s.len(),
{
    if s.len() > 0 && p(s[0]) {
        let k = lemma_trim_start(s.drop_first(), p);
        assert(s.drop_first().skip(k) =~= s.skip(k + 1));
        assert forall|i: int| 0 <= i < k + 1 implies p(#[trigger] s[i]) by {
            if i > 0 {
                assert(s.drop_first()[i - 1] == s[i]);
            }
        }
        if k < s.drop_first().len() {
            assert(s.drop_first()[k] == s[k + 1]);
        }
        k + 1
    } else {
        assert(s.skip(0) =~= s);
        0
    }
}

proof fn lemma_trim_end(s: Seq<char>, p: spec_fn(char) -> bool) -> (k: int)
    ensures
        0 <= k <= s.len(),
        trim_end(s, p) == s.take(k),
        forall|i: int| k <= i < s.len() ==> p(#[trigger] s[i]),
        k > 0 ==> !p(s[k - 1]),
    decreases s.len(),
{
    if s.len() > 0 && p(s.last()) {
        let k = lemma_trim_end(s.drop_last(), p);
        assert(s.drop_last().take(k) =~= s.take(k));
        assert forall|i: int| k <= i < s.len() implies p(#[trigger] s[i]) by {
            if i < s.len() - 1 {
                assert(s.drop_last()[i] == s[i]);
            }
        }
        k
    } else {
        assert(s.take(s.len() as int) =~= s);
        s.len() as int
    }
}

/// A text begins with a part that it began with before more was added.
pub proof fn lemma_prefix_more(s: Seq<char>, more: Seq<char>, part: Seq<char>)
    requires
        part.is_prefix_of(s),
    ensures
        part.is_prefix_of(s + more),
{
    assert((s + more).take(part.len() as int) =~= s.take(part.len() as int));
}

/// A text ends with the two parts that were added to it last.
pub proof fn lemma_suffix_two(s: Seq<char>, a: Seq<char>, b: Seq<char>)
    ensures
        (a + b).is_suffix_of(s + a + b),
{
    let t = s + a + b;
    assert(t.subrange(t.len() - (a + b).len(), t.len() as int) =~= a + b);
}

/// Trimming takes white space off both ends, all of it, and nothing else.
pub proof fn law_trimming_takes_white_space_off_the_ends(s: Seq<char>)
    ensures
        exists|a: int, b: int|
            #![trigger s.subrange(a, b)]
            {
                &&& 0 <= a <= b <= s.len()
                &&& trimmed(s) == s.subrange(a, b)
                &&& forall|i: int| 0 <= i < a || b <= i < s.len() ==> white_space(#[trigger] s[i])
                &&& a < b ==> !white_space(s[a]) && !white_space(s[b - 1])
            },
{
    let p = |c: char| white_space(c);
    let a = lemma_trim_start(s, p);
    let t = s.skip(a);
    let k = lemma_trim_end(t, p);
    let b = a + k;
    assert(t.take(k) =~= s.subrange(a, b));
    assert forall|i: int| 0 <= i < a || b <= i < s.len() implies white_space(#[trigger] s[i]) by {
        if i >= b {
            assert(t[i - a] == s[i]);
            assert(p(t[i - a]));
        } else {
            assert(p(s[i]));
        }
    }
    if a < b {
        assert(t[k - 1] == s[b - 1]);
        assert(!p(s[a]));
        assert(!p(t[k - 1]));
    }
}

/// What counts as white space: the controls from the tab to the carriage return,
/// the space, and the blanks of Unicode.
pub proof fn law_what_is_white_space(c: char)
    ensures
        white_space(c) <==> seq![
            '\u{9}',
            '\u{a}',
            '\u{b}',
            '\u{c}',
            '\u{d}',
            ' ',
            '\u{85}',
            '\u{a0}',
            '\u{1680}',
            '\u{2000}',
            '\u{2001}',
            '\u{2002}',
            '\u{2003}',
            '\u{2004}',
            '\u{2005}',
            '\u{2006}',
            '\u{2007}',
            '\u{2008}',
            '\u{2009}',
            '\u{200a}',
            '\u{2028}',
            '\u{2029}',
            '\u{202f}',
            '\u{205f}',
            '\u{3000}',
        ].contains(c),
{
    let blanks = seq![
        '\u{9}',
        '\u{a}',
        '\u{b}',
        '\u{c}',
        '\u{d}',
        ' ',
        '\u{85}',
        '\u{a0}',
        '\u{1680}',
        '\u{2000}',
        '\u{2001}',
        '\u{2002}',
        '\u{2003}',
        '\u{2004}',
        '\u{2005}',
        '\u{2006}',
        '\u{2007}',
        '\u{2008}',
        '\u{2009}',
        '\u{200a}',
        '\u{2028}',
        '\u{2029}',
        '\u{202f}',
        '\u{205f}',
        '\u{3000}',
    ];
    let n = c as int;
    if white_space(c) {
        let k = if n <= 0xd {
            n - 9
        } else if n == 0x20 {
            5
        } else if n == 0x85 {
            6
        } else if n == 0xa0 {
            7
        } else if n == 0x1680 {
            8
        } else if n <= 0x200a {
            9 + (n - 0x2000)
        } else if n == 0x2028 {
            20
        } else if n == 0x2029 {
            21
        } else if n == 0x202f {
            22
        } else if n == 0x205f {
            23
        } else {
            24
        };
        assert(blanks[k] == c);
    }
    if blanks.contains(c) {
        let k = choose|k: int| 0 <= k < blanks.len() && blanks[k] == c;
        assert(white_space(blanks[k]));
    }
}

/// White space around a text is taken off, all of it and nothing else.
pub proof fn law_padding_is_trimmed(before: Seq<char>, s: Seq<char>, after: Seq<char>)
    requires
        forall|i: int| 0 <= i < before.len() ==> white_space(#[trigger] before[i]),
        forall|i: int| 0 <= i < after.len() ==> white_space(#[trigger] after[i]),
        s.len() > 0 ==> !white_space(s[0]) && !white_space(s.last()),
    ensures
        trimmed(before + s + after) == s,
{
    let all = before + s + after;
    let n = before.len() as int;
    let m = n + s.len();
    law_trimming_takes_white_space_off_the_ends(all);
    let (a, b) = choose|a: int, b: int|
        #![trigger all.subrange(a, b)]
        {
            &&& 0 <= a <= b <= all.len()
            &&& trimmed(all) == all.subrange(a, b)
            &&& forall|i: int| 0 <= i < a || b <= i < all.len() ==> white_space(#[trigger] all[i])
            &&& a < b ==> !white_space(all[a]) && !white_space(all[b - 1])
        };
    assert forall|i: int| 0 <= i < n implies white_space(#[trigger] all[i]) by {
        assert(all[i] == before[i]);
    }
    assert forall|i: int| m <= i < all.len() implies white_space(#[trigger] all[i]) by {
        assert(all[i] == after[i - m]);
    }
    if s.len() > 0 {
        assert(all[n] == s[0]);
        assert(all[m - 1] == s.last());
        assert(a == n && b == m);
    } else {
        assert(a == b);
    }
    assert(all.subrange(a, b) =~= s);
}

/// A character that is stripped is taken off both ends, as often as it stands
/// there, and nowhere else.
pub proof fn law_stripping_takes_a_character_off_the_ends(n: nat, s: Seq<char>, m: nat, q: char)
    requires
        s.len() > 0 ==> s[0] != q && s.last() != q,
    ensures
        stripped(Seq::new(n, |i: int| q) + s + Seq::new(m, |i: int| q), q) == s,
{
    let all = Seq::new(n, |i: int| q) + s + Seq::new(m, |i: int| q);
    let a = lemma_trim_start(all, is_char(q));
    let rest = all.skip(a);
    let k = lemma_trim_end(rest, is_char(q));
    if s.len() > 0 {
        assert(all[n as int] == s[0]);
        assert(!is_char(q)(all[n as int]));
        if a < n {
            assert(all[a] == q);
        }
        assert(a == n);
        assert(rest[s.len() - 1] == s.last());
        assert(!is_char(q)(rest[s.len() - 1]));
        if k > s.len() {
            assert(rest[k - 1] == q);
        }
        assert(k == s.len());
    } else {
        if a < all.len() {
            assert(all[a] == q);
        }
        assert(a == all.len());
    }
    assert(rest.take(k) =~= s);
}

/// Upper case changes the letters `a` to `z` alone, each to its own capital.
pub proof fn law_upper_case(s: Seq<char>, i: int)
    requires
        0 <= i < s.len(),
    ensures
        upper(s).len() == s.len(),
        'a' <= s[i] <= 'z' ==> upper(s)[i] as int == s[i] as int - 'a' as int + 'A' as int,
        !('a' <= s[i] <= 'z') ==> upper(s)[i] == s[i],
        upper(upper(s)) == upper(s),
{
    assert(upper(upper(s)) =~= upper(s));
}

/// A text that begins with a line has that line first, without the end of it,
/// and then the lines of the rest.
pub proof fn law_lines_follow_each_other(line: Seq<char>, rest: Seq<char>)
    requires
        forall|i: int| 0 <= i < line.len() ==> #[trigger] line[i] != '\n',
    ensures
        lines(line + seq!['\n'] + rest) == seq![without_return(line)] + lines(rest),
        line.len() > 0 ==> lines(line) == seq![line],
{
    let s = line + seq!['\n'] + rest;
    lemma_span_of_line(line, rest);
    assert(s.take(line.len() as int) =~= line);
    assert(s.skip(line.len() as int + 1) =~= rest);
    lemma_span_all(line);
}

proof fn lemma_span_of_line(line: Seq<char>, rest: Seq<char>)
    requires
        forall|i: int| 0 <= i < line.len() ==> #[trigger] line[i] != '\n',
    ensures
        span(line + seq!['\n'] + rest, '\n') == line.len(),
    decreases line.len(),
{
    let s = line + seq!['\n'] + rest;
    if line.len() > 0 {
        assert(s[0] == line[0]);
        assert(s.drop_first() =~= line.drop_first() + seq!['\n'] + rest);
        assert forall|i: int| 0 <= i < line.drop_first().len() implies #[trigger] line.drop_first()[i]
            != '\n' by {
            assert(line.drop_first()[i] == line[i + 1]);
        }
        lemma_span_of_line(line.drop_first(), rest);
    } else {
        assert(s[0] == '\n');
    }
}

proof fn lemma_span_all(line: Seq<char>)
    requires
        forall|i: int| 0 <= i < line.len() ==> #[trigger] line[i] != '\n',
    ensures
        span(line, '\n') == line.len(),
    decreases line.len(),
{
    if line.len() > 0 {
        assert(line[0] != '\n');
        assert forall|i: int| 0 <= i < line.drop_first().len() implies #[trigger] line.drop_first()[i]
            != '\n' by {
            assert(line.drop_first()[i] == line[i + 1]);
        }
        lemma_span_all(line.drop_first());
    }
}

/// A numeral has no leading zero, and a numeral of one digit more is ten times
/// as much and that digit.
pub proof fn law_numerals(n: nat, d: nat)
    requires
        d < 10,
    ensures
        n > 0 ==> decimal(n)[0] != '0' && decimal(10 * n + d) == decimal(n).push(
            (48 + d) as char,
        ),
        decimal(d) == seq![(48 + d) as char],
    decreases n,
{
    if n > 0 {
        assert((10 * n + d) / 10 == n && (10 * n + d) % 10 == d);
        if n >= 10 {
            law_numerals(n / 10, n % 10);
            lemma_decimal_digits(n / 10);
        }
    }
}

/// One digit more is read behind those before it, whatever these are.
proof fn lemma_read_push(s: Seq<char>, c: char, acc: nat, max: nat)
    ensures
        read_digits(s.push(c), acc, max) == match read_digits(s, acc, max) {
            Ok(n) => read_digits(seq![c], n, max),
            Err(e) => Err(e),
        },
    decreases s.len(),
{
    let t = s.push(c);
    if s.len() == 0 {
        assert(t =~= seq![c]);
    } else {
        assert(t[0] == s[0]);
        assert(t.drop_first() =~= s.drop_first().push(c));
        if is_digit(s[0]) && acc * 10 + (s[0] as nat - 48) <= max {
            lemma_read_push(s.drop_first(), c, (acc * 10 + (s[0] as nat - 48)) as nat, max);
        }
    }
}

/// A numeral is read digit by digit, each counting a tenth of the one before it:
/// what can be read no further stays so, what is no digit is refused, and so is a
/// number that grows beyond the bound.
pub proof fn law_numerals_are_read_digit_by_digit(s: Seq<char>, c: char, max: nat)
    requires
        s.len() > 0,
        s != seq!['+'],
    ensures
        read_number(s, max) matches Err(e) ==> read_number(s.push(c), max) == Err::<
            nat,
            NumberError,
        >(e),
        read_number(s, max) matches Ok(n) ==> read_number(s.push(c), max) == (if c < '0' || c
            > '9' {
            Err::<nat, NumberError>(NumberError::InvalidDigit)
        } else if 10 * n + (c as nat - 48) > max {
            Err::<nat, NumberError>(NumberError::Overflow)
        } else {
            Ok::<nat, NumberError>((10 * n + (c as nat - 48)) as nat)
        }),
{
    let one = seq![c];
    assert(one[0] == c);
    assert(one.drop_first() =~= Seq::<char>::empty());
    assert(s.push(c)[0] == s[0]);
    if s[0] == '+' {
        if s.len() == 1 {
            assert(s =~= seq!['+']);
        }
        assert(s.push(c).drop_first() =~= s.drop_first().push(c));
        lemma_read_push(s.drop_first(), c, 0, max);
    } else {
        lemma_read_push(s, c, 0, max);
    }
    if let Ok(n) = read_number(s, max) {
        reveal_with_fuel(read_digits, 2);
    }
}

/// A numeral of one digit is that digit; a plus sign before a numeral changes
/// nothing and is none by itself; and nothing is no numeral.
pub proof fn law_where_a_numeral_begins(c: char, max: nat)
    ensures
        read_number(Seq::empty(), max) == Err::<nat, NumberError>(NumberError::Empty),
        read_number(seq!['+'], max) == Err::<nat, NumberError>(NumberError::InvalidDigit),
        read_number(seq!['+', c], max) == read_number(seq![c], max),
        read_number(seq![c], max) == (if c < '0' || c > '9' {
            Err::<nat, NumberError>(NumberError::InvalidDigit)
        } else if c as nat - 48 > max {
            Err::<nat, NumberError>(NumberError::Overflow)
        } else {
            Ok::<nat, NumberError>((c as nat - 48) as nat)
        }),
{
    let one = seq![c];
    assert(one[0] == c);
    assert(one.drop_first() =~= Seq::<char>::empty());
    assert(seq!['+', c].drop_first() =~= one);
    assert(seq!['+'][0] == '+');
    reveal_with_fuel(read_digits, 2);
}

/// Joined texts follow each other with the separator between them.
pub proof fn law_joining(parts: Seq<Seq<char>>, last: Seq<char>, sep: Seq<char>)
    ensures
        join(seq![last], sep) == last,
        parts.len() > 0 ==> join(parts.push(last), sep) == join(parts, sep) + sep + last,
{
    assert(parts.push(last).drop_last() =~= parts);
}

/// Joined texts are all there.
pub proof fn law_a_joined_text_holds_its_parts(parts: Seq<Seq<char>>, sep: Seq<char>, k: int)
    requires
        0 <= k < parts.len(),
    ensures
        holds(join(parts, sep), parts[k]),
    decreases parts.len(),
{
    let all = join(parts, sep);
    if parts.len() == 1 {
        lemma_holds_end(Seq::empty(), all);
        assert(Seq::<char>::empty() + all =~= all);
    } else if k == parts.len() - 1 {
        lemma_holds_end(join(parts.drop_last(), sep) + sep, parts.last());
    } else {
        law_a_joined_text_holds_its_parts(parts.drop_last(), sep, k);
        assert(parts.drop_last()[k] == parts[k]);
        lemma_holds_more(join(parts.drop_last(), sep), sep, parts[k]);
        lemma_holds_more(join(parts.drop_last(), sep) + sep, parts.last(), parts[k]);
    }
}

/// A list of texts is what each of them is, in order.
pub proof fn law_texts_keep_their_order(v: Seq<String>, i: int)
    ensures
        texts(v).len() == v.len(),
        0 <= i < v.len() ==> texts(v)[i] == v[i]@,
{
}

} // verus!

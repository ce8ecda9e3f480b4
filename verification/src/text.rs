//! Operations on text: search, lines, numbers.
use vstd::prelude::*;
use vstd::string::*;

verus! {

/// Whether a character is white space: it has the Unicode property `White_Space`.
pub open spec fn whitespace(c: char) -> bool {
    ||| '\u{9}' <= c <= '\u{d}'
    ||| c == ' '
    ||| c == '\u{85}'
    ||| c == '\u{a0}'
    ||| c == '\u{1680}'
    ||| '\u{2000}' <= c <= '\u{200a}'
    ||| c == '\u{2028}'
    ||| c == '\u{2029}'
    ||| c == '\u{202f}'
    ||| c == '\u{205f}'
    ||| c == '\u{3000}'
}

/// Whether a character is white space.
fn is_space(c: char) -> (space: bool)
    ensures
        space == whitespace(c),
{
    ('\u{9}' <= c && c <= '\u{d}') || c == ' ' || c == '\u{85}' || c == '\u{a0}' || c == '\u{1680}'
        || ('\u{2000}' <= c && c <= '\u{200a}') || c == '\u{2028}' || c == '\u{2029}'
        || c == '\u{202f}' || c == '\u{205f}' || c == '\u{3000}'
}

/// The characters of each string.
pub open spec fn texts(strings: Seq<String>) -> Seq<Seq<char>> {
    strings.map_values(|s: String| s@)
}

/// The characters of an optional string.
pub open spec fn text_of(s: Option<String>) -> Option<Seq<char>> {
    match s {
        Some(t) => Some(t@),
        None => None,
    }
}

/// Whether two lists hold the same strings in the same order.
pub fn same_texts(a: &Vec<String>, b: &Vec<String>) -> (same: bool)
    ensures
        same == (texts(a@) == texts(b@)),
{
    if a.len() != b.len() {
        assert(texts(a@).len() != texts(b@).len());
        return false;
    }
    let mut i: usize = 0;
    while i < a.len()
        invariant
            i <= a@.len() == b@.len(),
            forall|j: int| 0 <= j < i ==> a@[j]@ == b@[j]@,
        decreases a@.len() - i,
    {
        if a[i] != b[i] {
            assert(texts(a@)[i as int] != texts(b@)[i as int]);
            return false;
        }
        i += 1;
    }
    assert(texts(a@) =~= texts(b@));
    true
}

/// The characters of a string.
pub fn chars_of(s: &str) -> (chars: Vec<char>)
    ensures
        chars@ == s@,
{
    let mut chars: Vec<char> = Vec::new();
    for c in it: s.chars()
        invariant
            chars@ == it.seq().take(it.index() as int),
            it.seq() == s@,
    {
        chars.push(c);
        assert(chars@ =~= it.seq().take(it.index() as int + 1));
    }
    assert(chars@ =~= s@);
    chars
}

/// Whether `pattern` stands at `i` in `text`.
pub open spec fn occurs_at(text: Seq<char>, pattern: Seq<char>, i: int) -> bool {
    &&& 0 <= i <= text.len() - pattern.len()
    &&& text.subrange(i, i + pattern.len()) == pattern
}

/// Whether `pattern` stands anywhere in `text`.
pub open spec fn contains_text(text: Seq<char>, pattern: Seq<char>) -> bool {
    exists|i: int| occurs_at(text, pattern, i)
}

/// Whether `pattern` stands at `at` in `text`.
fn matches_at(text: &Vec<char>, pattern: &Vec<char>, at: usize) -> (found: bool)
    requires
        at + pattern@.len() <= text@.len(),
    ensures
        found == occurs_at(text@, pattern@, at as int),
{
    assert(text@.len() == text.len());
    let ghost window = text@.subrange(at as int, at + pattern@.len());
    let mut k: usize = 0;
    while k < pattern.len()
        invariant
            k <= pattern@.len(),
            at + pattern@.len() <= text@.len() == text.len(),
            window == text@.subrange(at as int, at + pattern@.len()),
            forall|j: int| 0 <= j < k ==> window[j] == pattern@[j],
        decreases pattern@.len() - k,
    {
        if text[at + k] != pattern[k] {
            assert(window[k as int] != pattern@[k as int]);
            return false;
        }
        k += 1;
    }
    assert(window =~= pattern@);
    true
}

/// Whether `pattern` stands anywhere in `text`.
pub fn contains_chars(text: &Vec<char>, pattern: &Vec<char>) -> (found: bool)
    ensures
        found == contains_text(text@, pattern@),
{
    if pattern.len() > text.len() {
        return false;
    }
    let last: usize = text.len() - pattern.len();
    let mut i: usize = 0;
    while i <= last
        invariant
            i <= last + 1,
            last == text@.len() - pattern@.len(),
            forall|j: int| 0 <= j < i ==> !occurs_at(text@, pattern@, j),
        decreases last + 1 - i,
    {
        if matches_at(text, pattern, i) {
            return true;
        }
        if i == last {
            return false;
        }
        i += 1;
    }
    false
}

/// Whether `pattern` stands anywhere in `text`.
pub fn contains(text: &str, pattern: &str) -> (found: bool)
    ensures
        found == contains_text(text@, pattern@),
{
    contains_chars(&chars_of(text), &chars_of(pattern))
}

/// Whether `text` begins with `prefix`.
pub open spec fn starts_with(text: Seq<char>, prefix: Seq<char>) -> bool {
    occurs_at(text, prefix, 0)
}

/// What follows `prefix` in `text`, if `text` begins with it.
pub fn strip_prefix(text: &Vec<char>, prefix: &Vec<char>) -> (rest: Option<Vec<char>>)
    ensures
        rest is Some <==> starts_with(text@, prefix@),
        rest matches Some(r) ==> r@ == text@.skip(prefix@.len() as int),
{
    if prefix.len() > text.len() || !matches_at(text, prefix, 0) {
        return None;
    }
    let mut rest: Vec<char> = Vec::new();
    let mut i: usize = prefix.len();
    while i < text.len()
        invariant
            prefix@.len() <= i <= text@.len(),
            rest@ == text@.subrange(prefix@.len() as int, i as int),
        decreases text@.len() - i,
    {
        rest.push(text[i]);
        i += 1;
        assert(rest@ =~= text@.subrange(prefix@.len() as int, i as int));
    }
    assert(rest@ =~= text@.skip(prefix@.len() as int));
    Some(rest)
}

/// `text` without the whitespace in front.
pub open spec fn trimmed_start(text: Seq<char>) -> Seq<char>
    decreases text.len(),
{
    if text.len() > 0 && whitespace(text.first()) {
        trimmed_start(text.drop_first())
    } else {
        text
    }
}

/// `text` without the whitespace behind.
pub open spec fn trimmed_end(text: Seq<char>) -> Seq<char>
    decreases text.len(),
{
    if text.len() > 0 && whitespace(text.last()) {
        trimmed_end(text.drop_last())
    } else {
        text
    }
}

/// `text` without the whitespace around it.
pub fn trim(text: &Vec<char>) -> (trimmed: Vec<char>)
    ensures
        trimmed@ == trimmed_end(trimmed_start(text@)),
{
    let mut from: usize = 0;
    assert(text@.skip(0) =~= text@);
    while from < text.len() && is_space(text[from])
        invariant
            from <= text@.len(),
            trimmed_start(text@.skip(from as int)) == trimmed_start(text@),
        decreases text@.len() - from,
    {
        assert(text@.skip(from as int).drop_first() =~= text@.skip(from + 1));
        from += 1;
    }
    let ghost front = text@.skip(from as int);
    assert(front == trimmed_start(text@));
    let mut to: usize = text.len();
    assert(text@.subrange(from as int, to as int) =~= front);
    while to > from && is_space(text[to - 1])
        invariant
            from <= to <= text@.len(),
            trimmed_end(text@.subrange(from as int, to as int)) == trimmed_end(front),
        decreases to,
    {
        assert(text@.subrange(from as int, to as int).drop_last() =~= text@.subrange(
            from as int,
            to - 1,
        ));
        to -= 1;
    }
    let mut trimmed: Vec<char> = Vec::new();
    let mut i: usize = from;
    while i < to
        invariant
            from <= i <= to <= text@.len(),
            trimmed@ == text@.subrange(from as int, i as int),
        decreases to - i,
    {
        trimmed.push(text[i]);
        i += 1;
        assert(trimmed@ =~= text@.subrange(from as int, i as int));
    }
    trimmed
}

/// Whether every character is a decimal digit.
pub open spec fn all_digits(s: Seq<char>) -> bool {
    forall|i: int| 0 <= i < s.len() ==> '0' <= #[trigger] s[i] <= '9'
}

/// The number that decimal digits stand for.
pub open spec fn decimal(s: Seq<char>) -> nat
    decreases s.len(),
{
    if s.len() == 0 {
        0
    } else {
        10 * decimal(s.drop_last()) + (s.last() as nat - '0' as nat) as nat
    }
}

/// The digits of a number that may have a plus sign in front.
pub open spec fn unsigned_digits(s: Seq<char>) -> Seq<char> {
    if s.len() > 0 && s[0] == '+' {
        s.skip(1)
    } else {
        s
    }
}

/// The unsigned number not above `max` that `s` spells: an optional plus sign and one or more
/// decimal digits.
pub open spec fn number_of(s: Seq<char>, max: nat) -> Option<nat> {
    let digits = unsigned_digits(s);
    if digits.len() > 0 && all_digits(digits) && decimal(digits) <= max {
        Some(decimal(digits))
    } else {
        None
    }
}

/// More digits never make a number smaller.
proof fn lemma_decimal_grows(s: Seq<char>, i: int)
    requires
        0 <= i <= s.len(),
        all_digits(s),
    ensures
        decimal(s.take(i)) <= decimal(s),
    decreases s.len(),
{
    if i < s.len() {
        assert(s.drop_last().take(i) =~= s.take(i));
        assert forall|j: int| 0 <= j < s.drop_last().len() implies '0' <= #[trigger] s.drop_last()[j]
            <= '9' by {
            assert(s.drop_last()[j] == s[j]);
        }
        lemma_decimal_grows(s.drop_last(), i);
    } else {
        assert(s.take(i) =~= s);
    }
}

/// Reads an unsigned number not above `max`.
pub fn parse_number(s: &Vec<char>, max: usize) -> (n: Option<usize>)
    ensures
        match n {
            Some(v) => number_of(s@, max as nat) == Some(v as nat),
            None => number_of(s@, max as nat) is None,
        },
{
    let start: usize = if s.len() > 0 && s[0] == '+' {
        1
    } else {
        0
    };
    let ghost digits = unsigned_digits(s@);
    assert(digits =~= s@.skip(start as int));
    if s.len() == start {
        return None;
    }
    let mut value: usize = 0;
    let mut i: usize = start;
    while i < s.len()
        invariant
            start <= i <= s@.len(),
            digits == s@.skip(start as int),
            digits == unsigned_digits(s@),
            value <= max,
            value == decimal(digits.take(i - start)),
            forall|j: int| 0 <= j < i - start ==> '0' <= #[trigger] digits[j] <= '9',
        decreases s@.len() - i,
    {
        let c = s[i];
        let ghost k = i - start;
        assert(digits[k] == c);
        if c < '0' || c > '9' {
            assert(!all_digits(digits));
            return None;
        }
        let d: usize = (c as u32 - '0' as u32) as usize;
        proof {
            assert(digits.take(k + 1).drop_last() =~= digits.take(k));
            assert(decimal(digits.take(k + 1)) == 10 * value + d);
        }
        if d > max || value > (max - d) / 10 {
            proof {
                assert(10 * value + d > max);
                if all_digits(digits) {
                    lemma_decimal_grows(digits, k + 1);
                }
            }
            return None;
        }
        value = value * 10 + d;
        i += 1;
    }
    assert(digits.take(i - start) =~= digits);
    Some(value)
}

/// The position of the first newline, or the length where there is none.
pub open spec fn line_end(text: Seq<char>) -> nat
    decreases text.len(),
{
    if text.len() == 0 || text[0] == '\n' {
        0
    } else {
        1 + line_end(text.drop_first())
    }
}

/// A line without the carriage return that belongs to its ending.
pub open spec fn without_cr(line: Seq<char>) -> Seq<char> {
    if line.len() > 0 && line.last() == '\r' {
        line.drop_last()
    } else {
        line
    }
}

/// The lines of a text, each without its ending: a newline, or a carriage return and a newline.
pub open spec fn lines_of(text: Seq<char>) -> Seq<Seq<char>>
    decreases text.len(),
    via lines_of_decreases
{
    if text.len() == 0 {
        Seq::empty()
    } else {
        let k = line_end(text) as int;
        if k >= text.len() {
            seq![text]
        } else {
            seq![without_cr(text.take(k))] + lines_of(text.skip(k + 1))
        }
    }
}

#[via_fn]
proof fn lines_of_decreases(text: Seq<char>) {
}

/// Stepping over characters that are no newline.
proof fn lemma_line_end_at(text: Seq<char>, k: int)
    requires
        0 <= k <= text.len(),
        forall|j: int| 0 <= j < k ==> text[j] != '\n',
        k == text.len() || text[k] == '\n',
    ensures
        line_end(text) == k,
    decreases k,
{
    if k > 0 {
        let rest = text.drop_first();
        assert forall|j: int| 0 <= j < k - 1 implies rest[j] != '\n' by {
            assert(rest[j] == text[j + 1]);
        }
        if k < text.len() {
            assert(rest[k - 1] == text[k]);
        }
        lemma_line_end_at(rest, k - 1);
    }
}

/// The characters of each line.
pub open spec fn line_views(lines: Seq<Vec<char>>) -> Seq<Seq<char>> {
    lines.map_values(|l: Vec<char>| l@)
}

/// Splits a text into its lines.
pub fn split_lines(text: &Vec<char>) -> (lines: Vec<Vec<char>>)
    ensures
        line_views(lines@) == lines_of(text@),
{
    let mut lines: Vec<Vec<char>> = Vec::new();
    let mut pos: usize = 0;
    assert(text@.skip(0) =~= text@);
    assert(line_views(lines@) + lines_of(text@) =~= lines_of(text@));
    while pos < text.len()
        invariant
            pos <= text@.len(),
            line_views(lines@) + lines_of(text@.skip(pos as int)) == lines_of(text@),
        decreases text@.len() - pos,
    {
        let ghost rest = text@.skip(pos as int);
        let ghost before = lines@;
        let mut line: Vec<char> = Vec::new();
        let mut i: usize = pos;
        while i < text.len() && text[i] != '\n'
            invariant
                pos <= i <= text@.len(),
                line@ == text@.subrange(pos as int, i as int),
                forall|j: int| pos <= j < i ==> text@[j] != '\n',
            decreases text@.len() - i,
        {
            line.push(text[i]);
            i += 1;
            assert(line@ =~= text@.subrange(pos as int, i as int));
        }
        proof {
            assert forall|j: int| 0 <= j < i - pos implies rest[j] != '\n' by {
                assert(rest[j] == text@[j + pos]);
            }
            if i < text@.len() {
                assert(rest[i - pos] == text@[i as int]);
            }
            lemma_line_end_at(rest, i - pos);
            assert(line@ =~= rest.take(i - pos));
        }
        if i == text.len() {
            assert(line@ =~= rest);
            lines.push(line);
            proof {
                assert(lines_of(rest) == seq![rest]);
                assert(line_views(lines@) =~= line_views(before) + seq![rest]);
                assert(line_views(lines@) == lines_of(text@));
            }
            return lines;
        }
        if line.len() > 0 && line[line.len() - 1] == '\r' {
            line.truncate(line.len() - 1);
        }
        assert(line@ =~= without_cr(rest.take(i - pos)));
        lines.push(line);
        proof {
            let k = i - pos;
            assert(rest.skip(k + 1) =~= text@.skip(i + 1));
            assert(lines_of(rest) == seq![without_cr(rest.take(k))] + lines_of(rest.skip(k + 1)));
            assert(line_views(lines@) =~= line_views(before) + seq![without_cr(rest.take(k))]);
            assert(line_views(lines@) + lines_of(text@.skip(i + 1)) =~= line_views(before)
                + lines_of(rest));
        }
        pos = i + 1;
    }
    assert(lines_of(text@.skip(pos as int)) =~= Seq::empty());
    assert(line_views(lines@) =~= lines_of(text@));
    lines
}

/// Ten times itself, `n` times over.
pub open spec fn ten_to(n: nat) -> nat
    decreases n,
{
    if n == 0 {
        1
    } else {
        10 * ten_to((n - 1) as nat)
    }
}

/// Decimal notation: a digit by itself counts for what it shows, and digits put in front of others count ten
/// times as much for each place that follows them.
pub proof fn lemma_decimal_places(front: Seq<char>, back: Seq<char>, digit: char)
    requires
        '0' <= digit <= '9',
    ensures
        decimal(Seq::<char>::empty()) == 0,
        decimal(seq![digit]) == digit as int - 48,
        decimal(front + back) == decimal(front) * ten_to(back.len()) + decimal(back),
    decreases back.len(),
{
    reveal_with_fuel(decimal, 2);
    assert(seq![digit].drop_last() =~= Seq::<char>::empty());
    if back.len() == 0 {
        assert(front + back =~= front);
        let a = decimal(front);
        assert(ten_to(back.len()) == 1);
        assert(a * 1 == a);
    } else {
        lemma_decimal_places(front, back.drop_last(), digit);
        assert((front + back).drop_last() =~= front + back.drop_last());
        assert((front + back).last() == back.last());
        let (a, t, d) = (decimal(front), ten_to((back.len() - 1) as nat), decimal(back.drop_last()));
        assert(decimal(front + back.drop_last()) == a * t + d);
        assert(ten_to(back.len()) == 10 * t);
        assert(10 * (a * t + d) == a * (10 * t) + 10 * d) by (nonlinear_arith);
        assert(decimal(front) * ten_to(back.len()) == a * (10 * t));
        assert(decimal(back) == 10 * d + (back.last() as nat - '0' as nat) as nat);
        assert(decimal(front + back) == 10 * (a * t + d) + (back.last() as nat - '0' as nat) as nat);
    }
}

/// Which texts are numbers: one or more digits, or the same behind one plus sign, that count for no more than
/// `max`; nothing else is.
pub proof fn lemma_what_counts_as_a_number(s: Seq<char>, max: nat)
    ensures
        number_of(Seq::<char>::empty(), max) is None,
        number_of(seq!['+'], max) is None,
        s.len() > 0 && (forall|i: int| 0 <= i < s.len() ==> 48 <= #[trigger] (s[i] as int) <= 57) ==> {
            &&& number_of(s, max) == (if decimal(s) <= max {
                Some(decimal(s))
            } else {
                None
            })
            &&& number_of(seq!['+'] + s, max) == number_of(s, max)
        },
        (exists|i: int| 0 < i < s.len() && !(48 <= #[trigger] (s[i] as int) <= 57)) ==> number_of(s, max)
            is None,
        s.len() > 0 && s[0] != '+' && !(48 <= s[0] as int <= 57) ==> number_of(s, max) is None,
{
    assert(seq!['+'].skip(1) =~= Seq::<char>::empty());
    assert((seq!['+'] + s).skip(1) =~= s);
    assert(all_digits(s) ==> forall|i: int| 0 <= i < s.len() ==> '0' <= #[trigger] s[i] <= '9');
    if exists|i: int| 0 < i < s.len() && !(48 <= #[trigger] (s[i] as int) <= 57) {
        let i = choose|i: int| 0 < i < s.len() && !(48 <= #[trigger] (s[i] as int) <= 57);
        if s[0] == '+' {
            assert(s.skip(1)[i - 1] == s[i]);
            assert(!all_digits(s.skip(1)));
        } else {
            assert(!('0' <= s[i] <= '9'));
            assert(!all_digits(s));
        }
    }
    if s.len() > 0 && (forall|i: int| 0 <= i < s.len() ==> 48 <= #[trigger] (s[i] as int) <= 57) {
        assert(48 <= (s[0] as int) <= 57);
        assert forall|i: int| 0 <= i < s.len() implies '0' <= #[trigger] s[i] <= '9' by {
            assert(48 <= (s[i] as int) <= 57);
        }
        assert(all_digits(s));
    }
    if s.len() > 0 && s[0] != '+' && !(48 <= s[0] as int <= 57) {
        assert(!('0' <= s[0] <= '9'));
        assert(!all_digits(s));
    }
}

/// Trimming takes whitespace, all that stands at the one end, and nothing else.
pub proof fn lemma_trim_start_takes_whitespace_only(text: Seq<char>)
    ensures
        exists|k: int|
            {
                &&& 0 <= k <= text.len()
                &&& trimmed_start(text) == #[trigger] text.skip(k)
                &&& forall|i: int| 0 <= i < k ==> whitespace(#[trigger] text[i])
                &&& k < text.len() ==> !whitespace(text[k])
            },
    decreases text.len(),
{
    if text.len() > 0 && whitespace(text.first()) {
        let rest = text.drop_first();
        lemma_trim_start_takes_whitespace_only(rest);
        let k = choose|k: int|
            {
                &&& 0 <= k <= rest.len()
                &&& trimmed_start(rest) == #[trigger] rest.skip(k)
                &&& forall|i: int| 0 <= i < k ==> whitespace(#[trigger] rest[i])
                &&& k < rest.len() ==> !whitespace(rest[k])
            };
        assert(text.skip(k + 1) =~= rest.skip(k));
        assert forall|i: int| 0 <= i < k + 1 implies whitespace(#[trigger] text[i]) by {
            if i > 0 {
                assert(rest[i - 1] == text[i]);
            }
        }
    } else {
        assert(text.skip(0) =~= text);
    }
}

/// Trimming takes whitespace, all that stands at the one end, and nothing else.
pub proof fn lemma_trim_end_takes_whitespace_only(text: Seq<char>)
    ensures
        exists|k: int|
            {
                &&& 0 <= k <= text.len()
                &&& trimmed_end(text) == #[trigger] text.take(k)
                &&& forall|i: int| k <= i < text.len() ==> whitespace(#[trigger] text[i])
                &&& k > 0 ==> !whitespace(text[k - 1])
            },
    decreases text.len(),
{
    if text.len() > 0 && whitespace(text.last()) {
        let rest = text.drop_last();
        lemma_trim_end_takes_whitespace_only(rest);
        let k = choose|k: int|
            {
                &&& 0 <= k <= rest.len()
                &&& trimmed_end(rest) == #[trigger] rest.take(k)
                &&& forall|i: int| k <= i < rest.len() ==> whitespace(#[trigger] rest[i])
                &&& k > 0 ==> !whitespace(rest[k - 1])
            };
        assert(text.take(k) =~= rest.take(k));
        assert forall|i: int| k <= i < text.len() implies whitespace(#[trigger] text[i]) by {
            if i < text.len() - 1 {
                assert(rest[i] == text[i]);
            }
        }
    } else {
        assert(text.take(text.len() as int) =~= text);
    }
}

/// A text contains a pattern where it is the pattern with something before and after it, and starts with one
/// where it is the pattern with something after it; and only there.
pub proof fn lemma_containing_is_being_around(text: Seq<char>, pattern: Seq<char>)
    ensures
        contains_text(text, pattern) <==> exists|before: Seq<char>, after: Seq<char>|
            text == #[trigger] (before + pattern + after),
        starts_with(text, pattern) <==> exists|after: Seq<char>| text == #[trigger] (pattern + after),
{
    if contains_text(text, pattern) {
        let i = choose|i: int| occurs_at(text, pattern, i);
        let (before, after) = (text.take(i), text.skip(i + pattern.len()));
        assert forall|j: int| 0 <= j < pattern.len() implies pattern[j] == text[i + j] by {
            assert(text.subrange(i, i + pattern.len())[j] == text[i + j]);
        }
        assert(text =~= before + pattern + after);
    }
    if exists|before: Seq<char>, after: Seq<char>| text == #[trigger] (before + pattern + after) {
        let (before, after) = choose|before: Seq<char>, after: Seq<char>|
            text == #[trigger] (before + pattern + after);
        let i = before.len() as int;
        assert(text.subrange(i, i + pattern.len()) =~= pattern);
        assert(occurs_at(text, pattern, i));
    }
    if starts_with(text, pattern) {
        let after = text.skip(pattern.len() as int);
        assert forall|j: int| 0 <= j < pattern.len() implies pattern[j] == text[j] by {
            assert(text.subrange(0, pattern.len() as int)[j] == text[j]);
        }
        assert(text =~= pattern + after);
    }
    if exists|after: Seq<char>| text == #[trigger] (pattern + after) {
        let after = choose|after: Seq<char>| text == #[trigger] (pattern + after);
        assert(text.subrange(0, pattern.len() as int) =~= pattern);
    }
}

/// The first line of a text ends where its first line feed stands.
proof fn lemma_line_end(line: Seq<char>, rest: Seq<char>)
    requires
        forall|i: int| 0 <= i < line.len() ==> #[trigger] line[i] != '\n',
        rest.len() == 0 || rest[0] == '\n',
    ensures
        line_end(line + rest) == line.len(),
    decreases line.len(),
{
    if line.len() == 0 {
        assert(line + rest =~= rest);
    } else {
        assert(line[0] != '\n');
        assert((line + rest).drop_first() =~= line.drop_first() + rest);
        assert forall|i: int| 0 <= i < line.drop_first().len() implies #[trigger] line.drop_first()[i]
            != '\n' by {
            assert(line.drop_first()[i] == line[i + 1]);
        }
        lemma_line_end(line.drop_first(), rest);
    }
}

/// Lines are what line feeds part: whatever stands before the first one is the first line, without one
/// carriage return at its end, and what follows gives the other lines. A last line needs no line feed, and
/// none comes after a line feed that ends the text.
pub proof fn lemma_line_feeds_part_lines(line: Seq<char>, rest: Seq<char>)
    requires
        forall|i: int| 0 <= i < line.len() ==> #[trigger] line[i] != '\n',
    ensures
        lines_of(Seq::<char>::empty()) == Seq::<Seq<char>>::empty(),
        line.len() > 0 ==> lines_of(line) == seq![line],
        line.len() == 0 || line.last() != '\r' ==> {
            &&& lines_of(line + seq!['\n'] + rest) == seq![line] + lines_of(rest)
            &&& lines_of(line + seq!['\r', '\n'] + rest) == seq![line] + lines_of(rest)
        },
{
    lemma_line_end(line, Seq::<char>::empty());
    assert(line + Seq::<char>::empty() =~= line);
    if line.len() == 0 || line.last() != '\r' {
        let text = line + seq!['\n'] + rest;
        assert(text =~= line + (seq!['\n'] + rest));
        lemma_line_end(line, seq!['\n'] + rest);
        assert(text.take(line.len() as int) =~= line);
        assert(text.skip(line.len() as int + 1) =~= rest);
        let full = line.push('\r');
        let other = line + seq!['\r', '\n'] + rest;
        assert(other =~= full + (seq!['\n'] + rest));
        lemma_line_end(full, seq!['\n'] + rest);
        assert(other.take(full.len() as int) =~= full);
        assert(full.drop_last() =~= line);
        assert(other.skip(full.len() as int + 1) =~= rest);
    }
}

/// Which characters are whitespace, by their numbers: the controls from the tab to the carriage return, the
/// space, and the other white space of Unicode.
pub proof fn lemma_white_space_by_number(c: char)
    ensures
        whitespace(c) <==> ({
            let n = c as int;
            ||| 9 <= n <= 13
            ||| n == 32
            ||| n == 133
            ||| n == 160
            ||| n == 5760
            ||| 8192 <= n <= 8202
            ||| n == 8232
            ||| n == 8233
            ||| n == 8239
            ||| n == 8287
            ||| n == 12288
        }),
{
}

} // verus!

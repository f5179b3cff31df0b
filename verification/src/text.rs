//! Text operations on sequences of characters: trimming, lines, decimal numbers and
//! hexadecimal.

use vstd::prelude::*;
use vstd::string::*;
use vstd::utf8::*;

verus! {

broadcast use vstd::string::group_string_axioms;

// ---------------------------------------------------------------------------
// What std does to a `String`
// ---------------------------------------------------------------------------

/// `String::push` appends the given character to the end of the string.
pub assume_specification[ String::push ](s: &mut String, c: char)
    ensures
        final(s)@ == old(s)@.push(c),
;

/// `String::pop` removes the last character and returns it; an empty string
/// stays empty and gives `None`.
pub assume_specification[ String::pop ](s: &mut String) -> (last: Option<char>)
    ensures
        old(s)@.len() == 0 ==> last is None && final(s)@ == old(s)@,
        old(s)@.len() > 0 ==> last == Some(old(s)@.last()) && final(s)@ == old(s)@.drop_last(),
;

/// `String::from_utf8` accepts exactly the byte sequences that are valid UTF-8
/// and decodes them.
#[verifier::external_body]
pub(crate) fn text_from_utf8(bytes: Vec<u8>) -> (text: Option<String>)
    ensures
        text is Some <==> valid_utf8(bytes@),
        text matches Some(t) ==> t@ == decode_utf8(bytes@),
{
    String::from_utf8(bytes).ok()
}

// ---------------------------------------------------------------------------
// Characters in and out of strings
// ---------------------------------------------------------------------------

/// The characters of `s`.
pub fn chars_of(s: &str) -> (chars: Vec<char>)
    ensures
        chars@ == s@,
{
    let mut out: Vec<char> = Vec::new();
    for c in it: s.chars()
        invariant
            it.seq() == s@,
            out@ == s@.take(it.index()),
    {
        assert(s@.take(it.index() + 1) == s@.take(it.index()).push(c));
        out.push(c);
    }
    assert(s@.take(s@.len() as int) == s@);
    out
}

/// The string made of `chars[from..to]`.
pub fn string_of(chars: &[char], from: usize, to: usize) -> (s: String)
    requires
        from <= to <= chars@.len(),
    ensures
        s@ == chars@.subrange(from as int, to as int),
{
    let mut s = String::new();
    let mut i: usize = from;
    while i < to
        invariant
            from <= i <= to <= chars@.len(),
            s@ == chars@.subrange(from as int, i as int),
        decreases to - i,
    {
        assert(chars@.subrange(from as int, i + 1) == chars@.subrange(from as int, i as int).push(
            chars@[i as int],
        ));
        s.push(chars[i]);
        i += 1;
    }
    s
}

/// What an optional string holds.
pub open spec fn opt_text(s: Option<String>) -> Option<Seq<char>> {
    match s {
        Some(x) => Some(x@),
        None => None,
    }
}

/// Whether two texts hold the same characters.
pub fn same_text(a: &str, b: &str) -> (same: bool)
    ensures
        same == (a@ == b@),
{
    a.to_owned() == b.to_owned()
}

// ---------------------------------------------------------------------------
// Trimming
// ---------------------------------------------------------------------------

/// The characters with the Unicode property `White_Space`.
pub open spec fn is_space(c: char) -> bool {
    let u = c as u32;
    ||| 0x09 <= u <= 0x0d
    ||| u == 0x20
    ||| u == 0x85
    ||| u == 0xa0
    ||| u == 0x1680
    ||| 0x2000 <= u <= 0x200a
    ||| u == 0x2028
    ||| u == 0x2029
    ||| u == 0x202f
    ||| u == 0x205f
    ||| u == 0x3000
}

/// Whether `c` is white space.
pub fn is_white_space(c: char) -> (space: bool)
    ensures
        space == is_space(c),
{
    let u: u32 = c as u32;
    (0x09 <= u && u <= 0x0d) || u == 0x20 || u == 0x85 || u == 0xa0 || u == 0x1680 || (0x2000 <= u
        && u <= 0x200a) || u == 0x2028 || u == 0x2029 || u == 0x202f || u == 0x205f || u == 0x3000
}

/// `s` without the white space that it starts with.
pub open spec fn trimmed_start(s: Seq<char>) -> Seq<char>
    decreases s.len(),
{
    if s.len() > 0 && is_space(s.first()) {
        trimmed_start(s.drop_first())
    } else {
        s
    }
}

/// `s` without the white space that it ends with.
pub open spec fn trimmed_end(s: Seq<char>) -> Seq<char>
    decreases s.len(),
{
    if s.len() > 0 && is_space(s.last()) {
        trimmed_end(s.drop_last())
    } else {
        s
    }
}

/// `s` without the white space at either end.
pub open spec fn trimmed(s: Seq<char>) -> Seq<char> {
    trimmed_end(trimmed_start(s))
}

/// `text` without the white space at either end.
pub fn trim(text: &str) -> (out: String)
    ensures
        out@ == trimmed(text@),
{
    let chars = chars_of(text);
    let mut from: usize = 0;
    assert(chars@.skip(0) == chars@);
    while from < chars.len() && is_white_space(chars[from])
        invariant
            from <= chars@.len(),
            trimmed_start(chars@.skip(from as int)) == trimmed_start(chars@),
        decreases chars@.len() - from,
    {
        assert(chars@.skip(from as int).drop_first() == chars@.skip(from + 1));
        from += 1;
    }
    let mut to: usize = chars.len();
    assert(chars@.subrange(from as int, to as int) == chars@.skip(from as int));
    while from < to && is_white_space(chars[to - 1])
        invariant
            from <= to <= chars@.len(),
            trimmed_end(chars@.subrange(from as int, to as int)) == trimmed(chars@),
        decreases to - from,
    {
        assert(chars@.subrange(from as int, to as int).drop_last() == chars@.subrange(
            from as int,
            to - 1,
        ));
        to -= 1;
    }
    string_of(chars.as_slice(), from, to)
}

/// A text that was trimmed has no white space left at either end, and
/// trimming it again changes nothing.
pub proof fn law_trim_is_idempotent(s: Seq<char>)
    ensures
        trimmed(s).len() > 0 ==> !is_space(trimmed(s).first()) && !is_space(trimmed(s).last()),
        trimmed(trimmed(s)) == trimmed(s),
{
    lemma_trimmed_start(s);
    lemma_trimmed_end(trimmed_start(s));
    let t = trimmed(s);
    if t.len() > 0 {
        assert(t.first() == trimmed_start(s).first());
    }
}

proof fn lemma_trimmed_start(s: Seq<char>)
    ensures
        trimmed_start(s).len() > 0 ==> !is_space(trimmed_start(s).first()),
    decreases s.len(),
{
    if s.len() > 0 && is_space(s.first()) {
        lemma_trimmed_start(s.drop_first());
    }
}

proof fn lemma_trimmed_end(s: Seq<char>)
    ensures
        trimmed_end(s).len() <= s.len(),
        trimmed_end(s) == s.take(trimmed_end(s).len() as int),
        trimmed_end(s).len() > 0 ==> !is_space(trimmed_end(s).last()),
    decreases s.len(),
{
    if s.len() > 0 && is_space(s.last()) {
        lemma_trimmed_end(s.drop_last());
        let n = trimmed_end(s).len() as int;
        assert(s.drop_last().take(n) == s.take(n));
    } else {
        assert(s.take(s.len() as int) == s);
    }
}

// ---------------------------------------------------------------------------
// Lines
// ---------------------------------------------------------------------------

/// The texts that the strings of `v` hold.
pub open spec fn texts(v: Seq<String>) -> Seq<Seq<char>> {
    v.map_values(|s: String| s@)
}

/// The index of the first line feed of `s` at `from` or later, or the length
/// of `s` where there is none.
pub open spec fn line_feed_at(s: Seq<char>, from: int) -> int
    decreases s.len() - from,
{
    if from >= s.len() || s[from] == '\n' {
        from
    } else {
        line_feed_at(s, from + 1)
    }
}

/// `line` without a carriage return at its end.
pub open spec fn without_cr(line: Seq<char>) -> Seq<char> {
    if line.len() > 0 && line.last() == '\r' {
        line.drop_last()
    } else {
        line
    }
}

/// The lines of `s` from index `from` on. A line ends at a line feed, or at a
/// carriage return and a line feed; the end of the last line is optional.
pub open spec fn lines_from(s: Seq<char>, from: int) -> Seq<Seq<char>>
    decreases s.len() - from,
    when 0 <= from
    via lines_from_decreases
{
    if from >= s.len() {
        Seq::empty()
    } else {
        let end = line_feed_at(s, from);
        if end >= s.len() {
            seq![s.skip(from)]
        } else {
            seq![without_cr(s.subrange(from, end))] + lines_from(s, end + 1)
        }
    }
}

#[via_fn]
proof fn lines_from_decreases(s: Seq<char>, from: int) {
    lemma_line_feed_at(s, from);
}

/// Where the first line feed stands.
pub proof fn lemma_line_feed_at(s: Seq<char>, from: int)
    requires
        0 <= from,
    ensures
        line_feed_at(s, from) >= from,
        from <= s.len() ==> line_feed_at(s, from) <= s.len(),
        forall|j: int| from <= j < line_feed_at(s, from) ==> s[j] != '\n',
        line_feed_at(s, from) < s.len() ==> s[line_feed_at(s, from)] == '\n',
    decreases s.len() - from,
{
    if !(from >= s.len() || s[from] == '\n') {
        lemma_line_feed_at(s, from + 1);
    }
}

/// The lines of `s`.
pub open spec fn lines_of(s: Seq<char>) -> Seq<Seq<char>> {
    lines_from(s, 0)
}

/// Splits `text` into its lines.
pub fn split_lines(text: &str) -> (lines: Vec<String>)
    ensures
        texts(lines@) == lines_of(text@),
{
    let chars = chars_of(text);
    let mut out: Vec<String> = Vec::new();
    let mut from: usize = 0;
    assert(texts(out@) + lines_from(chars@, 0) == lines_of(chars@));
    while from < chars.len()
        invariant
            from <= chars@.len(),
            texts(out@) + lines_from(chars@, from as int) == lines_of(chars@),
        decreases chars@.len() - from,
    {
        let ghost before = texts(out@);
        let mut end: usize = from;
        while end < chars.len() && chars[end] != '\n'
            invariant
                from <= end <= chars@.len(),
                line_feed_at(chars@, end as int) == line_feed_at(chars@, from as int),
            decreases chars@.len() - end,
        {
            end += 1;
        }
        if end == chars.len() {
            let line = string_of(chars.as_slice(), from, end);
            out.push(line);
            assert(chars@.subrange(from as int, end as int) == chars@.skip(from as int));
            assert(texts(out@) == before.push(chars@.skip(from as int)));
            from = end;
            assert(before + seq![chars@.skip(from as int)] + Seq::<Seq<char>>::empty()
                == before.push(chars@.skip(from as int)));
        } else {
            let ghost whole = chars@.subrange(from as int, end as int);
            let mut stop: usize = end;
            if from < end && chars[end - 1] == '\r' {
                stop = end - 1;
            }
            let line = string_of(chars.as_slice(), from, stop);
            assert(line@ == without_cr(whole));
            out.push(line);
            assert(texts(out@) == before.push(without_cr(whole)));
            assert(before + (seq![without_cr(whole)] + lines_from(chars@, end + 1)) == before.push(
                without_cr(whole),
            ) + lines_from(chars@, end + 1));
            from = end + 1;
        }
    }
    assert(texts(out@) + lines_from(chars@, from as int) == texts(out@));
    out
}

/// The texts of `parts` with a line feed between each two of them.
pub open spec fn joined_lines(parts: Seq<Seq<char>>) -> Seq<char>
    decreases parts.len(),
{
    if parts.len() == 0 {
        Seq::empty()
    } else if parts.len() == 1 {
        parts[0]
    } else {
        joined_lines(parts.drop_last()).push('\n') + parts.last()
    }
}

/// Joins `parts` with a line feed between each two of them.
pub fn join_lines(parts: &Vec<String>) -> (out: String)
    ensures
        out@ == joined_lines(texts(parts@)),
{
    let mut out = String::new();
    let mut i: usize = 0;
    let ghost all = texts(parts@);
    while i < parts.len()
        invariant
            i <= parts@.len(),
            all == texts(parts@),
            out@ == joined_lines(all.take(i as int)),
        decreases parts@.len() - i,
    {
        assert(all.take(i + 1).drop_last() == all.take(i as int));
        if i > 0 {
            out.push('\n');
        }
        out.append(parts[i].as_str());
        i += 1;
    }
    assert(all.take(i as int) == all);
    out
}

proof fn lemma_joined_lines_front(first: Seq<char>, rest: Seq<Seq<char>>)
    requires
        rest.len() > 0,
    ensures
        joined_lines(seq![first] + rest) == first.push('\n') + joined_lines(rest),
    decreases rest.len(),
{
    let all = seq![first] + rest;
    assert(all.last() == rest.last());
    if rest.len() == 1 {
        assert(all.drop_last() =~= seq![first]);
        assert(joined_lines(seq![first]) == first);
    } else {
        assert(all.drop_last() =~= seq![first] + rest.drop_last());
        lemma_joined_lines_front(first, rest.drop_last());
        assert(joined_lines(all) =~= first.push('\n') + joined_lines(rest));
    }
}

/// Whether `s` holds a carriage return with a line feed behind it.
pub open spec fn has_crlf(s: Seq<char>) -> bool {
    exists|i: int| 0 <= i < s.len() - 1 && #[trigger] s[i] == '\r' && s[i + 1] == '\n'
}

/// `s` without a line feed at its end.
pub open spec fn without_last_line_feed(s: Seq<char>) -> Seq<char> {
    if s.len() > 0 && s.last() == '\n' {
        s.drop_last()
    } else {
        s
    }
}

proof fn lemma_lines_join_back(s: Seq<char>, from: int)
    requires
        0 <= from < s.len(),
        !has_crlf(s),
    ensures
        lines_from(s, from).len() > 0,
        joined_lines(lines_from(s, from)) == s.subrange(
            from,
            without_last_line_feed(s).len() as int,
        ),
    decreases s.len() - from,
{
    lemma_line_feed_at(s, from);
    let end = line_feed_at(s, from);
    let line = s.subrange(from, end);
    if end < s.len() {
        if line.len() > 0 && line.last() == '\r' {
            assert(s[end - 1] == '\r');
            assert(has_crlf(s));
        }
        assert(without_cr(line) == line);
        if end == s.len() - 1 {
            assert(lines_from(s, end + 1) =~= Seq::<Seq<char>>::empty());
            assert(lines_from(s, from) =~= seq![line]);
        } else {
            lemma_lines_join_back(s, end + 1);
            lemma_joined_lines_front(line, lines_from(s, end + 1));
            assert(line.push('\n') + s.subrange(end + 1, without_last_line_feed(s).len() as int)
                =~= s.subrange(from, without_last_line_feed(s).len() as int));
        }
    } else {
        assert(lines_from(s, from) == seq![s.skip(from)]);
        assert(s.last() != '\n');
        assert(s.skip(from) =~= s.subrange(from, s.len() as int));
    }
}

/// A text that nowhere has a carriage return before a line feed is its lines,
/// joined, but for a line feed at its end.
pub proof fn law_lines_join_back(s: Seq<char>)
    requires
        !has_crlf(s),
    ensures
        joined_lines(lines_of(s)) == without_last_line_feed(s),
{
    if s.len() > 0 {
        lemma_lines_join_back(s, 0);
        assert(s.subrange(0, without_last_line_feed(s).len() as int) =~= without_last_line_feed(s));
    } else {
        assert(joined_lines(lines_of(s)) =~= s);
    }
}

// ---------------------------------------------------------------------------
// Numbers
// ---------------------------------------------------------------------------

/// The decimal digit of value `d`.
pub open spec fn digit(d: nat) -> char {
    (48 + d) as char
}

/// `n` in decimal, without leading zeros.
pub open spec fn decimal_of(n: nat) -> Seq<char>
    decreases n,
{
    if n < 10 {
        seq![digit(n)]
    } else {
        decimal_of(n / 10).push(digit(n % 10))
    }
}

/// Appends `n` in decimal.
pub fn push_decimal(out: &mut String, n: u64)
    ensures
        final(out)@ == old(out)@ + decimal_of(n as nat),
    decreases n,
{
    let ghost before = out@;
    if n >= 10 {
        push_decimal(out, n / 10);
    }
    let d: u8 = (n % 10) as u8;
    out.push((48 + d) as char);
    assert(out@ == before + decimal_of(n as nat));
}

/// The two lowest decimal digits of `n`.
pub open spec fn two_digits_of(n: nat) -> Seq<char> {
    seq![digit(n / 10 % 10), digit(n % 10)]
}

/// Appends a number below 100 in two decimal digits.
pub fn push_two_digits(out: &mut String, n: u64)
    requires
        n < 100,
    ensures
        final(out)@ == old(out)@ + two_digits_of(n as nat),
{
    let ghost before = out@;
    let high: u8 = (n / 10) as u8;
    let low: u8 = (n % 10) as u8;
    out.push((48 + high) as char);
    out.push((48 + low) as char);
    assert(out@ == before + two_digits_of(n as nat));
}

/// The lower-case hexadecimal digit of value `d`.
pub open spec fn hex_digit(d: int) -> char {
    if d < 10 {
        (48 + d) as char
    } else {
        (87 + d) as char
    }
}

/// `bytes` in hexadecimal, two lower-case digits each.
pub open spec fn hex_of(bytes: Seq<u8>) -> Seq<char> {
    Seq::new(
        2 * bytes.len(),
        |i: int|
            if i % 2 == 0 {
                hex_digit(bytes[i / 2] as int / 16)
            } else {
                hex_digit(bytes[i / 2] as int % 16)
            },
    )
}

fn hex_char(d: u8) -> (c: char)
    requires
        d < 16,
    ensures
        c == hex_digit(d as int),
{
    if d < 10 {
        (48 + d) as char
    } else {
        (87 + d) as char
    }
}

/// Writes `bytes` in hexadecimal.
pub fn to_hex(bytes: &[u8]) -> (out: String)
    ensures
        out@ == hex_of(bytes@),
{
    let mut out = String::new();
    let mut i: usize = 0;
    while i < bytes.len()
        invariant
            i <= bytes@.len(),
            out@ == hex_of(bytes@.take(i as int)),
        decreases bytes@.len() - i,
    {
        let ghost before = out@;
        let b: u8 = bytes[i];
        out.push(hex_char(b / 16));
        out.push(hex_char(b % 16));
        i += 1;
        assert(out@ =~= hex_of(bytes@.take(i as int)));
    }
    assert(bytes@.take(i as int) == bytes@);
    out
}

// ---------------------------------------------------------------------------
// What lines, trimming and numbers are
// ---------------------------------------------------------------------------

proof fn lemma_trimmed_start_is_suffix(s: Seq<char>) -> (from: int)
    ensures
        0 <= from <= s.len(),
        trimmed_start(s) == s.skip(from),
        forall|i: int| 0 <= i < from ==> is_space(#[trigger] s[i]),
    decreases s.len(),
{
    if s.len() > 0 && is_space(s.first()) {
        let rest = lemma_trimmed_start_is_suffix(s.drop_first());
        assert(s.drop_first().skip(rest) =~= s.skip(rest + 1));
        assert forall|i: int| 0 <= i < rest + 1 implies is_space(#[trigger] s[i]) by {
            if i > 0 {
                assert(s.drop_first()[i - 1] == s[i]);
            }
        }
        rest + 1
    } else {
        assert(s.skip(0) =~= s);
        0
    }
}

proof fn lemma_trimmed_end_drops_space(s: Seq<char>)
    ensures
        trimmed_end(s).len() <= s.len(),
        forall|i: int| trimmed_end(s).len() <= i < s.len() ==> is_space(#[trigger] s[i]),
    decreases s.len(),
{
    if s.len() > 0 && is_space(s.last()) {
        lemma_trimmed_end_drops_space(s.drop_last());
        assert forall|i: int| trimmed_end(s).len() <= i < s.len() implies is_space(
            #[trigger] s[i],
        ) by {
            if i < s.len() - 1 {
                assert(s.drop_last()[i] == s[i]);
            }
        }
    }
}

/// Trimming takes white space off the ends and nothing else: what is left is one
/// stretch of the text, all that stood before and behind it is white space, and it
/// neither starts nor ends with white space.
pub proof fn law_trim_takes_only_white_space(s: Seq<char>) -> (range: (int, int))
    ensures
        0 <= range.0 <= range.1 <= s.len(),
        trimmed(s) == s.subrange(range.0, range.1),
        forall|i: int| 0 <= i < range.0 ==> is_space(#[trigger] s[i]),
        forall|i: int| range.1 <= i < s.len() ==> is_space(#[trigger] s[i]),
        range.0 < range.1 ==> !is_space(s[range.0]) && !is_space(s[range.1 - 1]),
{
    let from = lemma_trimmed_start_is_suffix(s);
    let rest = s.skip(from);
    lemma_trimmed_end(rest);
    lemma_trimmed_end_drops_space(rest);
    lemma_trimmed_start(s);
    let to = from + trimmed(s).len();
    assert(trimmed(s) =~= s.subrange(from, to));
    assert forall|i: int| to <= i < s.len() implies is_space(#[trigger] s[i]) by {
        assert(rest[i - from] == s[i]);
    }
    if from < to {
        assert(rest[0] == s[from]);
        assert(trimmed(s).last() == s[to - 1]);
    }
    (from, to)
}

proof fn lemma_line_feed_behind(head: Seq<char>, s: Seq<char>, from: int)
    requires
        0 <= from <= s.len(),
    ensures
        line_feed_at(head + s, head.len() + from) == head.len() + line_feed_at(s, from),
    decreases s.len() - from,
{
    let whole = head + s;
    if from < s.len() {
        assert(whole[head.len() + from] == s[from]);
        if s[from] != '\n' {
            lemma_line_feed_behind(head, s, from + 1);
        }
    }
}

proof fn lemma_lines_behind(head: Seq<char>, s: Seq<char>, from: int)
    requires
        0 <= from <= s.len(),
    ensures
        lines_from(head + s, head.len() + from) == lines_from(s, from),
    decreases s.len() - from,
{
    let whole = head + s;
    if from < s.len() {
        lemma_line_feed_behind(head, s, from);
        lemma_line_feed_at(s, from);
        let end = line_feed_at(s, from);
        let far = head.len() + end;
        assert(line_feed_at(whole, head.len() + from) == far);
        if end < s.len() {
            lemma_lines_behind(head, s, end + 1);
            assert(whole.subrange(head.len() + from, far) =~= s.subrange(from, end));
        } else {
            assert(whole.skip(head.len() + from) =~= s.skip(from));
        }
    }
}

proof fn lemma_line_feed_past(s: Seq<char>, from: int, to: int)
    requires
        0 <= from <= to <= s.len(),
        forall|i: int| from <= i < to ==> #[trigger] s[i] != '\n',
    ensures
        line_feed_at(s, from) == line_feed_at(s, to),
    decreases to - from,
{
    if from < to {
        lemma_line_feed_past(s, from + 1, to);
    }
}

/// A line feed ends a line, and a carriage return right before it is part of that
/// end: the first line of a text is what stands before its first line feed, without
/// such a carriage return, and the other lines are those of the text behind it.
pub proof fn law_line_feed_ends_line(line: Seq<char>, rest: Seq<char>)
    requires
        !line.contains('\n'),
    ensures
        lines_of(line.push('\n') + rest) == seq![
            if line.len() > 0 && line[line.len() - 1] == '\r' {
                line.take(line.len() - 1)
            } else {
                line
            },
        ] + lines_of(rest),
{
    let s = line.push('\n') + rest;
    assert forall|i: int| 0 <= i < line.len() implies #[trigger] s[i] != '\n' by {
        assert(s[i] == line[i]);
        assert(line.contains(line[i]));
    }
    lemma_line_feed_past(s, 0, line.len() as int);
    assert(s[line.len() as int] == '\n');
    assert(s.subrange(0, line.len() as int) =~= line);
    lemma_lines_behind(line.push('\n'), rest, 0);
    assert(line.len() > 0 ==> line.drop_last() =~= line.take(line.len() - 1));
}

/// A text without a line feed is one line, whatever it ends with; an empty text has
/// no line.
pub proof fn law_text_without_line_feed_is_one_line(s: Seq<char>)
    requires
        !s.contains('\n'),
    ensures
        s.len() > 0 ==> lines_of(s) == seq![s],
        s.len() == 0 ==> lines_of(s) == Seq::<Seq<char>>::empty(),
{
    assert forall|i: int| 0 <= i < s.len() implies #[trigger] s[i] != '\n' by {
        assert(s.contains(s[i]));
    }
    lemma_line_feed_past(s, 0, s.len() as int);
    assert(s.skip(0) =~= s);
}

/// Joining puts one line feed between each two parts, and nothing else.
pub proof fn law_join_puts_line_feeds_between(parts: Seq<Seq<char>>, part: Seq<char>)
    ensures
        joined_lines(seq![part]) == part,
        parts.len() > 0 ==> joined_lines(parts.push(part)) == joined_lines(parts) + seq!['\n'] + part,
        parts.len() > 0 ==> joined_lines(seq![part] + parts) == part + seq!['\n'] + joined_lines(
            parts,
        ),
{
    if parts.len() > 0 {
        assert(parts.push(part).drop_last() =~= parts);
        assert(joined_lines(parts.push(part)) =~= joined_lines(parts) + seq!['\n'] + part);
        lemma_joined_lines_front(part, parts);
        assert(part.push('\n') + joined_lines(parts) =~= part + seq!['\n'] + joined_lines(parts));
    }
}

/// The number that decimal digits spell.
pub open spec fn number_of(digits: Seq<char>) -> int
    decreases digits.len(),
{
    if digits.len() == 0 {
        0
    } else {
        number_of(digits.drop_last()) * 10 + (digits.last() as int - '0' as int)
    }
}

/// A number is written in decimal digits that spell it, without a leading zero.
pub proof fn law_decimal_spells_number(n: nat)
    ensures
        number_of(decimal_of(n)) == n,
        decimal_of(n).len() > 0,
        forall|i: int|
            0 <= i < decimal_of(n).len() ==> '0' <= #[trigger] decimal_of(n)[i] <= '9',
        n > 0 ==> decimal_of(n)[0] != '0',
        n == 0 ==> decimal_of(n) == seq!['0'],
    decreases n,
{
    let s = decimal_of(n);
    if n < 10 {
        assert(s.drop_last() =~= Seq::<char>::empty());
        assert(number_of(s.drop_last()) == 0);
    } else {
        law_decimal_spells_number(n / 10);
        assert(s.drop_last() =~= decimal_of(n / 10));
        assert(s[0] == decimal_of(n / 10)[0]);
    }
}

/// A number below one hundred is written in two digits that spell it.
pub proof fn law_two_digits_spell_number(n: nat)
    requires
        n < 100,
    ensures
        number_of(two_digits_of(n)) == n,
        two_digits_of(n).len() == 2,
        '0' <= two_digits_of(n)[0] <= '9',
        '0' <= two_digits_of(n)[1] <= '9',
{
    let s = two_digits_of(n);
    assert(s.drop_last().drop_last() =~= Seq::<char>::empty());
    reveal_with_fuel(number_of, 3);
}

/// The value of a hexadecimal digit.
pub open spec fn hex_value(c: char) -> int {
    if c <= '9' {
        c as int - '0' as int
    } else {
        c as int - 'a' as int + 10
    }
}

/// Bytes are written in two hexadecimal digits each, in lower case, that spell them.
pub proof fn law_hex_spells_bytes(bytes: Seq<u8>)
    ensures
        hex_of(bytes).len() == 2 * bytes.len(),
        forall|i: int|
            0 <= i < bytes.len() ==> 16 * hex_value(hex_of(bytes)[2 * i]) + hex_value(
                hex_of(bytes)[2 * i + 1],
            ) == #[trigger] bytes[i],
        forall|i: int|
            0 <= i < hex_of(bytes).len() ==> '0' <= #[trigger] hex_of(bytes)[i] <= '9' || 'a'
                <= hex_of(bytes)[i] <= 'f',
{
    assert forall|i: int| 0 <= i < bytes.len() implies 16 * hex_value(hex_of(bytes)[2 * i])
        + hex_value(hex_of(bytes)[2 * i + 1]) == #[trigger] bytes[i] by {
        assert((2 * i) / 2 == i && (2 * i + 1) / 2 == i);
    }
}

} // verus!

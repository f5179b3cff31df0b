//! Right-to-left text in the order in which it is shown.

use crate::text;
use vstd::prelude::*;

verus! {

/// Whether `unicode_bidi` finds a right-to-left level in `line`.
pub uninterp spec fn bidi_has_rtl(line: Seq<char>) -> bool;

/// The first paragraph of `line` in the order in which `unicode_bidi` shows it.
pub uninterp spec fn bidi_reordered(line: Seq<char>) -> Seq<char>;

/// Whether `c` ends a paragraph: the characters of the bidirectional class `B`.
pub open spec fn ends_paragraph(c: char) -> bool {
    let u = c as u32;
    u == 0x0a || u == 0x0d || 0x1c <= u <= 0x1e || u == 0x85 || u == 0x2029
}

/// The first paragraph of `line`, with the character that ends it.
pub open spec fn first_paragraph(line: Seq<char>) -> Seq<char>
    decreases line.len(),
{
    if line.len() == 0 {
        line
    } else if ends_paragraph(line[0]) {
        line.take(1)
    } else {
        seq![line[0]] + first_paragraph(line.drop_first())
    }
}

/// Whether `s` holds no character from Hebrew on, and so none that is written from
/// right to left.
pub open spec fn is_left_to_right(s: Seq<char>) -> bool {
    forall|i: int| 0 <= i < s.len() ==> #[trigger] s[i] < '\u{590}'
}

/// Whether `c` is a letter of Hebrew, Arabic or Persian.
pub open spec fn is_rtl_letter(c: char) -> bool {
    '\u{5d0}' <= c <= '\u{5ea}' || '\u{620}' <= c <= '\u{64a}' || '\u{671}' <= c <= '\u{6d3}'
}

/// Whether `c` embeds, overrides or isolates a direction.
pub open spec fn is_direction_control(c: char) -> bool {
    '\u{202a}' <= c <= '\u{202e}' || '\u{2066}' <= c <= '\u{2069}'
}

/// Whether `s` holds a letter of Hebrew, Arabic or Persian, and no character that
/// embeds, overrides or isolates a direction.
pub open spec fn is_right_to_left(s: Seq<char>) -> bool {
    &&& exists|i: int| 0 <= i < s.len() && is_rtl_letter(#[trigger] s[i])
    &&& forall|i: int| 0 <= i < s.len() ==> !is_direction_control(#[trigger] s[i])
}

/// `unicode_bidi::BidiInfo::has_rtl`, where each paragraph finds its own base
/// direction: a function of the text. The characters below Hebrew leave every level
/// at that of left-to-right text; a letter of Hebrew, Arabic or Persian gets a
/// right-to-left level, unless a control character before it says otherwise.
#[verifier::external_body]
fn has_rtl(line: &str) -> (rtl: bool)
    ensures
        rtl == bidi_has_rtl(line@),
        is_left_to_right(line@) ==> !rtl,
        is_right_to_left(line@) ==> rtl,
{
    unicode_bidi::BidiInfo::new(line, None).has_rtl()
}

/// `unicode_bidi::BidiInfo::reorder_line` of the whole first paragraph: a
/// function of the text, which puts the characters of that paragraph into another
/// order and neither adds, drops nor changes any. Only an empty text has no
/// paragraph.
#[verifier::external_body]
fn reorder(line: &str) -> (shown: String)
    requires
        line@.len() > 0,
    ensures
        shown@ == bidi_reordered(line@),
        shown@.to_multiset() == first_paragraph(line@).to_multiset(),
{
    let bidi = unicode_bidi::BidiInfo::new(line, None);
    let paragraph = &bidi.paragraphs[0];
    bidi.reorder_line(paragraph, paragraph.range.clone()).into_owned()
}

/// A line as it is shown: reordered where it holds right-to-left text, else as
/// it is.
pub open spec fn visual_line_of(line: Seq<char>) -> Seq<char> {
    if line.len() > 0 && bidi_has_rtl(line) {
        bidi_reordered(line)
    } else {
        line
    }
}

/// Whether `line` is shown with its own characters: a line with right-to-left text
/// with those of its first paragraph in some order, any other as it is.
pub open spec fn is_only_reordered(line: Seq<char>) -> bool {
    if line.len() > 0 && bidi_has_rtl(line) {
        visual_line_of(line).to_multiset() == first_paragraph(line).to_multiset()
    } else {
        visual_line_of(line) == line
    }
}

/// A text as it is shown, line by line.
pub open spec fn rtl_visual_of(text: Seq<char>) -> Seq<char> {
    text::joined_lines(text::lines_of(text).map_values(|line: Seq<char>| visual_line_of(line)))
}

/// A line as it is shown, where `reordered` is its right-to-left order if it
/// has one.
pub fn shown_line(line: &str, reordered: Option<String>) -> (shown: String)
    ensures
        shown@ == (match reordered {
            Some(r) => r@,
            None => line@,
        }),
{
    match reordered {
        Some(r) => r,
        None => line.to_owned(),
    }
}

/// Whether `line` is reordered where it has letters of Hebrew, Arabic or Persian,
/// and kept where it has no character from Hebrew on.
pub open spec fn is_reordered_by_script(line: Seq<char>) -> bool {
    &&& is_right_to_left(line) ==> visual_line_of(line) == bidi_reordered(line)
    &&& is_left_to_right(line) ==> visual_line_of(line) == line
}

proof fn lemma_lines_are_left_to_right(s: Seq<char>, from: int)
    requires
        0 <= from,
        is_left_to_right(s),
    ensures
        forall|i: int|
            0 <= i < text::lines_from(s, from).len() ==> is_left_to_right(
                #[trigger] text::lines_from(s, from)[i],
            ),
    decreases s.len() - from,
{
    if from < s.len() {
        text::lemma_line_feed_at(s, from);
        let end = text::line_feed_at(s, from);
        if end < s.len() {
            lemma_lines_are_left_to_right(s, end + 1);
            let line = text::without_cr(s.subrange(from, end));
            assert forall|j: int| 0 <= j < line.len() implies #[trigger] line[j] < '\u{590}' by {
                assert(line[j] == s[from + j]);
            }
            assert forall|i: int| 0 <= i < text::lines_from(s, from).len() implies is_left_to_right(
                #[trigger] text::lines_from(s, from)[i],
            ) by {
                if i > 0 {
                    assert(text::lines_from(s, from)[i] == text::lines_from(s, end + 1)[i - 1]);
                }
            }
        } else {
            let line = s.skip(from);
            assert forall|j: int| 0 <= j < line.len() implies #[trigger] line[j] < '\u{590}' by {
                assert(line[j] == s[from + j]);
            }
        }
    }
}

/// A text as it is shown, line by line. The characters of a line are only
/// reordered: those of a line with letters of Hebrew, Arabic or Persian. A text
/// without characters from Hebrew on is kept.
pub fn rtl_visual(text: &str) -> (shown: String)
    ensures
        shown@ == rtl_visual_of(text@),
        forall|i: int|
            0 <= i < text::lines_of(text@).len() ==> is_only_reordered(
                #[trigger] text::lines_of(text@)[i],
            ) && is_reordered_by_script(text::lines_of(text@)[i]),
        is_left_to_right(text@) ==> shown@ == text::joined_lines(text::lines_of(text@)),
        is_left_to_right(text@) && !text::has_crlf(text@) ==> shown@ == text::without_last_line_feed(
            text@,
        ),
{
    let lines = text::split_lines(text);
    let mut out: Vec<String> = Vec::new();
    let mut i: usize = 0;
    let ghost all = text::texts(lines@);
    let ghost visual = all.map_values(|line: Seq<char>| visual_line_of(line));
    while i < lines.len()
        invariant
            i <= lines@.len(),
            all == text::texts(lines@),
            visual == all.map_values(|line: Seq<char>| visual_line_of(line)),
            text::texts(out@) == visual.take(i as int),
            forall|j: int|
                0 <= j < i ==> is_only_reordered(#[trigger] all[j]) && is_reordered_by_script(
                    all[j],
                ),
        decreases lines@.len() - i,
    {
        let line = lines[i].as_str();
        let reordered = if line.is_empty() {
            None
        } else if has_rtl(line) {
            Some(reorder(line))
        } else {
            None
        };
        let ghost before = text::texts(out@);
        let shown = shown_line(line, reordered);
        assert(line@ == all[i as int]);
        assert(shown@ == visual[i as int]);
        out.push(shown);
        i += 1;
        assert(text::texts(out@) =~= before.push(visual[i - 1]));
        assert(text::texts(out@) =~= visual.take(i as int));
    }
    assert(visual.take(i as int) == visual);
    proof {
        if is_left_to_right(text@) {
            lemma_lines_are_left_to_right(text@, 0);
            assert(visual =~= all);
            if !text::has_crlf(text@) {
                text::law_lines_join_back(text@);
            }
        }
    }
    text::join_lines(&out)
}

/// A text without right-to-left lines is shown as it is, line by line; and where
/// it nowhere has a carriage return before a line feed, it is shown unchanged but
/// for a line feed at its end.
pub proof fn law_left_to_right_text_is_kept(s: Seq<char>)
    requires
        forall|i: int|
            0 <= i < text::lines_of(s).len() ==> !bidi_has_rtl(#[trigger] text::lines_of(s)[i]),
    ensures
        rtl_visual_of(s) == text::joined_lines(text::lines_of(s)),
        !text::has_crlf(s) ==> rtl_visual_of(s) == text::without_last_line_feed(s),
{
    assert(text::lines_of(s).map_values(|line: Seq<char>| visual_line_of(line)) =~= text::lines_of(
        s,
    ));
    if !text::has_crlf(s) {
        text::law_lines_join_back(s);
    }
}

/// A line that is a single paragraph has a first paragraph of all its characters.
pub proof fn law_single_paragraph_is_whole_line(line: Seq<char>)
    requires
        forall|i: int| 0 <= i < line.len() - 1 ==> !ends_paragraph(#[trigger] line[i]),
    ensures
        first_paragraph(line) == line,
    decreases line.len(),
{
    if line.len() > 0 {
        if ends_paragraph(line[0]) {
            assert(line.len() == 1);
            assert(line.take(1) =~= line);
        } else {
            assert forall|i: int| 0 <= i < line.drop_first().len() - 1 implies !ends_paragraph(
                #[trigger] line.drop_first()[i],
            ) by {
                assert(line.drop_first()[i] == line[i + 1]);
            }
            law_single_paragraph_is_whole_line(line.drop_first());
            assert(seq![line[0]] + line.drop_first() =~= line);
        }
    }
}

/// A line with right-to-left text is shown reordered, and any other as it is; a text is
/// shown line by line, whatever its other lines are.
pub proof fn law_lines_are_shown_one_by_one(line: Seq<char>, rest: Seq<char>)
    requires
        !line.contains('\n'),
        line.len() > 0,
        line[line.len() - 1] != '\r',
    ensures
        rtl_visual_of(line) == (if bidi_has_rtl(line) {
            bidi_reordered(line)
        } else {
            line
        }),
        rest.len() > 0 ==> rtl_visual_of(line + seq!['\n'] + rest) == rtl_visual_of(line) + seq![
            '\n',
        ] + rtl_visual_of(rest),
        rtl_visual_of(line + seq!['\n']) == rtl_visual_of(line),
        rest.len() > 0 ==> rtl_visual_of(seq!['\n'] + rest) == seq!['\n'] + rtl_visual_of(rest),
{
    let show = |l: Seq<char>| visual_line_of(l);
    let none = Seq::<char>::empty();
    text::law_text_without_line_feed_is_one_line(line);
    assert(seq![line].map_values(show) =~= seq![visual_line_of(line)]);
    text::law_join_puts_line_feeds_between(Seq::empty(), visual_line_of(line));
    text::law_line_feed_ends_line(line, none);
    text::law_text_without_line_feed_is_one_line(none);
    assert(line.push('\n') + none =~= line + seq!['\n']);
    assert(seq![line] + Seq::<Seq<char>>::empty() =~= seq![line]);
    if rest.len() > 0 {
        text::law_line_feed_ends_line(line, rest);
        assert(line.push('\n') + rest =~= line + seq!['\n'] + rest);
        let others = text::lines_of(rest);
        assert((seq![line] + others).map_values(show) =~= seq![visual_line_of(line)]
            + others.map_values(show));
        text::lemma_line_feed_at(rest, 0);
        assert(others.len() > 0);
        text::law_join_puts_line_feeds_between(others.map_values(show), visual_line_of(line));
        text::law_line_feed_ends_line(none, rest);
        assert(none.push('\n') + rest =~= seq!['\n'] + rest);
        assert((seq![none] + others).map_values(show) =~= seq![none] + others.map_values(show));
        text::law_join_puts_line_feeds_between(others.map_values(show), none);
        assert(none + seq!['\n'] + text::joined_lines(others.map_values(show)) =~= seq!['\n']
            + text::joined_lines(others.map_values(show)));
    }
}

} // verus!

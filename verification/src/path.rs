//! Paths as Unix systems have them: bytes, with `/` between the pieces.
//!
//! Empty pieces and `.` pieces say nothing: `a//b/./` names what `a/b` names.

use crate::text;
use vstd::prelude::*;
use vstd::slice::*;
use vstd::string::*;
use vstd::utf8::*;

verus! {

broadcast use vstd::string::group_string_axioms;

/// The byte between two pieces of a path.
pub const SLASH: u8 = 47;

/// The byte of a full stop.
pub const DOT: u8 = 46;

/// The piece that names the directory itself.
pub open spec fn dot() -> Seq<u8> {
    seq![DOT]
}

/// The piece that names the parent of a directory.
pub open spec fn dot_dot() -> Seq<u8> {
    seq![DOT, DOT]
}

/// Where the text behind the last slash of `p` starts.
pub open spec fn piece_start(p: Seq<u8>) -> int
    decreases p.len(),
{
    if p.len() == 0 || p.last() == SLASH {
        p.len() as int
    } else {
        piece_start(p.drop_last())
    }
}

proof fn lemma_piece_start(p: Seq<u8>)
    ensures
        0 <= piece_start(p) <= p.len(),
        piece_start(p) > 0 ==> p[piece_start(p) - 1] == SLASH,
        forall|i: int| piece_start(p) <= i < p.len() ==> p[i] != SLASH,
    decreases p.len(),
{
    if !(p.len() == 0 || p.last() == SLASH) {
        lemma_piece_start(p.drop_last());
        assert forall|i: int| piece_start(p) <= i < p.len() implies p[i] != SLASH by {
            if i < p.len() - 1 {
                assert(p.drop_last()[i] == p[i]);
            }
        }
    }
}

/// The last piece of `p` that is neither empty nor `.`, or else the first piece
/// of `p`.
pub open spec fn final_piece(p: Seq<u8>) -> Seq<u8>
    decreases p.len(),
    via final_piece_decreases
{
    let start = piece_start(p);
    let piece = p.skip(start);
    if (piece.len() == 0 || piece == dot()) && start > 0 {
        final_piece(p.take(start - 1))
    } else {
        piece
    }
}

#[via_fn]
proof fn final_piece_decreases(p: Seq<u8>) {
    lemma_piece_start(p);
}

/// The name of the file or directory that `p` leads to. There is none where `p`
/// is empty, has no piece, or ends in `.` alone or in `..`.
pub open spec fn file_name_of(p: Seq<u8>) -> Option<Seq<u8>> {
    let piece = final_piece(p);
    if piece.len() == 0 || piece == dot() || piece == dot_dot() {
        None
    } else {
        Some(piece)
    }
}

/// Whether `p` has a piece that can be taken off it.
pub open spec fn has_parent_of(p: Seq<u8>) -> bool {
    final_piece(p).len() > 0
}

/// `part` seen from the directory `base`.
pub open spec fn joined_path(base: Seq<u8>, part: Seq<u8>) -> Seq<u8> {
    if part.len() > 0 && part[0] == SLASH {
        part
    } else if base.len() == 0 || base.last() == SLASH {
        base + part
    } else {
        base.push(SLASH) + part
    }
}

fn find_final_piece(p: &[u8]) -> (range: (usize, usize))
    ensures
        range.0 <= range.1 <= p@.len(),
        p@.subrange(range.0 as int, range.1 as int) == final_piece(p@),
{
    let mut end: usize = p.len();
    assert(p@.take(end as int) == p@);
    loop
        invariant
            end <= p@.len(),
            final_piece(p@.take(end as int)) == final_piece(p@),
        decreases end,
    {
        let ghost whole = p@.take(end as int);
        let mut start: usize = end;
        while start > 0 && p[start - 1] != SLASH
            invariant
                start <= end <= p@.len(),
                whole == p@.take(end as int),
                piece_start(p@.take(start as int)) == piece_start(whole),
            decreases start,
        {
            assert(p@.take(start as int).drop_last() == p@.take(start - 1));
            start -= 1;
        }
        assert(piece_start(whole) == start);
        assert(whole.skip(start as int) == p@.subrange(start as int, end as int));
        let empty = start == end;
        let single = end - start == 1 && p[start] == DOT;
        assert(single == (whole.skip(start as int) == dot())) by {
            if single {
                assert(whole.skip(start as int) =~= dot());
            } else if whole.skip(start as int) == dot() {
                assert(whole.skip(start as int).len() == 1);
                assert(whole.skip(start as int)[0] == p@[start as int]);
            }
        }
        if (empty || single) && start > 0 {
            assert(whole.take(start - 1) == p@.take(start - 1));
            end = start - 1;
        } else {
            return (start, end);
        }
    }
}

/// The name of the file or directory that `p` leads to.
pub fn file_name(p: &[u8]) -> (name: Option<Vec<u8>>)
    ensures
        name is Some <==> file_name_of(p@) is Some,
        name matches Some(n) ==> file_name_of(p@) == Some(n@),
{
    let (start, end) = find_final_piece(p);
    let ghost piece = final_piece(p@);
    let len: usize = end - start;
    if len == 0 || (len == 1 && p[start] == DOT) || (len == 2 && p[start] == DOT && p[start + 1]
        == DOT) {
        assert(len == 1 ==> piece =~= dot());
        assert(len == 2 ==> piece =~= dot_dot());
        None
    } else {
        assert(len == 1 ==> piece[0] == p@[start as int]);
        assert(len == 2 ==> piece[0] == p@[start as int] && piece[1] == p@[start + 1]);
        Some(slice_to_vec(slice_subrange(p, start, end)))
    }
}

/// Whether `p` has a piece that can be taken off it.
pub fn has_parent(p: &[u8]) -> (r: bool)
    ensures
        r == has_parent_of(p@),
{
    let (start, end) = find_final_piece(p);
    start < end
}

/// `part` seen from the directory `base`.
pub fn join(base: &[u8], part: &[u8]) -> (path: Vec<u8>)
    ensures
        path@ == joined_path(base@, part@),
{
    if part.len() > 0 && part[0] == SLASH {
        return slice_to_vec(part);
    }
    let mut path = slice_to_vec(base);
    if base.len() > 0 && base[base.len() - 1] != SLASH {
        path.push(SLASH);
    }
    let mut rest = slice_to_vec(part);
    path.append(&mut rest);
    path
}

/// Where the last full stop of `name` stands, or -1.
pub open spec fn last_dot(name: Seq<u8>) -> int
    decreases name.len(),
{
    if name.len() == 0 {
        -1
    } else if name.last() == DOT {
        name.len() - 1
    } else {
        last_dot(name.drop_last())
    }
}

proof fn lemma_last_dot(name: Seq<u8>)
    ensures
        -1 <= last_dot(name) < name.len(),
    decreases name.len(),
{
    if name.len() > 0 && name.last() != DOT {
        lemma_last_dot(name.drop_last());
    }
}

/// The name without its extension.
pub open spec fn stem_of(name: Seq<u8>) -> Seq<u8> {
    if last_dot(name) <= 0 || name == dot_dot() {
        name
    } else {
        name.take(last_dot(name))
    }
}

/// What stands behind the last full stop of the name. A name that has its only
/// full stop in front has no extension.
pub open spec fn extension_of(name: Seq<u8>) -> Option<Seq<u8>> {
    if last_dot(name) <= 0 || name == dot_dot() {
        None
    } else {
        Some(name.skip(last_dot(name) + 1))
    }
}

/// Splits a name into its stem and its extension.
pub fn split_name(name: &[u8]) -> (parts: (Vec<u8>, Option<Vec<u8>>))
    ensures
        parts.0@ == stem_of(name@),
        parts.1 is Some <==> extension_of(name@) is Some,
        parts.1 matches Some(e) ==> extension_of(name@) == Some(e@),
{
    let mut end: usize = name.len();
    assert(name@.take(end as int) == name@);
    while end > 0 && name[end - 1] != DOT
        invariant
            end <= name@.len(),
            last_dot(name@.take(end as int)) == last_dot(name@),
        decreases end,
    {
        assert(name@.take(end as int).drop_last() == name@.take(end - 1));
        end -= 1;
    }
    assert(last_dot(name@) == end - 1);
    let parent = name.len() == 2 && name[0] == DOT && name[1] == DOT;
    assert(parent == (name@ == dot_dot())) by {
        if parent {
            assert(name@ =~= dot_dot());
        }
    }
    if end <= 1 || parent {
        (slice_to_vec(name), None)
    } else {
        assert(name@.skip(end as int) == name@.subrange(end as int, name@.len() as int));
        (
            slice_to_vec(slice_subrange(name, 0, end - 1)),
            Some(slice_to_vec(slice_subrange(name, end, name.len()))),
        )
    }
}

/// The name that `p` leads to as text: `None` where there is no name, or where
/// it is not UTF-8.
pub open spec fn name_text_of(p: Seq<u8>) -> Option<Seq<char>> {
    match file_name_of(p) {
        Some(n) => if valid_utf8(n) {
            Some(decode_utf8(n))
        } else {
            None
        },
        None => None,
    }
}

/// The name that `p` leads to as text, or `fallback`.
pub open spec fn label_of(p: Seq<u8>, fallback: Seq<char>) -> Seq<char> {
    match name_text_of(p) {
        Some(t) => t,
        None => fallback,
    }
}

/// The name that `p` leads to as text, or `fallback`.
pub fn label(p: &[u8], fallback: &str) -> (text: String)
    ensures
        text@ == label_of(p@, fallback@),
{
    match file_name(p) {
        None => fallback.to_owned(),
        Some(n) => match text::text_from_utf8(n) {
            Some(t) => t,
            None => fallback.to_owned(),
        },
    }
}

/// The text that `String::from_utf8_lossy` makes of `bytes`.
pub uninterp spec fn lossy_text_of(bytes: Seq<u8>) -> Seq<char>;

/// `String::from_utf8_lossy`: a function of the bytes, which decodes them where
/// they are UTF-8.
#[verifier::external_body]
pub(crate) fn lossy_text(bytes: &[u8]) -> (text: String)
    ensures
        text@ == lossy_text_of(bytes@),
        valid_utf8(bytes@) ==> text@ == decode_utf8(bytes@),
{
    String::from_utf8_lossy(bytes).into_owned()
}

// ---------------------------------------------------------------------------
// Laws
// ---------------------------------------------------------------------------

/// Whether `n` can stand in a directory listing: not empty, without a slash,
/// and neither `.` nor `..`.
pub open spec fn is_plain_name(n: Seq<u8>) -> bool {
    &&& n.len() > 0
    &&& n != dot()
    &&& n != dot_dot()
    &&& forall|i: int| 0 <= i < n.len() ==> n[i] != SLASH
}

/// A file name is always a plain name: whatever path a name is taken from, it
/// leads nowhere but into the directory that it is put in.
pub proof fn law_file_name_is_plain(p: Seq<u8>)
    ensures
        file_name_of(p) matches Some(n) ==> is_plain_name(n),
{
    lemma_final_piece_has_no_slash(p);
}

proof fn lemma_final_piece_has_no_slash(p: Seq<u8>)
    ensures
        forall|i: int| 0 <= i < final_piece(p).len() ==> final_piece(p)[i] != SLASH,
    decreases p.len(),
{
    lemma_piece_start(p);
    let start = piece_start(p);
    let piece = p.skip(start);
    if (piece.len() == 0 || piece == dot()) && start > 0 {
        lemma_final_piece_has_no_slash(p.take(start - 1));
        assert(final_piece(p) == final_piece(p.take(start - 1)));
    } else {
        assert forall|i: int| 0 <= i < final_piece(p).len() implies final_piece(p)[i] != SLASH by {
            assert(final_piece(p)[i] == p[start + i]);
        }
    }
}

proof fn lemma_piece_start_behind_slash(base: Seq<u8>, n: Seq<u8>)
    requires
        base.len() == 0 || base.last() == SLASH,
        forall|i: int| 0 <= i < n.len() ==> n[i] != SLASH,
    ensures
        piece_start(base + n) == base.len(),
    decreases n.len(),
{
    if n.len() == 0 {
        assert(base + n == base);
    } else {
        assert((base + n).drop_last() == base + n.drop_last());
        assert((base + n).last() == n.last());
        lemma_piece_start_behind_slash(base, n.drop_last());
    }
}

/// A plain name put in a directory is the file name of the path that results.
pub proof fn law_join_keeps_file_name(base: Seq<u8>, n: Seq<u8>)
    requires
        is_plain_name(n),
    ensures
        file_name_of(joined_path(base, n)) == Some(n),
        base.len() == 0 || base.last() == SLASH ==> joined_path(base, n) == base + n,
        base.len() > 0 && base.last() != SLASH ==> joined_path(base, n) == base.push(SLASH) + n,
{
    let head = if base.len() == 0 || base.last() == SLASH {
        base
    } else {
        base.push(SLASH)
    };
    assert(joined_path(base, n) == head + n);
    lemma_piece_start_behind_slash(head, n);
    assert((head + n).skip(head.len() as int) == n);
}

/// The path that leads up from a directory has no file name.
pub proof fn law_parent_entry_has_no_name(base: Seq<u8>)
    ensures
        file_name_of(joined_path(base, dot_dot())) is None,
{
    let head = if base.len() == 0 || base.last() == SLASH {
        base
    } else {
        base.push(SLASH)
    };
    assert(joined_path(base, dot_dot()) == head + dot_dot());
    lemma_piece_start_behind_slash(head, dot_dot());
    assert((head + dot_dot()).skip(head.len() as int) == dot_dot());
}

/// A name is its stem, and where it has an extension a full stop and that.
pub proof fn law_stem_and_extension(n: Seq<u8>)
    ensures
        n == (match extension_of(n) {
            Some(e) => stem_of(n).push(DOT) + e,
            None => stem_of(n),
        }),
        n.len() > 0 ==> stem_of(n).len() > 0,
{
    lemma_last_dot(n);
    lemma_last_dot_is_dot(n);
    if extension_of(n) is Some {
        let d = last_dot(n);
        assert(n =~= n.take(d).push(DOT) + n.skip(d + 1));
    }
}

proof fn lemma_last_dot_is_dot(name: Seq<u8>)
    ensures
        last_dot(name) >= 0 ==> name[last_dot(name)] == DOT,
    decreases name.len(),
{
    if name.len() > 0 && name.last() != DOT {
        lemma_last_dot_is_dot(name.drop_last());
        lemma_last_dot(name.drop_last());
    }
}

/// The last piece of a path decides its name and whether it has a parent: a piece
/// without a slash, other than `.`, at the start of a path or behind a slash. It is
/// the name, unless it is `..`, which is none; and it can be taken off.
pub proof fn law_last_piece_decides(base: Seq<u8>, piece: Seq<u8>)
    requires
        base.len() == 0 || base[base.len() - 1] == 47,
        piece.len() > 0,
        piece != seq![46u8],
        forall|i: int| 0 <= i < piece.len() ==> #[trigger] piece[i] != 47,
    ensures
        piece != seq![46u8, 46u8] ==> file_name_of(base + piece) == Some(piece),
        piece == seq![46u8, 46u8] ==> file_name_of(base + piece) is None,
        has_parent_of(base + piece),
{
    lemma_piece_start_behind_slash(base, piece);
    assert((base + piece).skip(base.len() as int) =~= piece);
}

/// A slash at the end of a path, and a `.` behind such a slash, change neither the
/// name nor whether there is a parent.
pub proof fn law_trailing_slashes_say_nothing(p: Seq<u8>)
    ensures
        file_name_of(p + seq![47u8]) == file_name_of(p),
        has_parent_of(p + seq![47u8]) == has_parent_of(p),
        file_name_of(p + seq![47u8, 46u8]) == file_name_of(p),
        has_parent_of(p + seq![47u8, 46u8]) == has_parent_of(p),
{
    let slashed = p + seq![47u8];
    let none = Seq::<u8>::empty();
    assert(slashed + none =~= slashed);
    lemma_piece_start_behind_slash(slashed, none);
    assert(slashed.skip(slashed.len() as int) =~= none);
    assert(slashed.take(slashed.len() - 1) =~= p);
    assert(final_piece(slashed) == final_piece(p));
    let dotted = p + seq![47u8, 46u8];
    assert(dotted =~= slashed + dot());
    lemma_piece_start_behind_slash(slashed, dot());
    assert(dotted.skip(slashed.len() as int) =~= dot());
    assert(dotted.take(slashed.len() - 1) =~= p);
    assert(final_piece(dotted) == final_piece(p));
}

/// The empty path and `.` have no name; only the second has a parent.
pub proof fn law_paths_without_pieces()
    ensures
        file_name_of(Seq::empty()) is None,
        !has_parent_of(Seq::empty()),
        file_name_of(seq![46u8]) is None,
        has_parent_of(seq![46u8]),
{
    let none = Seq::<u8>::empty();
    assert(none.skip(0) =~= none);
    lemma_piece_start_behind_slash(none, dot());
    assert(none + dot() =~= dot());
    assert(dot().skip(0) =~= dot());
    assert(seq![46u8] =~= dot());
}

/// A part that starts with a slash stands for itself; any other is put behind the
/// base, with one slash between unless the base is empty or ends with one.
pub proof fn law_join_puts_part_behind_base(base: Seq<u8>, part: Seq<u8>)
    ensures
        part.len() > 0 && part[0] == 47 ==> joined_path(base, part) == part,
        (part.len() == 0 || part[0] != 47) && (base.len() == 0 || base[base.len() - 1] == 47)
            ==> joined_path(base, part) == base + part,
        (part.len() == 0 || part[0] != 47) && base.len() > 0 && base[base.len() - 1] != 47
            ==> joined_path(base, part) == base + seq![47u8] + part,
{
    assert(base.push(SLASH) + part =~= base + seq![47u8] + part);
}

proof fn lemma_last_dot_at(name: Seq<u8>, at: int)
    requires
        0 <= at < name.len(),
        name[at] == 46,
        forall|i: int| at < i < name.len() ==> #[trigger] name[i] != 46,
    ensures
        last_dot(name) == at,
    decreases name.len(),
{
    if at < name.len() - 1 {
        assert(name[name.len() - 1] != 46);
        let front = name.drop_last();
        assert forall|i: int| at < i < front.len() implies #[trigger] front[i] != 46 by {
            assert(front[i] == name[i]);
        }
        lemma_last_dot_at(front, at);
    }
}

proof fn lemma_no_dot(name: Seq<u8>)
    requires
        forall|i: int| 0 <= i < name.len() ==> #[trigger] name[i] != 46,
    ensures
        last_dot(name) == -1,
    decreases name.len(),
{
    if name.len() > 0 {
        let front = name.drop_last();
        assert(name[name.len() - 1] != 46);
        assert forall|i: int| 0 <= i < front.len() implies #[trigger] front[i] != 46 by {
            assert(front[i] == name[i]);
        }
        lemma_no_dot(front);
    }
}

/// The last full stop of a name, where it is not its first byte, parts the name: the
/// stem stands before it and the extension behind it.
pub proof fn law_last_full_stop_parts_name(name: Seq<u8>, at: int)
    requires
        0 < at < name.len(),
        name[at] == 46,
        forall|i: int| at < i < name.len() ==> #[trigger] name[i] != 46,
        name != seq![46u8, 46u8],
    ensures
        stem_of(name) == name.take(at),
        extension_of(name) == Some(name.skip(at + 1)),
{
    lemma_last_dot_at(name, at);
}

/// A name with no full stop but at its front, and `..`, is all stem.
pub proof fn law_name_without_inner_full_stop_is_stem(name: Seq<u8>)
    requires
        name == seq![46u8, 46u8] || forall|i: int| 0 < i < name.len() ==> #[trigger] name[i] != 46,
    ensures
        stem_of(name) == name,
        extension_of(name) is None,
{
    if name != seq![46u8, 46u8] {
        if name.len() > 0 && name[0] == 46 {
            lemma_last_dot_at(name, 0);
        } else {
            lemma_no_dot(name);
        }
    } else {
        assert(name =~= dot_dot());
    }
}

/// A label is the text of the file name where there is one and it is UTF-8, and the
/// fallback only where there is none.
pub proof fn law_label_is_name(p: Seq<u8>, name: Seq<char>, fallback: Seq<char>)
    ensures
        file_name_of(p) == Some(encode_utf8(name)) ==> label_of(p, fallback) == name,
        file_name_of(p) is None ==> label_of(p, fallback) == fallback,
        (file_name_of(p) matches Some(n) && !valid_utf8(n)) ==> label_of(p, fallback) == fallback,
{
    encode_utf8_valid_utf8(name);
    encode_utf8_decode_utf8(name);
}

} // verus!

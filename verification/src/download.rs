//! Where received files are put: in one directory under the user's home, each
//! under a name that no other file there has.

use crate::clock;
use crate::path;
use crate::text;
use vstd::prelude::*;
use vstd::slice::*;
use vstd::string::*;
use vstd::utf8::*;

verus! {

broadcast use vstd::string::group_string_axioms;

/// The directory for received files, below the user's downloads.
pub const DOWNLOAD_DIR: &'static str = "LAN-Terminal-Chat";

/// How many names are tried before the time is put in front of one.
pub const NAME_TRIES: u64 = 10_000;

/// The home directory: `HOME` where it is set, else `USERPROFILE`, else the
/// current directory.
pub open spec fn home_dir_of(home: Option<Seq<u8>>, profile: Option<Seq<u8>>) -> Seq<u8> {
    match (home, profile) {
        (Some(h), _) => h,
        (None, Some(p)) => p,
        (None, None) => path::dot(),
    }
}

/// What an optional vector holds.
pub open spec fn opt_view(v: Option<Vec<u8>>) -> Option<Seq<u8>> {
    match v {
        Some(x) => Some(x@),
        None => None,
    }
}

/// The home directory, where `home` and `profile` are the values of the
/// variables `HOME` and `USERPROFILE`.
pub fn home_dir(home: Option<Vec<u8>>, profile: Option<Vec<u8>>) -> (dir: Vec<u8>)
    ensures
        dir@ == home_dir_of(opt_view(home), opt_view(profile)),
{
    match home {
        Some(h) => h,
        None => match profile {
            Some(p) => p,
            None => {
                let mut here: Vec<u8> = Vec::new();
                here.push(path::DOT);
                assert(here@ =~= path::dot());
                here
            },
        },
    }
}

/// The directory for received files of the user at `home`.
pub open spec fn download_dir_of(home: Seq<u8>) -> Seq<u8> {
    path::joined_path(
        path::joined_path(home, encode_utf8("Downloads"@)),
        encode_utf8(DOWNLOAD_DIR@),
    )
}

/// The directory for received files of the user at `home`.
pub fn download_dir(home: &[u8]) -> (dir: Vec<u8>)
    ensures
        dir@ == download_dir_of(home@),
{
    let downloads = path::join(home, "Downloads".as_bytes());
    path::join(downloads.as_slice(), DOWNLOAD_DIR.as_bytes())
}

/// The name under which a file that was sent as `sent` is stored: the last
/// piece of what was sent, or `file.bin`.
pub open spec fn stored_name(sent: Seq<char>) -> Seq<u8> {
    match path::file_name_of(encode_utf8(sent)) {
        Some(n) => n,
        None => encode_utf8("file.bin"@),
    }
}

/// `name` with a number behind its stem, as in `file (1).pdf`.
pub open spec fn numbered_name(name: Seq<u8>, number: nat) -> Seq<u8> {
    let numbered = path::stem_of(name) + encode_utf8(" ("@ + text::decimal_of(number) + ")"@);
    match path::extension_of(name) {
        Some(e) => numbered.push(path::DOT) + e,
        None => numbered,
    }
}

/// `name` with a time in front of it.
pub open spec fn timed_name(name: Seq<u8>, now: nat) -> Seq<u8> {
    encode_utf8(text::decimal_of(now) + "-"@) + name
}

/// The path that is tried at attempt `k` for a file stored as `name`.
pub open spec fn candidate(dir: Seq<u8>, name: Seq<u8>, k: nat) -> Seq<u8> {
    path::joined_path(
        dir,
        if k == 0 {
            name
        } else {
            numbered_name(name, k)
        },
    )
}

/// Whether `taken` answered `answer` for the path `p`.
pub open spec fn answered<F: Fn(&Vec<u8>) -> bool>(taken: F, p: Seq<u8>, answer: bool) -> bool {
    exists|v: Vec<u8>| #[trigger] v@ == p && taken.ensures((&v,), answer)
}

/// The name under which a file that was sent as `sent` is stored.
pub fn stored_name_for(sent: &str) -> (name: Vec<u8>)
    ensures
        name@ == stored_name(sent@),
{
    match path::file_name(sent.as_bytes()) {
        Some(n) => n,
        None => slice_to_vec("file.bin".as_bytes()),
    }
}

/// Appends `tail` to `bytes`.
fn extend(bytes: &mut Vec<u8>, tail: &[u8])
    ensures
        final(bytes)@ == old(bytes)@ + tail@,
{
    let mut more = slice_to_vec(tail);
    bytes.append(&mut more);
}

/// The path that is tried at attempt `k` for a file stored as `name`.
pub fn candidate_path(dir: &[u8], name: &[u8], k: u64) -> (p: Vec<u8>)
    ensures
        p@ == candidate(dir@, name@, k as nat),
{
    if k == 0 {
        return path::join(dir, name);
    }
    let (stem, extension) = path::split_name(name);
    let mut number = " (".to_owned();
    text::push_decimal(&mut number, k);
    number.append(")");
    let mut numbered = stem;
    extend(&mut numbered, number.as_str().as_bytes());
    if let Some(e) = extension {
        numbered.push(path::DOT);
        extend(&mut numbered, e.as_slice());
    }
    assert(numbered@ == numbered_name(name@, k as nat));
    path::join(dir, numbered.as_slice())
}

/// The path for a file stored as `name` once every numbered name is taken.
pub fn timed_path(dir: &[u8], name: &[u8], now: u64) -> (p: Vec<u8>)
    ensures
        p@ == path::joined_path(dir@, timed_name(name@, now as nat)),
{
    let mut time = String::new();
    text::push_decimal(&mut time, now);
    time.append("-");
    assert(time@ == text::decimal_of(now as nat) + "-"@);
    let mut timed = slice_to_vec(time.as_str().as_bytes());
    extend(&mut timed, name);
    path::join(dir, timed.as_slice())
}

/// Whether `p` is where a file that was sent as `sent` is put in `dir`, by what
/// `taken` answered: the first candidate that is free; or, where all are taken,
/// the path of a name with the seconds since the epoch in front.
pub open spec fn is_download_path<F: Fn(&Vec<u8>) -> bool>(
    dir: Seq<u8>,
    sent: Seq<char>,
    taken: F,
    p: Seq<u8>,
) -> bool {
    let name = stored_name(sent);
    ||| exists|k: nat|
        k < NAME_TRIES && p == #[trigger] candidate(dir, name, k) && answered(taken, p, false)
            && all_taken(dir, name, taken, k)
    ||| (exists|now: u64|
        p == path::joined_path(dir, #[trigger] timed_name(name, now as nat))) && all_taken(
        dir,
        name,
        taken,
        NAME_TRIES as nat,
    )
}

/// Whether `taken` answered that each of the first `k` candidates is taken.
pub open spec fn all_taken<F: Fn(&Vec<u8>) -> bool>(
    dir: Seq<u8>,
    name: Seq<u8>,
    taken: F,
    k: nat,
) -> bool {
    forall|j: nat| j < k ==> answered(taken, #[trigger] candidate(dir, name, j), true)
}

/// A path for a file that was sent as `sent` to the user at `home`: the first of
/// the candidates in the download directory that `taken` says is free, so that no
/// file is overwritten. Where all are taken, the seconds since the epoch make the
/// name.
pub fn unique_download_path<F: Fn(&Vec<u8>) -> bool>(home: &[u8], sent: &str, taken: F) -> (p: Vec<
    u8,
>)
    requires
        forall|v: &Vec<u8>| #[trigger] taken.requires((v,)),
    ensures
        is_download_path(download_dir_of(home@), sent@, taken, p@),
{
    let dir = download_dir(home);
    let name = stored_name_for(sent);
    let mut k: u64 = 0;
    while k < NAME_TRIES
        invariant
            k <= NAME_TRIES,
            dir@ == download_dir_of(home@),
            name@ == stored_name(sent@),
            forall|v: &Vec<u8>| #[trigger] taken.requires((v,)),
            all_taken(dir@, name@, taken, k as nat),
        decreases NAME_TRIES - k,
    {
        let p = candidate_path(dir.as_slice(), name.as_slice(), k);
        let is_taken = taken(&p);
        assert(answered(taken, p@, is_taken));
        if !is_taken {
            assert(p@ == candidate(dir@, stored_name(sent@), k as nat));
            return p;
        }
        k += 1;
    }
    let now = clock::now();
    let p = timed_path(dir.as_slice(), name.as_slice(), now);
    assert(p@ == path::joined_path(dir@, timed_name(stored_name(sent@), now as nat)));
    p
}

// ---------------------------------------------------------------------------
// Laws
// ---------------------------------------------------------------------------

proof fn lemma_ascii_bytes(s: Seq<char>)
    requires
        is_ascii_chars(s),
    ensures
        encode_utf8(s).len() == s.len(),
        forall|i: int| 0 <= i < s.len() ==> encode_utf8(s)[i] == s[i] as u8,
{
    is_ascii_chars_encode_utf8(s);
}

proof fn lemma_decimal_is_digits(n: nat)
    ensures
        text::decimal_of(n).len() > 0,
        forall|i: int|
            0 <= i < text::decimal_of(n).len() ==> '0' <= #[trigger] text::decimal_of(n)[i]
                <= '9',
    decreases n,
{
    if n >= 10 {
        lemma_decimal_is_digits(n / 10);
    }
}

/// Whatever a file was sent as, it is stored under a plain name.
pub proof fn law_stored_name_is_plain(sent: Seq<char>)
    ensures
        path::is_plain_name(stored_name(sent)),
{
    path::law_file_name_is_plain(encode_utf8(sent));
    reveal_strlit("file.bin");
    lemma_ascii_bytes("file.bin"@);
    assert(encode_utf8("file.bin"@)[0] == 102);
    assert(forall|i: int| 0 <= i < 8 ==> "file.bin"@[i] != '/');
}

/// A received file is put directly into the download directory, whatever it was
/// sent as: its path is that directory and one plain name.
pub proof fn law_download_stays_in_directory<F: Fn(&Vec<u8>) -> bool>(
    dir: Seq<u8>,
    sent: Seq<char>,
    taken: F,
    p: Seq<u8>,
)
    requires
        is_download_path(dir, sent, taken, p),
    ensures
        exists|n: Seq<u8>|
            #[trigger] path::is_plain_name(n) && p == path::joined_path(dir, n)
                && path::file_name_of(p) == Some(n),
{
    let name = stored_name(sent);
    law_stored_name_is_plain(sent);
    if exists|k: nat| k < NAME_TRIES && p == #[trigger] candidate(dir, name, k) {
        let k = choose|k: nat| k < NAME_TRIES && p == #[trigger] candidate(dir, name, k);
        let n = if k == 0 {
            name
        } else {
            numbered_name(name, k)
        };
        lemma_numbered_is_plain(name, k);
        path::law_join_keeps_file_name(dir, n);
        assert(path::is_plain_name(n));
    } else {
        let now = choose|now: u64|
            p == path::joined_path(dir, #[trigger] timed_name(name, now as nat));
        lemma_timed_is_plain(name, now as nat);
        path::law_join_keeps_file_name(dir, timed_name(name, now as nat));
        assert(path::is_plain_name(timed_name(name, now as nat)));
    }
}

/// No file is overwritten: as long as not every candidate is taken, a received
/// file is put where `taken` said that nothing is.
pub proof fn law_download_overwrites_nothing<F: Fn(&Vec<u8>) -> bool>(
    dir: Seq<u8>,
    sent: Seq<char>,
    taken: F,
    p: Seq<u8>,
    k: nat,
)
    requires
        is_download_path(dir, sent, taken, p),
        k < NAME_TRIES,
        !answered(taken, candidate(dir, stored_name(sent), k), true),
    ensures
        answered(taken, p, false),
{
}

proof fn lemma_numbered_is_plain(name: Seq<u8>, k: nat)
    requires
        path::is_plain_name(name),
    ensures
        path::is_plain_name(numbered_name(name, k)),
{
    let label = " ("@ + text::decimal_of(k) + ")"@;
    reveal_strlit(" (");
    reveal_strlit(")");
    lemma_decimal_is_digits(k);
    assert(is_ascii_chars(label)) by {
        assert forall|i: int| 0 <= i < label.len() implies '\0' <= #[trigger] label[i]
            <= '\u{7f}' by {
            if 2 <= i < label.len() - 1 {
                assert(label[i] == text::decimal_of(k)[i - 2]);
            }
        }
    }
    lemma_ascii_bytes(label);
    path::law_stem_and_extension(name);
    let numbered = path::stem_of(name) + encode_utf8(label);
    let whole = numbered_name(name, k);
    assert forall|i: int| 0 <= i < whole.len() implies whole[i] != path::SLASH by {
        let s = path::stem_of(name).len() as int;
        if i < s {
            assert(whole[i] == path::stem_of(name)[i]);
            assert(path::stem_of(name)[i] == name[i]);
        } else if i < numbered.len() {
            assert(whole[i] == encode_utf8(label)[i - s]);
            assert(whole[i] == label[i - s] as u8);
            if 2 <= i - s < label.len() - 1 {
                assert(label[i - s] == text::decimal_of(k)[i - s - 2]);
            }
        } else if i > numbered.len() {
            let e = path::extension_of(name)->0;
            let j = i - numbered.len() - 1;
            assert(whole[i] == e[j]);
            assert(name[s + 1 + j] == e[j]);
        }
    }
    assert(whole.len() >= 4);
}

proof fn lemma_timed_is_plain(name: Seq<u8>, now: nat)
    requires
        path::is_plain_name(name),
    ensures
        path::is_plain_name(timed_name(name, now)),
{
    let label = text::decimal_of(now) + "-"@;
    reveal_strlit("-");
    lemma_decimal_is_digits(now);
    assert(is_ascii_chars(label)) by {
        assert forall|i: int| 0 <= i < label.len() implies '\0' <= #[trigger] label[i]
            <= '\u{7f}' by {
            if i < label.len() - 1 {
                assert(label[i] == text::decimal_of(now)[i]);
            }
        }
    }
    lemma_ascii_bytes(label);
    let whole = timed_name(name, now);
    assert forall|i: int| 0 <= i < whole.len() implies whole[i] != path::SLASH by {
        let s = label.len() as int;
        if i < s {
            assert(whole[i] == label[i] as u8);
            if i < s - 1 {
                assert(label[i] == text::decimal_of(now)[i]);
            }
        } else {
            assert(whole[i] == name[i - s]);
        }
    }
    assert(whole[0] == label[0] as u8);
    assert(label[0] == text::decimal_of(now)[0]);
}

proof fn lemma_decimal_is_injective(m: nat, n: nat)
    requires
        text::decimal_of(m) == text::decimal_of(n),
    ensures
        m == n,
    decreases m,
{
    let a = text::decimal_of(m);
    let b = text::decimal_of(n);
    assert(a.last() == text::digit(m % 10));
    assert(b.last() == text::digit(n % 10));
    assert(m % 10 == n % 10);
    if m >= 10 && n >= 10 {
        assert(a.drop_last() =~= text::decimal_of(m / 10));
        assert(b.drop_last() =~= text::decimal_of(n / 10));
        lemma_decimal_is_injective(m / 10, n / 10);
    } else if m >= 10 {
        lemma_decimal_is_digits(m / 10);
    } else if n >= 10 {
        lemma_decimal_is_digits(n / 10);
    }
}

proof fn lemma_numbered_is_injective(name: Seq<u8>, j: nat, k: nat)
    requires
        numbered_name(name, j) == numbered_name(name, k),
    ensures
        j == k,
{
    let stem = path::stem_of(name);
    let a = " ("@ + text::decimal_of(j) + ")"@;
    let b = " ("@ + text::decimal_of(k) + ")"@;
    let x = numbered_name(name, j);
    let y = numbered_name(name, k);
    let from = stem.len() as int;
    let tail: int = match path::extension_of(name) {
        Some(e) => 1 + e.len() as int,
        None => 0,
    };
    assert(x.subrange(from, x.len() - tail) =~= encode_utf8(a));
    assert(y.subrange(from, y.len() - tail) =~= encode_utf8(b));
    encode_utf8_decode_utf8(a);
    encode_utf8_decode_utf8(b);
    assert(a == b);
    reveal_strlit(" (");
    reveal_strlit(")");
    assert(a.subrange(2, a.len() - 1) =~= text::decimal_of(j));
    assert(b.subrange(2, b.len() - 1) =~= text::decimal_of(k));
    lemma_decimal_is_injective(j, k);
}

proof fn lemma_numbered_is_longer(name: Seq<u8>, k: nat)
    ensures
        numbered_name(name, k).len() > name.len(),
{
    let label = " ("@ + text::decimal_of(k) + ")"@;
    reveal_strlit(" (");
    reveal_strlit(")");
    path::law_stem_and_extension(name);
    assert(label.len() > 0);
    if encode_utf8(label).len() == 0 {
        encode_utf8_decode_utf8(label);
        encode_utf8_decode_utf8(Seq::<char>::empty());
        assert(encode_utf8(Seq::<char>::empty()) =~= Seq::<u8>::empty());
        assert(encode_utf8(label) =~= encode_utf8(Seq::<char>::empty()));
    }
}

/// Every attempt tries another path: files that are sent under one name never
/// come to share a path while numbers are left.
pub proof fn law_candidates_differ(dir: Seq<u8>, sent: Seq<char>, j: nat, k: nat)
    requires
        j != k,
    ensures
        candidate(dir, stored_name(sent), j) != candidate(dir, stored_name(sent), k),
{
    let name = stored_name(sent);
    let x = if j == 0 {
        name
    } else {
        numbered_name(name, j)
    };
    let y = if k == 0 {
        name
    } else {
        numbered_name(name, k)
    };
    law_stored_name_is_plain(sent);
    lemma_numbered_is_plain(name, j);
    lemma_numbered_is_plain(name, k);
    path::law_join_keeps_file_name(dir, x);
    path::law_join_keeps_file_name(dir, y);
    if candidate(dir, name, j) == candidate(dir, name, k) {
        assert(x == y);
        lemma_numbered_is_longer(name, j);
        lemma_numbered_is_longer(name, k);
        lemma_numbered_is_injective(name, j, k);
    }
}

/// The number of a later copy goes right before the last full stop of the name, so
/// that what stands behind that full stop is kept. A full stop at the front of a
/// name does not count.
pub proof fn law_number_goes_before_last_full_stop(dir: Seq<u8>, name: Seq<u8>, at: int, k: nat)
    requires
        k > 0,
        0 < at < name.len(),
        name[at] == 46,
        forall|i: int| at < i < name.len() ==> #[trigger] name[i] != 46,
        name != seq![46u8, 46u8],
        path::is_plain_name(name),
    ensures
        ({
            let copy = name.take(at) + encode_utf8(" ("@ + text::decimal_of(k) + ")"@) + name.skip(at);
            &&& candidate(dir, name, k) == path::joined_path(dir, copy)
            &&& path::file_name_of(candidate(dir, name, k)) == Some(copy)
        }),
{
    let label = encode_utf8(" ("@ + text::decimal_of(k) + ")"@);
    let copy = name.take(at) + label + name.skip(at);
    path::law_last_full_stop_parts_name(name, at);
    assert((name.take(at) + label).push(path::DOT) + name.skip(at + 1) =~= copy);
    assert(numbered_name(name, k) == copy);
    lemma_numbered_is_plain(name, k);
    path::law_join_keeps_file_name(dir, copy);
}

/// The number of a later copy goes behind a name that has no full stop but at its
/// front.
pub proof fn law_number_goes_behind_name(dir: Seq<u8>, name: Seq<u8>, k: nat)
    requires
        k > 0,
        forall|i: int| 0 < i < name.len() ==> #[trigger] name[i] != 46,
        path::is_plain_name(name),
    ensures
        ({
            let copy = name + encode_utf8(" ("@ + text::decimal_of(k) + ")"@);
            &&& candidate(dir, name, k) == path::joined_path(dir, copy)
            &&& path::file_name_of(candidate(dir, name, k)) == Some(copy)
        }),
{
    path::law_name_without_inner_full_stop_is_stem(name);
    lemma_numbered_is_plain(name, k);
    path::law_join_keeps_file_name(dir, numbered_name(name, k));
}

/// A received file keeps its name where that is free: it is then put at the download
/// directory and the last piece of what it was sent as.
pub proof fn law_free_name_is_kept<F: Fn(&Vec<u8>) -> bool>(
    dir: Seq<u8>,
    sent: Seq<char>,
    name: Seq<u8>,
    taken: F,
    p: Seq<u8>,
)
    requires
        is_download_path(dir, sent, taken, p),
        path::file_name_of(encode_utf8(sent)) == Some(name),
        !answered(taken, path::joined_path(dir, name), true),
    ensures
        p == path::joined_path(dir, name),
{
    assert(candidate(dir, stored_name(sent), 0) == path::joined_path(dir, name));
}

/// A later copy has the smallest number that is free: where a file is not put under
/// its own name, that name was taken, and so was every copy with a smaller number.
pub proof fn law_smallest_free_number_is_used<F: Fn(&Vec<u8>) -> bool>(
    dir: Seq<u8>,
    sent: Seq<char>,
    taken: F,
    p: Seq<u8>,
    j: nat,
    k: nat,
)
    requires
        is_download_path(dir, sent, taken, p),
        j < k < 10_000,
        p == candidate(dir, stored_name(sent), k),
        forall|now: u64|
            p != path::joined_path(dir, #[trigger] timed_name(stored_name(sent), now as nat)),
    ensures
        answered(taken, candidate(dir, stored_name(sent), j), true),
{
    let name = stored_name(sent);
    let m = choose|m: nat|
        m < NAME_TRIES && p == #[trigger] candidate(dir, name, m) && answered(taken, p, false)
            && all_taken(dir, name, taken, m);
    if m != k {
        law_candidates_differ(dir, sent, m, k);
    }
}

/// A file is stored under the last piece of what it was sent as, and under
/// `file.bin` where there is none.
pub proof fn law_stored_name_is_last_piece(sent: Seq<char>)
    ensures
        path::file_name_of(encode_utf8(sent)) matches Some(n) ==> stored_name(sent) == n,
        path::file_name_of(encode_utf8(sent)) is None ==> stored_name(sent) == encode_utf8(
            "file.bin"@,
        ),
{
}

/// Where all names are taken, the seconds since the epoch and a hyphen go in front.
pub proof fn law_time_goes_in_front(name: Seq<u8>, now: nat)
    ensures
        timed_name(name, now) == encode_utf8(text::decimal_of(now) + "-"@) + name,
        timed_name(name, now).skip(timed_name(name, now).len() - name.len()) == name,
{
    let whole = timed_name(name, now);
    assert(whole.skip(whole.len() - name.len()) =~= name);
}

/// Received files go to `Downloads/LAN-Terminal-Chat` below the home directory.
pub proof fn law_downloads_are_below_home(home: Seq<u8>)
    ensures
        home.len() > 0 && home[home.len() - 1] != 47 ==> download_dir_of(home) == home
            + encode_utf8("/Downloads/LAN-Terminal-Chat"@),
        home.len() == 0 || home[home.len() - 1] == 47 ==> download_dir_of(home) == home
            + encode_utf8("Downloads/LAN-Terminal-Chat"@),
{
    reveal_strlit("Downloads");
    reveal_strlit("LAN-Terminal-Chat");
    reveal_strlit("/Downloads/LAN-Terminal-Chat");
    reveal_strlit("Downloads/LAN-Terminal-Chat");
    let a = "Downloads"@;
    let b = "LAN-Terminal-Chat"@;
    let whole = "/Downloads/LAN-Terminal-Chat"@;
    let short = "Downloads/LAN-Terminal-Chat"@;
    lemma_ascii_bytes(a);
    lemma_ascii_bytes(b);
    lemma_ascii_bytes(whole);
    lemma_ascii_bytes(short);
    let first = path::joined_path(home, encode_utf8(a));
    assert(first.last() == encode_utf8(a).last());
    assert(encode_utf8(a).push(path::SLASH) + encode_utf8(b) =~= encode_utf8(short)) by {
        assert forall|i: int| 0 <= i < short.len() implies (encode_utf8(a).push(path::SLASH)
            + encode_utf8(b))[i] == encode_utf8(short)[i] by {
            assert(encode_utf8(short)[i] == short[i] as u8);
        }
    }
    assert(seq![path::SLASH] + encode_utf8(short) =~= encode_utf8(whole)) by {
        assert forall|i: int| 0 <= i < whole.len() implies (seq![path::SLASH] + encode_utf8(
            short,
        ))[i] == encode_utf8(whole)[i] by {
            assert(encode_utf8(whole)[i] == whole[i] as u8);
        }
    }
    if home.len() > 0 && home[home.len() - 1] != 47 {
        assert(download_dir_of(home) =~= home + (seq![path::SLASH] + (encode_utf8(a).push(
            path::SLASH,
        ) + encode_utf8(b))));
    } else {
        assert(download_dir_of(home) =~= home + (encode_utf8(a).push(path::SLASH) + encode_utf8(
            b,
        )));
    }
}

/// `HOME` comes before `USERPROFILE`, and that before the current directory.
pub proof fn law_home_comes_first(home: Seq<u8>, profile: Option<Seq<u8>>, other: Seq<u8>)
    ensures
        home_dir_of(Some(home), profile) == home,
        home_dir_of(None, Some(other)) == other,
        home_dir_of(None, None) == seq![46u8],
{
}

} // verus!

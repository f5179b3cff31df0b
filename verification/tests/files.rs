use lan_terminal_chat::download::{
    candidate_path, download_dir, home_dir, stored_name_for, timed_path, unique_download_path,
    NAME_TRIES,
};
use lan_terminal_chat::path::{file_name, has_parent, join, label, split_name};
use lan_terminal_chat::peers::{Endpoint, IpAddress, Peer, PeerTable};
use lan_terminal_chat::picker::{load_entries, FileEntry, FilePicker, PickerChoice};
use lan_terminal_chat::protocol::{note_hello, receive, AppEvent, Identity, Packet};
use lan_terminal_chat::transfer::{
    chunk_total, transfer_key, FileSender, IncomingFile, SendError, SendStep, FILE_CHUNK,
};
use lan_terminal_chat::crypto::CryptoError;
use std::path::Path;

fn bytes(text: &str) -> Vec<u8> {
    text.as_bytes().to_vec()
}

fn text(bytes: &[u8]) -> String {
    String::from_utf8(bytes.to_vec()).unwrap()
}

fn entry(path: &str, is_dir: bool) -> FileEntry {
    FileEntry { path: bytes(path), is_dir }
}

fn shown(entries: &[FileEntry]) -> Vec<(String, bool)> {
    entries.iter().map(|e| (text(&e.path), e.is_dir)).collect()
}

const PATHS: [&str; 30] = [
    "", ".", "..", "/", "//", "/.", "./", "./.", "a", "a/", "a/.", "a/./", "a//", "a/..", "../a", "/a",
    "/a/b", "/a/b/", "/a//b", "a/b/./.", "...", ".a", "a.", "a.b.c", "/..", "./..", "..//.", "x/y.txt/..",
    "سلام/فایل.pdf", "/home/user/.bashrc",
];

#[test]
fn names_are_those_of_std_paths() {
    for p in PATHS {
        let expected = Path::new(p).file_name().map(|n| bytes(n.to_str().unwrap()));
        assert_eq!(file_name(p.as_bytes()), expected, "{p:?}");
        assert_eq!(has_parent(p.as_bytes()), Path::new(p).parent().is_some(), "{p:?}");
    }
}

#[test]
fn joined_paths_are_those_of_std_paths() {
    for p in PATHS {
        for q in PATHS {
            let expected = bytes(Path::new(p).join(q).to_str().unwrap());
            assert_eq!(join(p.as_bytes(), q.as_bytes()), expected, "{p:?} {q:?}");
        }
    }
}

#[test]
fn stems_and_extensions_are_those_of_std_paths() {
    for n in ["a", "a.b", "a.b.c", ".a", ".a.b", "a.", "..a", "...", "فایل.pdf", "a..b"] {
        let stem = bytes(Path::new(n).file_stem().unwrap().to_str().unwrap());
        let extension = Path::new(n).extension().map(|e| bytes(e.to_str().unwrap()));
        assert_eq!(split_name(n.as_bytes()), (stem, extension), "{n:?}");
    }
}

#[test]
fn label_is_the_name_as_text() {
    assert_eq!(label(b"/tmp/a.txt", "?"), "a.txt");
    assert_eq!(label(b"/tmp/..", "?"), "?");
    assert_eq!(label(b"/", "file"), "file");
    assert_eq!(label(b"/tmp/\xff", "file.bin"), "file.bin");
}

#[test]
fn plain_name_stays_in_its_directory() {
    for dir in ["", ".", "/", "/home/ali", "/home/ali/"] {
        let path = join(dir.as_bytes(), b"a.txt");
        assert_eq!(file_name(&path), Some(bytes("a.txt")));
        assert_eq!(file_name(&join(dir.as_bytes(), b"..")), None);
    }
}

#[test]
fn home_is_a_variable_or_here() {
    assert_eq!(home_dir(Some(bytes("/home/ali")), Some(bytes("C"))), bytes("/home/ali"));
    assert_eq!(home_dir(None, Some(bytes("profile"))), bytes("profile"));
    assert_eq!(home_dir(None, None), bytes("."));
}

#[test]
fn downloads_are_below_home() {
    assert_eq!(download_dir(b"/home/ali"), bytes("/home/ali/Downloads/LAN-Terminal-Chat"));
    assert_eq!(download_dir(b"."), bytes("./Downloads/LAN-Terminal-Chat"));
}

#[test]
fn sent_names_lose_their_directories() {
    assert_eq!(stored_name_for("report.pdf"), bytes("report.pdf"));
    assert_eq!(stored_name_for("../../etc/passwd"), bytes("passwd"));
    assert_eq!(stored_name_for("/abs/x"), bytes("x"));
    assert_eq!(stored_name_for(".."), bytes("file.bin"));
    assert_eq!(stored_name_for(""), bytes("file.bin"));
    assert_eq!(stored_name_for("/"), bytes("file.bin"));
}

fn downloaded(name: &str) -> Vec<u8> {
    bytes(&format!("/h/Downloads/LAN-Terminal-Chat/{name}"))
}

fn stored(sent: &str, taken: &[&str]) -> Vec<u8> {
    let taken: Vec<Vec<u8>> = taken.iter().map(|n| downloaded(n)).collect();
    unique_download_path(b"/h", sent, |p: &Vec<u8>| taken.contains(p))
}

#[test]
fn free_name_is_kept() {
    assert_eq!(stored("file.pdf", &[]), downloaded("file.pdf"));
    assert_eq!(stored("../x/..", &[]), downloaded("file.bin"));
    assert_eq!(stored("../../.ssh/key", &[]), downloaded("key"));
}

#[test]
fn taken_names_are_numbered() {
    assert_eq!(stored("file.pdf", &["file.pdf"]), downloaded("file (1).pdf"));
    assert_eq!(stored("file.pdf", &["file.pdf", "file (1).pdf"]), downloaded("file (2).pdf"));
    assert_eq!(stored("file.pdf", &["file (1).pdf"]), downloaded("file.pdf"));
    assert_eq!(stored("README", &["README"]), downloaded("README (1)"));
    assert_eq!(stored(".bashrc", &[".bashrc"]), downloaded(".bashrc (1)"));
    assert_eq!(stored("a.tar.gz", &["a.tar.gz"]), downloaded("a.tar (1).gz"));
}

#[test]
fn last_number_is_tried_before_the_time() {
    let last = downloaded("a (9999).b");
    let all_but_last = |p: &Vec<u8>| *p != last;
    assert_eq!(unique_download_path(b"/h", "a.b", all_but_last), last);
    let timed = text(&unique_download_path(b"/h", "a.b", |_p: &Vec<u8>| true));
    let head = text(&downloaded(""));
    assert!(timed.starts_with(&head));
    assert!(timed.ends_with("-a.b"));
    let seconds: u64 = timed[head.len()..timed.len() - "-a.b".len()].parse().unwrap();
    assert!(seconds > 1_600_000_000);
    assert_eq!(timed_path(b"/d", b"a.b", 1234), bytes("/d/1234-a.b"));
    assert_eq!(NAME_TRIES, 10_000);
}

#[test]
fn candidates_differ_and_stay_in_the_directory() {
    let mut seen: Vec<Vec<u8>> = Vec::new();
    for k in 0..300u64 {
        let p = candidate_path(b"/d", b"a (1).b", k);
        assert!(!seen.contains(&p));
        assert_eq!(Path::new(&text(&p)).parent(), Some(Path::new("/d")));
        seen.push(p);
    }
}

#[test]
fn listing_has_directories_first() {
    let found = vec![
        entry("/home/b.txt", false),
        entry("/home/zoo", true),
        entry("/home/A.txt", false),
        entry("/home/art", true),
    ];
    assert_eq!(
        shown(&load_entries(b"/home", found)),
        vec![
            ("/home/..".to_string(), true),
            ("/home/art".to_string(), true),
            ("/home/zoo".to_string(), true),
            ("/home/A.txt".to_string(), false),
            ("/home/b.txt".to_string(), false),
        ]
    );
}

#[test]
fn root_has_no_way_up() {
    assert_eq!(shown(&load_entries(b"/", vec![entry("/etc", true)])), vec![("/etc".to_string(), true)]);
    assert!(load_entries(b"/", vec![]).is_empty());
    assert_eq!(shown(&load_entries(b".", vec![])), vec![("./..".to_string(), true)]);
}

#[test]
fn picker_starts_at_the_top_of_home() {
    let picker = FilePicker::new(bytes("/home"), vec![entry("/home/a", false)]);
    assert_eq!(picker.cwd, bytes("/home"));
    assert_eq!(picker.selected, 0);
    assert_eq!(text(&picker.selected().unwrap().path), "/home/..");
    assert!(FilePicker::new(bytes("/"), vec![]).selected().is_none());
}

#[test]
fn cursor_stops_at_both_ends() {
    let mut picker = FilePicker::new(bytes("/"), vec![entry("/a", false), entry("/b", false)]);
    picker.move_up();
    assert_eq!(picker.selected, 0);
    picker.move_down();
    assert_eq!(picker.selected, 1);
    picker.move_down();
    assert_eq!(picker.selected, 1);
    picker.move_up();
    assert_eq!(picker.selected, 0);
    let mut empty = FilePicker::new(bytes("/"), vec![]);
    empty.move_down();
    assert_eq!(empty.selected, 0);
}

#[test]
fn cursor_behind_the_listing_is_brought_back() {
    let entries = vec![entry("/a", false), entry("/b", false)];
    let mut picker = FilePicker { cwd: bytes("/"), entries, selected: 9 };
    picker.move_down();
    assert_eq!(picker.selected, 1);
    let mut empty = FilePicker { cwd: bytes("/"), entries: vec![], selected: 9 };
    empty.move_down();
    assert_eq!(empty.selected, 9);
}

#[test]
fn reload_keeps_the_cursor_in_the_listing() {
    let three = vec![entry("/a", false), entry("/b", false), entry("/c", false)];
    let mut picker = FilePicker::new(bytes("/"), three);
    picker.move_down();
    picker.move_down();
    picker.reload(vec![entry("/a", false), entry("/b", false)]);
    assert_eq!(picker.selected, 1);
    picker.reload(vec![entry("/a", false), entry("/b", false), entry("/c", false)]);
    assert_eq!(picker.selected, 1);
    picker.reload(vec![]);
    assert_eq!(picker.selected, 0);
}

#[test]
fn enter_opens_directories_and_chooses_files() {
    let mut picker = FilePicker::new(bytes("/"), vec![entry("/dir", true), entry("/file", false)]);
    assert!(matches!(picker.choice(), PickerChoice::Open(p) if p == bytes("/dir")));
    picker.move_down();
    assert!(matches!(picker.choice(), PickerChoice::Send(p) if p == bytes("/file")));
    picker.enter(bytes("/dir"));
    assert_eq!(picker.cwd, bytes("/dir"));
    assert_eq!(picker.selected, 0);
    picker.reload(vec![]);
    assert!(matches!(picker.choice(), PickerChoice::Open(p) if p == bytes("/dir/..")));
    assert!(matches!(FilePicker::new(bytes("/"), vec![]).choice(), PickerChoice::Nothing));
}

#[test]
fn chunks_hold_the_file() {
    assert_eq!(FILE_CHUNK, 48 * 1024);
    assert_eq!(chunk_total(0), 1);
    assert_eq!(chunk_total(1), 1);
    assert_eq!(chunk_total(49_152), 1);
    assert_eq!(chunk_total(49_153), 2);
    assert_eq!(chunk_total(98_304), 2);
    assert_eq!(chunk_total(98_305), 3);
}

#[test]
fn transfer_is_known_by_sender_and_name() {
    assert_eq!(transfer_key("aa", "a.txt"), "aa:a.txt");
}

fn peer_of(user: &Identity) -> Peer {
    Peer {
        id: user.id.clone(),
        name: user.name.clone(),
        addr: Endpoint { ip: IpAddress::V4([10, 0, 0, 1]), port: 45455 },
        last_seen: 0,
        pubkey: user.pubkey,
    }
}

fn transfer(content: &[u8]) -> (Vec<u8>, Vec<bool>, u64) {
    let ali = Identity::with_secret("Ali".to_string(), "aa".to_string(), [1u8; 32]);
    let reza = Identity::with_secret("Reza".to_string(), "bb".to_string(), [2u8; 32]);
    let mut known = PeerTable::new();
    note_hello(&mut known, "bb", ali.hello(), IpAddress::V4([10, 0, 0, 2]), 5);
    let size = content.len() as u64;
    let mut sender =
        FileSender::start(&peer_of(&reza), "aa", &ali.secret, b"/x/a.bin", true, size).unwrap();
    let total = sender.total;
    let mut incoming = IncomingFile::start(bytes("/d/a.bin"), size, total);
    let mut arrived: Vec<u8> = Vec::new();
    let mut complete: Vec<bool> = Vec::new();
    let mut at = 0usize;
    while sender.wants_chunk() {
        let end = std::cmp::min(at + FILE_CHUNK, content.len());
        let data = &content[at..end];
        at = end;
        match sender.chunk_read(data).unwrap() {
            SendStep::Stop => {}
            SendStep::Send(packet) => match receive(packet, &known, &reza.secret) {
                Some(AppEvent::IncomingFile { from, name, size: s, index, total: t, data }) => {
                    assert_eq!(from, "aa");
                    assert_eq!(name, "a.bin");
                    assert_eq!(s, size);
                    assert_eq!(t, total);
                    complete.push(incoming.add_chunk(index, data.len()));
                    arrived.extend(data);
                }
                other => panic!("{other:?}"),
            },
        }
    }
    assert_eq!(incoming.received, size);
    (arrived, complete, total)
}

#[test]
fn whole_file_arrives_with_its_last_chunk() {
    for len in [0usize, 1, 49_151, 49_152, 49_153, 120_000] {
        let content: Vec<u8> = (0..len).map(|i| (i % 251) as u8).collect();
        let (arrived, complete, total) = transfer(&content);
        assert_eq!(arrived, content);
        assert_eq!(complete.len() as u64, total);
        let mut expected = vec![false; complete.len()];
        *expected.last_mut().unwrap() = true;
        assert_eq!(complete, expected);
    }
}

#[test]
fn empty_file_is_sent_as_one_empty_chunk() {
    let (arrived, complete, total) = transfer(&[]);
    assert!(arrived.is_empty());
    assert_eq!(complete, vec![true]);
    assert_eq!(total, 1);
}

#[test]
fn file_that_ends_early_stops_the_sender() {
    let reza = Identity::with_secret("Reza".to_string(), "bb".to_string(), [2u8; 32]);
    let mut sender = FileSender::start(&peer_of(&reza), "aa", &[1u8; 32], b"a", true, 100_000).unwrap();
    assert_eq!(sender.total, 3);
    assert!(matches!(sender.chunk_read(b"only this"), Ok(SendStep::Send(Packet::File { index: 0, .. }))));
    assert!(sender.wants_chunk());
    assert!(matches!(sender.chunk_read(b""), Ok(SendStep::Stop)));
    assert!(!sender.wants_chunk());
    assert_eq!(sender.index, 1);
}

fn chunks_in(packets: Vec<Packet>) -> Vec<(u64, Vec<u8>)> {
    let ali = Identity::with_secret("Ali".to_string(), "aa".to_string(), [1u8; 32]);
    let reza = Identity::with_secret("Reza".to_string(), "bb".to_string(), [2u8; 32]);
    let mut known = PeerTable::new();
    note_hello(&mut known, "bb", ali.hello(), IpAddress::V4([10, 0, 0, 2]), 5);
    packets
        .into_iter()
        .map(|p| match receive(p, &known, &reza.secret) {
            Some(AppEvent::IncomingFile { index, data, .. }) => (index, data),
            other => panic!("{other:?}"),
        })
        .collect()
}

#[test]
fn series_of_reads_becomes_a_series_of_chunks() {
    let reza = Identity::with_secret("Reza".to_string(), "bb".to_string(), [2u8; 32]);
    let start = |size: u64| {
        FileSender::start(&peer_of(&reza), "aa", &[1u8; 32], b"a", true, size).unwrap()
    };
    let content: Vec<u8> = (0..100_000usize).map(|i| (i % 253) as u8).collect();
    let mut reads: Vec<Vec<u8>> = content.chunks(FILE_CHUNK).map(|c| c.to_vec()).collect();
    reads.push(vec![]);
    let mut sender = start(100_000);
    let chunks = chunks_in(sender.reads_done(&reads).unwrap());
    assert_eq!(chunks.iter().map(|c| c.0).collect::<Vec<u64>>(), vec![0, 1, 2]);
    assert_eq!(chunks.into_iter().flat_map(|c| c.1).collect::<Vec<u8>>(), content);
    assert_eq!(sender.index, 3);
    assert!(!sender.finished);

    let mut short = start(100_000);
    let chunks = chunks_in(short.reads_done(&vec![bytes("ab"), vec![], bytes("cd")]).unwrap());
    assert_eq!(chunks, vec![(0, bytes("ab"))]);
    assert!(short.finished);
    assert!(short.reads_done(&vec![bytes("ef")]).unwrap().is_empty());

    let mut empty = start(0);
    let chunks = chunks_in(empty.reads_done(&vec![vec![], vec![]]).unwrap());
    assert_eq!(chunks, vec![(0, vec![])]);
}

#[test]
fn only_regular_files_are_sent() {
    let reza = Identity::with_secret("Reza".to_string(), "bb".to_string(), [2u8; 32]);
    let refused = FileSender::start(&peer_of(&reza), "aa", &[1u8; 32], b"/tmp", false, 0);
    assert!(matches!(&refused, Err(SendError::NotAFile)));
    if let Err(e) = refused {
        assert_eq!(e.message(), "not a regular file");
    }
    assert_eq!(SendError::Crypto(CryptoError::Encryption).message(), "encryption failed");
}

#[test]
fn file_without_a_text_name_is_sent_as_file_bin() {
    let reza = Identity::with_secret("Reza".to_string(), "bb".to_string(), [2u8; 32]);
    let sender = FileSender::start(&peer_of(&reza), "aa", &[1u8; 32], b"/tmp/\xff", true, 1).unwrap();
    assert_eq!(sender.name, "file.bin");
}

#[test]
fn last_number_completes_a_file() {
    let mut file = IncomingFile::start(bytes("/d/a"), 1_000, 2);
    assert!(!file.add_chunk(0, 10));
    assert!(file.add_chunk(1, 10));
    let mut early = IncomingFile::start(bytes("/d/a"), 5, 9);
    assert!(early.add_chunk(0, 5));
}

use lan_terminal_chat::chat::{add_message, Action, Chat, Key, KeyInput, Message, Talk};
use lan_terminal_chat::keyed::Keyed;
use lan_terminal_chat::peers::{Endpoint, IpAddress, Peer, PeerTable};
use lan_terminal_chat::picker::FileEntry;

fn bytes(text: &str) -> Vec<u8> {
    text.as_bytes().to_vec()
}

fn peer(id: &str, name: &str) -> Peer {
    Peer {
        id: id.to_string(),
        name: name.to_string(),
        addr: Endpoint { ip: IpAddress::V4([10, 0, 0, 1]), port: 45455 },
        last_seen: 0,
        pubkey: [0u8; 32],
    }
}

fn table(names: &[&str]) -> PeerTable {
    let mut table = PeerTable::new();
    for name in names {
        table.insert(peer(&format!("id-{name}"), name));
    }
    table
}

fn chat_with(names: &[&str]) -> Chat {
    let mut chat = Chat::new("Me".to_string());
    chat.show_peers(&table(names));
    chat
}

fn press(chat: &mut Chat, key: Key) -> Action {
    chat.key(KeyInput { key, control: false, pressed: true })
}

fn type_in(chat: &mut Chat, text: &str) {
    for c in text.chars() {
        assert!(matches!(press(chat, Key::Char(c)), Action::Wait));
    }
}

fn said(chat: &Chat, id: &str) -> Vec<(String, String, bool, String)> {
    match chat.talks.get(id) {
        None => vec![],
        Some(talk) => talk
            .messages
            .iter()
            .map(|m| (m.from.clone(), m.text.clone(), m.incoming, m.time.clone()))
            .collect(),
    }
}

fn home_listing() -> Vec<FileEntry> {
    vec![
        FileEntry { path: bytes("/home/a.txt"), is_dir: false },
        FileEntry { path: bytes("/home/docs"), is_dir: true },
    ]
}

#[test]
fn keyed_table_holds_one_value_per_key() {
    let mut t: Keyed<u32> = Keyed::new();
    assert!(t.get("a").is_none());
    t.insert("a", 1);
    t.insert("b", 2);
    t.insert("a", 3);
    assert_eq!(t.get("a"), Some(&3));
    assert_eq!(t.get("b"), Some(&2));
    assert_eq!(t.take("a"), Some(3));
    assert_eq!(t.take("a"), None);
    assert_eq!(t.get("b"), Some(&2));
}

#[test]
fn conversations_only_grow() {
    let mut talks: Keyed<Talk> = Keyed::new();
    for (id, text) in [("a", "1"), ("b", "2"), ("a", "3")] {
        let message = Message {
            from: id.to_string(),
            text: text.to_string(),
            incoming: true,
            time: "00:00:00".to_string(),
            file_path: None,
        };
        add_message(&mut talks, id, message);
    }
    let texts: Vec<String> =
        talks.get("a").unwrap().messages.iter().map(|m| m.text.clone()).collect();
    assert_eq!(texts, vec!["1", "3"]);
    assert_eq!(talks.get("b").unwrap().messages.len(), 1);
}

#[test]
fn new_chat_is_empty() {
    let chat = Chat::new("Me".to_string());
    assert_eq!(chat.name, "Me");
    assert_eq!(chat.active_tab, 2);
    assert!(!chat.should_quit);
    assert!(chat.peers.is_empty());
    assert!(chat.input.is_empty());
    assert!(chat.picker.is_none());
}

#[test]
fn typing_fills_the_input() {
    let mut chat = chat_with(&["Ali"]);
    press(&mut chat, Key::Tab);
    type_in(&mut chat, "سلام q");
    assert_eq!(chat.input, "سلام q");
    assert_eq!(chat.active_tab, 2);
    press(&mut chat, Key::Backspace);
    assert_eq!(chat.input, "سلام ");
}

#[test]
fn backspace_undoes_typing() {
    let mut chat = chat_with(&[]);
    press(&mut chat, Key::Backspace);
    assert_eq!(chat.input, "");
    type_in(&mut chat, "ab");
    press(&mut chat, Key::Char('c'));
    press(&mut chat, Key::Backspace);
    assert_eq!(chat.input, "ab");
}

#[test]
fn q_quits_only_from_an_empty_input() {
    let mut chat = chat_with(&[]);
    type_in(&mut chat, "a");
    press(&mut chat, Key::Char('q'));
    assert!(!chat.should_quit);
    assert_eq!(chat.input, "aq");
    let mut other = chat_with(&[]);
    press(&mut other, Key::Char('q'));
    assert!(other.should_quit);
    assert_eq!(other.input, "");
}

#[test]
fn control_c_quits() {
    let mut chat = chat_with(&["Ali"]);
    type_in(&mut chat, "abc");
    assert!(!chat.should_quit);
    chat.key(KeyInput { key: Key::Char('c'), control: true, pressed: true });
    assert!(chat.should_quit);
    assert_eq!(chat.input, "abc");
}

#[test]
fn only_presses_count() {
    let mut chat = chat_with(&["Ali"]);
    chat.key(KeyInput { key: Key::Char('x'), control: false, pressed: false });
    chat.key(KeyInput { key: Key::Char('c'), control: true, pressed: false });
    assert_eq!(chat.input, "");
    assert!(!chat.should_quit);
}

#[test]
fn tab_goes_through_the_panels() {
    let mut chat = chat_with(&[]);
    let mut seen = vec![chat.active_tab];
    for _ in 0..3 {
        press(&mut chat, Key::Tab);
        seen.push(chat.active_tab);
    }
    assert_eq!(seen, vec![2, 0, 1, 2]);
}

#[test]
fn arrows_move_between_users() {
    let mut chat = chat_with(&["bob", "Ali", "zoe"]);
    let names: Vec<&str> = chat.peers.iter().map(|p| p.name.as_str()).collect();
    assert_eq!(names, vec!["Ali", "bob", "zoe"]);
    press(&mut chat, Key::Up);
    assert_eq!((chat.selected, chat.active_tab), (0, 0));
    for expected in [1, 2, 2] {
        press(&mut chat, Key::Down);
        assert_eq!(chat.selected, expected);
    }
    press(&mut chat, Key::Up);
    assert_eq!(chat.selected, 1);
}

#[test]
fn arrows_do_nothing_without_users() {
    let mut chat = chat_with(&[]);
    press(&mut chat, Key::Down);
    press(&mut chat, Key::Up);
    assert_eq!((chat.selected, chat.active_tab), (0, 2));
}

#[test]
fn cursor_stays_among_the_users() {
    let mut chat = chat_with(&["a", "b", "c"]);
    press(&mut chat, Key::Down);
    press(&mut chat, Key::Down);
    chat.show_peers(&table(&["a", "b"]));
    assert_eq!(chat.selected, 1);
    chat.show_peers(&table(&[]));
    assert_eq!(chat.selected, 1);
    chat.show_peers(&table(&["a"]));
    assert_eq!(chat.selected, 0);
}

#[test]
fn enter_sends_the_trimmed_text() {
    let mut chat = chat_with(&["Ali"]);
    type_in(&mut chat, "  hello there ");
    match press(&mut chat, Key::Enter) {
        Action::SendChat { peer, text } => {
            assert_eq!(peer.id, "id-Ali");
            assert_eq!(text, "hello there");
            assert_eq!(chat.input, "  hello there ");
            chat.chat_done(&peer, text, true, 3_661);
        }
        other => panic!("{other:?}"),
    }
    assert_eq!(chat.input, "");
    assert_eq!(
        said(&chat, "id-Ali"),
        vec![("Me".to_string(), "hello there".to_string(), false, "01:01:01".to_string())]
    );
}

#[test]
fn message_that_was_not_sent_stays_in_the_input() {
    let mut chat = chat_with(&["Ali"]);
    type_in(&mut chat, "hello");
    if let Action::SendChat { peer, text } = press(&mut chat, Key::Enter) {
        chat.chat_done(&peer, text, false, 0);
    }
    assert_eq!(chat.input, "hello");
    assert!(said(&chat, "id-Ali").is_empty());
}

#[test]
fn blank_text_is_not_sent() {
    let mut chat = chat_with(&["Ali"]);
    assert!(matches!(press(&mut chat, Key::Enter), Action::Wait));
    type_in(&mut chat, "   ");
    assert!(matches!(press(&mut chat, Key::Enter), Action::Wait));
    assert_eq!(chat.input, "   ");
}

#[test]
fn nothing_is_sent_without_users() {
    let mut chat = chat_with(&[]);
    type_in(&mut chat, "hello");
    assert!(matches!(press(&mut chat, Key::Enter), Action::Wait));
    assert_eq!(chat.input, "hello");
    let mut files = chat_with(&[]);
    type_in(&mut files, "/files");
    assert!(matches!(press(&mut files, Key::Enter), Action::Wait));
    assert_eq!(files.input, "/files");
}

#[test]
fn files_command_opens_the_picker() {
    let mut chat = chat_with(&["Ali"]);
    type_in(&mut chat, " /files ");
    assert!(matches!(press(&mut chat, Key::Enter), Action::OpenPicker));
    assert_eq!(chat.input, "");
    chat.open_picker(bytes("/home"), home_listing());
    let picker = chat.picker.as_ref().unwrap();
    assert_eq!(picker.cwd, bytes("/home"));
    assert_eq!(picker.entries.len(), 3);
    assert_eq!(picker.selected, 0);
}

#[test]
fn open_picker_takes_every_key() {
    let mut chat = chat_with(&["Ali", "bob"]);
    chat.open_picker(bytes("/home"), home_listing());
    press(&mut chat, Key::Char('q'));
    press(&mut chat, Key::Tab);
    press(&mut chat, Key::Down);
    press(&mut chat, Key::Backspace);
    chat.key(KeyInput { key: Key::Char('c'), control: true, pressed: true });
    assert!(!chat.should_quit);
    assert_eq!((chat.selected, chat.active_tab), (0, 2));
    assert_eq!(chat.input, "");
    assert_eq!(chat.picker.as_ref().unwrap().selected, 1);
    press(&mut chat, Key::Up);
    assert_eq!(chat.picker.as_ref().unwrap().selected, 0);
    press(&mut chat, Key::Esc);
    assert!(chat.picker.is_none());
}

#[test]
fn enter_in_the_picker_opens_directories() {
    let mut chat = chat_with(&["Ali"]);
    chat.open_picker(bytes("/home"), home_listing());
    press(&mut chat, Key::Down);
    assert!(matches!(press(&mut chat, Key::Enter), Action::ListDirectory));
    assert_eq!(chat.picker.as_ref().unwrap().cwd, bytes("/home/docs"));
    chat.list_directory(vec![FileEntry { path: bytes("/home/docs/x"), is_dir: false }]);
    let picker = chat.picker.as_ref().unwrap();
    assert_eq!(picker.selected, 0);
    assert_eq!(picker.entries[0].path, bytes("/home/docs/.."));
    assert_eq!(picker.entries[1].path, bytes("/home/docs/x"));
    assert!(matches!(press(&mut chat, Key::Enter), Action::ListDirectory));
    assert_eq!(chat.picker.as_ref().unwrap().cwd, bytes("/home/docs/.."));
    let mut closed = chat_with(&["Ali"]);
    closed.list_directory(home_listing());
    assert!(closed.picker.is_none());
}

#[test]
fn enter_in_the_picker_sends_files() {
    let mut chat = chat_with(&["Ali"]);
    chat.open_picker(bytes("/home"), home_listing());
    press(&mut chat, Key::Down);
    press(&mut chat, Key::Down);
    match press(&mut chat, Key::Enter) {
        Action::SendFile { peer, path } => {
            assert_eq!(peer.id, "id-Ali");
            assert_eq!(path, bytes("/home/a.txt"));
            assert!(chat.picker.is_none());
            chat.file_done(&peer, path, None, 59);
        }
        other => panic!("{other:?}"),
    }
    assert_eq!(
        said(&chat, "id-Ali"),
        vec![(
            "Me".to_string(),
            "📎 a.txt (/home/a.txt)".to_string(),
            false,
            "00:00:59".to_string()
        )]
    );
    let talk = chat.talks.get("id-Ali").unwrap();
    assert_eq!(talk.messages[0].file_path, Some(bytes("/home/a.txt")));
}

#[test]
fn file_is_not_sent_without_users() {
    let mut chat = chat_with(&[]);
    chat.open_picker(bytes("/home"), home_listing());
    press(&mut chat, Key::Down);
    press(&mut chat, Key::Down);
    assert!(matches!(press(&mut chat, Key::Enter), Action::Wait));
    assert!(chat.picker.is_some());
}

#[test]
fn failure_to_send_a_file_is_told() {
    let mut chat = chat_with(&["Ali"]);
    let failure = Some("not a regular file".to_string());
    chat.file_done(&peer("id-Ali", "Ali"), bytes("/home/a.txt"), failure, 0);
    assert_eq!(said(&chat, "id-Ali")[0].1, "File send failed: not a regular file");
    assert_eq!(chat.talks.get("id-Ali").unwrap().messages[0].file_path, None);
    chat.file_done(&peer("id-Ali", "Ali"), b"/tmp/\xff".to_vec(), None, 0);
    assert_eq!(said(&chat, "id-Ali")[1].1, "📎 file (/tmp/\u{fffd})");
}

#[test]
fn arriving_message_joins_its_conversation() {
    let mut chat = chat_with(&["Ali"]);
    chat.chat_arrived("id-Ali".to_string(), "hi".to_string(), 60);
    chat.chat_arrived("stranger".to_string(), "yo".to_string(), 61);
    assert_eq!(
        said(&chat, "id-Ali"),
        vec![("id-Ali".to_string(), "hi".to_string(), true, "00:01:00".to_string())]
    );
    assert_eq!(said(&chat, "stranger").len(), 1);
}

#[test]
fn file_arrives_chunk_by_chunk() {
    let mut chat = chat_with(&["Ali"]);
    let free = |_p: &Vec<u8>| false;
    let first = chat.place_chunk("id-Ali", "a.bin", 100, 2, b"/h", free);
    assert_eq!(first, (bytes("/h/Downloads/LAN-Terminal-Chat/a.bin"), true));
    chat.chunk_stored("id-Ali".to_string(), "a.bin", 0, 60, 5);
    assert!(said(&chat, "id-Ali").is_empty());
    let taken = |_p: &Vec<u8>| true;
    let second = chat.place_chunk("id-Ali", "a.bin", 7, 7, b"/h", taken);
    assert_eq!(second, (bytes("/h/Downloads/LAN-Terminal-Chat/a.bin"), false));
    chat.chunk_stored("id-Ali".to_string(), "a.bin", 1, 40, 65);
    assert_eq!(
        said(&chat, "id-Ali"),
        vec![(
            "id-Ali".to_string(),
            "📎 a.bin  /h/Downloads/LAN-Terminal-Chat/a.bin".to_string(),
            true,
            "00:01:05".to_string()
        )]
    );
    assert!(chat.incoming.get("id-Ali:a.bin").is_none());
    let again = |p: &Vec<u8>| *p == b"/h/Downloads/LAN-Terminal-Chat/a.bin".to_vec();
    let third = chat.place_chunk("id-Ali", "a.bin", 1, 1, b"/h", again);
    assert_eq!(third, (bytes("/h/Downloads/LAN-Terminal-Chat/a (1).bin"), true));
}

#[test]
fn transfer_of_any_chunks_ends_once() {
    let home = b"/h";
    let none = |_p: &Vec<u8>| false;
    let first = bytes("/h/Downloads/LAN-Terminal-Chat/f");
    let other = first.clone();
    let taken = move |p: &Vec<u8>| *p == other;
    let mut chat = chat_with(&["Ali"]);
    assert_eq!(chat.place_chunk("id-Ali", "f", 100, 9, home, none), (first.clone(), true));
    chat.chunk_stored("id-Ali".to_string(), "f", 4, 10, 1);
    assert_eq!(chat.place_chunk("id-Ali", "f", 5, 1, home, &taken), (first.clone(), false));
    chat.chunk_stored("id-Ali".to_string(), "f", 4, 0, 2);
    assert!(said(&chat, "id-Ali").is_empty());
    assert_eq!(chat.place_chunk("id-Ali", "f", 5, 1, home, &taken), (first, false));
    chat.chunk_stored("id-Ali".to_string(), "f", 8, 3, 3);
    assert_eq!(said(&chat, "id-Ali").len(), 1);
    assert_eq!(said(&chat, "id-Ali")[0].3, "00:00:03");
    let (later, is_new) = chat.place_chunk("id-Ali", "f", 100, 9, home, &taken);
    assert_eq!(later, bytes("/h/Downloads/LAN-Terminal-Chat/f (1)"));
    assert!(is_new);
    chat.chunk_stored("id-Ali".to_string(), "f", 0, 10, 4);
    assert_eq!(said(&chat, "id-Ali").len(), 1);
    assert_eq!(chat.incoming.get("id-Ali:f").unwrap().received, 10);
}

#[test]
fn chunk_of_a_file_that_is_not_awaited_is_ignored() {
    let mut chat = chat_with(&["Ali"]);
    chat.chunk_stored("id-Ali".to_string(), "a.bin", 0, 60, 5);
    assert!(said(&chat, "id-Ali").is_empty());
    assert!(chat.incoming.entries.is_empty());
}

#[test]
fn files_of_two_senders_are_kept_apart() {
    let mut chat = chat_with(&[]);
    let free = |_p: &Vec<u8>| false;
    chat.place_chunk("x", "a", 10, 2, b"/h", free);
    let taken = |p: &Vec<u8>| *p == b"/h/Downloads/LAN-Terminal-Chat/a".to_vec();
    chat.place_chunk("y", "a", 10, 2, b"/h", taken);
    chat.chunk_stored("x".to_string(), "a", 0, 10, 0);
    assert_eq!(said(&chat, "x")[0].1, "📎 a  /h/Downloads/LAN-Terminal-Chat/a");
    chat.chunk_stored("y".to_string(), "a", 0, 10, 0);
    assert_eq!(said(&chat, "y")[0].1, "📎 a (1)  /h/Downloads/LAN-Terminal-Chat/a (1)");
}

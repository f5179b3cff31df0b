use lan_terminal_chat::chat::{Chat, Key, KeyInput};
use lan_terminal_chat::peers::{Endpoint, IpAddress, Peer, PeerTable};
use lan_terminal_chat::picker::{FileEntry, FilePicker};
use lan_terminal_chat::screen::{
    coloured, draw_file_picker, draw_ui, footer, header, input_scroll, scroll_to_end, Colour,
    MainPanel, Row, Style, INPUT_ROWS, WRAP_LIMIT,
};
use lan_terminal_chat::screen::{body_columns, screen_rows, Extent};

fn peer(id: &str, name: &str) -> Peer {
    Peer {
        id: id.to_string(),
        name: name.to_string(),
        addr: Endpoint { ip: IpAddress::V4([10, 0, 0, 1]), port: 45455 },
        last_seen: 0,
        pubkey: [0u8; 32],
    }
}

fn chat() -> Chat {
    let mut table = PeerTable::new();
    table.insert(peer("aa", "Ali"));
    table.insert(peer("bb", "Reza"));
    let mut chat = Chat::new("Me".to_string());
    chat.show_peers(&table);
    chat
}

fn texts(row: &Row) -> Vec<&str> {
    row.spans.iter().map(|s| s.text.as_str()).collect()
}

fn styles(row: &Row) -> Vec<Style> {
    row.spans.iter().map(|s| s.style).collect()
}

#[test]
fn header_tells_who_is_online() {
    let row = header(12, "Ali");
    assert_eq!(texts(&row), vec![" LAN CHAT ", "  ", "12 online", "  ", "as Ali", "  ", "E2E"]);
    let plain = coloured(Colour::Terminal);
    assert_eq!(
        styles(&row),
        vec![
            plain.bold(),
            plain,
            coloured(Colour::Green),
            plain,
            coloured(Colour::Cyan),
            plain,
            coloured(Colour::Green)
        ]
    );
}

#[test]
fn styles_have_colour_and_weight() {
    assert_eq!(
        coloured(Colour::Cyan).bold().reversed(),
        Style { colour: Colour::Cyan, bold: true, reversed: true }
    );
    assert_eq!(
        coloured(Colour::White),
        Style { colour: Colour::White, bold: false, reversed: false }
    );
}

#[test]
fn footer_tells_the_keys_and_the_id() {
    let row = footer("c0ffee");
    assert_eq!(
        texts(&row).concat(),
        "↑↓ Users  Enter Send  /files File picker  Esc Close picker  Ctrl+C / q Quit   ID: c0ffee"
    );
    assert_eq!(row.spans[0].style, coloured(Colour::Yellow));
    assert_eq!(row.spans[1].style, coloured(Colour::Terminal));
    assert_eq!(row.spans[10].style, coloured(Colour::DarkGray));
}

#[test]
fn users_are_shown_with_their_ids() {
    let mut c = chat();
    let screen = draw_ui(&c, "me");
    assert_eq!(screen.users.title, " Users ");
    assert_eq!(texts(&screen.users.rows[0]), vec!["● ", "Ali", "  aa"]);
    assert_eq!(texts(&screen.users.rows[1]), vec!["● ", "Reza", "  bb"]);
    assert_eq!(
        styles(&screen.users.rows[0]),
        vec![coloured(Colour::Green), coloured(Colour::Terminal), coloured(Colour::DarkGray)]
    );
    assert_eq!(screen.users.selected, Some(0));
    assert_eq!(screen.users.highlight, coloured(Colour::Terminal).reversed());
    c.key(KeyInput { key: Key::Down, control: false, pressed: true });
    let screen = draw_ui(&c, "me");
    assert_eq!(screen.users.selected, Some(1));
    assert_eq!(screen.users.highlight, coloured(Colour::Cyan).bold().reversed());
}

#[test]
fn empty_chat_shows_a_hint() {
    let screen = draw_ui(&Chat::new("Me".to_string()), "me");
    assert_eq!(screen.users.selected, None);
    assert!(screen.users.rows.is_empty());
    match screen.main {
        MainPanel::Chat { title, rows, wraps } => {
            assert_eq!(title, " Chat ");
            assert!(wraps);
            assert_eq!(rows.len(), 1);
            assert_eq!(texts(&rows[0]), vec!["Select a user to start chatting."]);
            assert_eq!(styles(&rows[0]), vec![coloured(Colour::DarkGray)]);
        }
        other => panic!("{other:?}"),
    }
}

#[test]
fn conversation_shows_both_sides() {
    let mut c = chat();
    c.chat_arrived("aa".to_string(), "سلام".to_string(), 61);
    c.chat_done(&peer("aa", "Ali"), "hi".to_string(), true, 62);
    c.chat_arrived("bb".to_string(), "elsewhere".to_string(), 63);
    let screen = draw_ui(&c, "me");
    match screen.main {
        MainPanel::Chat { rows, .. } => {
            assert_eq!(rows.len(), 2);
            assert_eq!(texts(&rows[0]), vec!["← 00:01:01 ", "aa: ", "مالس"]);
            assert_eq!(texts(&rows[1]), vec!["→ 00:01:02 ", "Me: ", "hi"]);
            assert_eq!(
                styles(&rows[0]),
                vec![
                    coloured(Colour::DarkGray),
                    coloured(Colour::White).bold(),
                    coloured(Colour::White)
                ]
            );
            assert_eq!(
                styles(&rows[1]),
                vec![
                    coloured(Colour::DarkGray),
                    coloured(Colour::Cyan).bold(),
                    coloured(Colour::Cyan)
                ]
            );
        }
        other => panic!("{other:?}"),
    }
}

#[test]
fn note_of_a_file_is_shown_as_it_is() {
    let mut c = chat();
    c.file_done(&peer("aa", "Ali"), "/tmp/سلام".as_bytes().to_vec(), None, 0);
    match draw_ui(&c, "me").main {
        MainPanel::Chat { rows, .. } => {
            assert_eq!(rows[0].spans[2].text, "📎 سلام (/tmp/سلام)");
        }
        other => panic!("{other:?}"),
    }
}

#[test]
fn silent_user_has_an_empty_conversation() {
    match draw_ui(&chat(), "me").main {
        MainPanel::Chat { rows, .. } => assert!(rows.is_empty()),
        other => panic!("{other:?}"),
    }
}

#[test]
fn picker_stands_in_the_place_of_the_conversation() {
    let mut c = chat();
    let found = vec![FileEntry { path: b"/home/a.txt".to_vec(), is_dir: false }];
    c.open_picker(b"/home".to_vec(), found);
    match draw_ui(&c, "me").main {
        MainPanel::Files(panel) => {
            assert_eq!(panel.title, " Files — /home ");
            assert_eq!(texts(&panel.rows[0]), vec!["📁 ?"]);
            assert_eq!(texts(&panel.rows[1]), vec!["📄 a.txt"]);
            assert_eq!(panel.selected, Some(0));
            assert_eq!(panel.highlight, coloured(Colour::Cyan).reversed());
        }
        other => panic!("{other:?}"),
    }
}

#[test]
fn directory_that_is_no_text_is_shown_with_replacement_characters() {
    let panel = draw_file_picker(&FilePicker::new(b"/tmp/\xff".to_vec(), vec![]));
    assert_eq!(panel.title, " Files — /tmp/\u{fffd} ");
    let empty = draw_file_picker(&FilePicker::new(b"/".to_vec(), vec![]));
    assert_eq!(empty.selected, None);
}

#[test]
fn input_panel_is_marked_while_active() {
    let mut c = chat();
    c.key(KeyInput { key: Key::Char('x'), control: false, pressed: true });
    let screen = draw_ui(&c, "me");
    assert_eq!(screen.input_title, " Message * ");
    assert!(screen.input_wraps);
    assert_eq!(screen.input, "x");
    c.key(KeyInput { key: Key::Tab, control: false, pressed: true });
    assert_eq!(draw_ui(&c, "me").input_title, " Message ");
}

#[test]
fn panels_have_their_sizes() {
    assert_eq!(INPUT_ROWS, 7);
    assert_eq!(
        screen_rows(),
        vec![Extent::Exactly(2), Extent::AtLeast(5), Extent::Exactly(7), Extent::Exactly(1)]
    );
    assert_eq!(body_columns(), vec![Extent::Exactly(28), Extent::AtLeast(30)]);
}

#[test]
fn long_message_is_scrolled_to_its_end() {
    let height = INPUT_ROWS - 2;
    assert_eq!(input_scroll("", 20, height), 0);
    assert_eq!(input_scroll("Hello World", 20, 1), 0);
    assert_eq!(input_scroll("Hello World", 10, 1), 1);
    let long = "Hello World ".repeat(100);
    assert_eq!(input_scroll(long.trim(), 11, height), 95);
    assert_eq!(input_scroll(long.trim(), 6, height), 195);
    let persian = "سلام ".repeat(40);
    assert_eq!(input_scroll(persian.trim(), 4, height), 35);
    assert_eq!(input_scroll(&long, 0, height), 0);
    assert_eq!(input_scroll("x", WRAP_LIMIT, height), 0);
}

#[test]
fn last_row_is_always_visible() {
    for height in 1..8u16 {
        for rows in 1..40usize {
            let scroll = scroll_to_end(rows, height) as usize;
            assert!(scroll < rows && rows <= scroll + height as usize);
        }
    }
    assert_eq!(scroll_to_end(65_535, 5), 65_530);
    assert_eq!(scroll_to_end(65_536, 5), 65_530);
    assert_eq!(scroll_to_end(usize::MAX, 65_535), 0);
    assert_eq!(scroll_to_end(3, 0), 3);
}

#[test]
fn message_scrolls_row_by_row() {
    for rows in 5..50usize {
        assert_eq!(scroll_to_end(rows + 1, 5), scroll_to_end(rows, 5) + 1);
    }
}

use lan_terminal_chat::crypto::{public_key, shared_key};
use lan_terminal_chat::crypto::encrypt_bytes;
use lan_terminal_chat::peers::{Endpoint, IpAddress, Peer, PeerTable};
use lan_terminal_chat::protocol::{
    chat_event, chat_packet, datagram, datagram_body, line_body, note_hello, packet_line, receive,
    user_name, AppEvent, Identity, Packet, CHAT_PORT, DISCOVERY_PORT, MAGIC,
};

fn home() -> IpAddress {
    IpAddress::V4([192, 168, 1, 7])
}

fn peer(id: &str, name: &str, last_seen: u64) -> Peer {
    Peer {
        id: id.to_string(),
        name: name.to_string(),
        addr: Endpoint { ip: home(), port: CHAT_PORT },
        last_seen,
        pubkey: [7u8; 32],
    }
}

fn hello(id: &str, name: &str) -> Packet {
    Packet::Hello { id: id.to_string(), name: name.to_string(), port: 4000, pubkey: [3u8; 32] }
}

fn user(name: &str, id: &str, byte: u8) -> Identity {
    Identity::with_secret(name.to_string(), id.to_string(), [byte; 32])
}

#[test]
fn ports_and_magic() {
    assert_eq!(DISCOVERY_PORT, 45454);
    assert_eq!(CHAT_PORT, 45455);
    assert_eq!(MAGIC, "LAN_TERM_CHAT_V3");
}

#[test]
fn user_name_comes_from_the_command_line_or_the_host() {
    assert_eq!(user_name(Some("Ali".to_string()), Some("pc".to_string())), "Ali");
    assert_eq!(user_name(Some("Ali".to_string()), None), "Ali");
    assert_eq!(user_name(None, Some("pc".to_string())), "pc");
    assert_eq!(user_name(None, None), "user");
}

#[test]
fn fresh_identity_has_a_key_pair() {
    let me = Identity::fresh("Ali".to_string());
    assert_eq!(me.name, "Ali");
    assert_eq!(me.id.len(), 12);
    assert_eq!(me.pubkey, public_key(&me.secret));
    assert_ne!(me.secret, Identity::fresh("Ali".to_string()).secret);
}

#[test]
fn hello_announces_public_key_material() {
    let me = user("Ali", "aa", 5);
    match me.hello() {
        Packet::Hello { id, name, port, pubkey } => {
            assert_eq!(id, "aa");
            assert_eq!(name, "Ali");
            assert_eq!(port, CHAT_PORT);
            assert_eq!(pubkey, public_key(&[5u8; 32]));
        }
        other => panic!("{other:?}"),
    }
}

#[test]
fn datagram_gives_its_body_back() {
    let body = "{\"type\":\"Hello\"}";
    assert_eq!(datagram(body), format!("LAN_TERM_CHAT_V3{body}").into_bytes());
    assert_eq!(datagram_body(datagram(body)), Some(body.to_string()));
    assert_eq!(datagram_body(datagram("")), Some(String::new()));
}

#[test]
fn repeated_magic_is_taken_off() {
    assert_eq!(
        datagram_body(b"LAN_TERM_CHAT_V3LAN_TERM_CHAT_V3{}".to_vec()),
        Some("{}".to_string())
    );
    assert_eq!(datagram_body(datagram("LAN_TERM_CHAT_V3x")), Some("x".to_string()));
}

#[test]
fn other_datagrams_are_no_announcements() {
    assert_eq!(datagram_body(b"{}".to_vec()), None);
    assert_eq!(datagram_body(b"LAN_TERM_CHAT_V".to_vec()), None);
    assert_eq!(datagram_body(b"".to_vec()), None);
    assert_eq!(datagram_body(b"xLAN_TERM_CHAT_V3".to_vec()), None);
    assert_eq!(datagram_body(b"LAN_TERM_CHAT_V3\xff".to_vec()), None);
}

#[test]
fn line_gives_its_packet_back() {
    let packet = "{\"type\":\"Chat\"}";
    let line = packet_line(packet.as_bytes().to_vec());
    assert_eq!(line, b"{\"type\":\"Chat\"}\n".to_vec());
    assert_eq!(line_body(&String::from_utf8(line).unwrap()), packet);
    assert_eq!(line_body("  {}\r\n"), "{}");
}

#[test]
fn announcement_is_noted_and_answered() {
    let mut table = PeerTable::new();
    let answer = note_hello(&mut table, "me", hello("aa", "Reza"), home(), 100);
    assert_eq!(answer, Some(Endpoint { ip: home(), port: DISCOVERY_PORT }));
    let noted = table.get("aa").unwrap();
    assert_eq!(noted.name, "Reza");
    assert_eq!(noted.addr, Endpoint { ip: home(), port: 4000 });
    assert_eq!(noted.last_seen, 100);
    assert_eq!(noted.pubkey, [3u8; 32]);
}

#[test]
fn later_announcement_replaces_the_earlier() {
    let mut table = PeerTable::new();
    note_hello(&mut table, "me", hello("aa", "Reza"), home(), 100);
    let away = IpAddress::V6([1u8; 16]);
    note_hello(&mut table, "me", hello("aa", "Reza 2"), away, 130);
    assert_eq!(table.by_name().len(), 1);
    let noted = table.get("aa").unwrap();
    assert_eq!(noted.name, "Reza 2");
    assert_eq!(noted.addr.ip, away);
    assert_eq!(noted.last_seen, 130);
}

#[test]
fn own_announcement_and_other_packets_are_ignored() {
    let mut table = PeerTable::new();
    assert_eq!(note_hello(&mut table, "aa", hello("aa", "Me"), home(), 100), None);
    let chat = Packet::Chat { from: "bb".to_string(), ciphertext: String::new(), timestamp: 0 };
    assert_eq!(note_hello(&mut table, "aa", chat, home(), 100), None);
    assert!(table.by_name().is_empty());
    assert!(table.get("aa").is_none());
}

#[test]
fn peers_are_forgotten_after_fifteen_seconds() {
    let mut table = PeerTable::new();
    table.insert(peer("old", "Old", 84));
    table.insert(peer("edge", "Edge", 85));
    table.insert(peer("new", "New", 100));
    table.forget_stale(100);
    assert!(table.get("old").is_none());
    assert!(table.get("edge").is_some());
    assert!(table.get("new").is_some());
    let mut early = PeerTable::new();
    early.insert(peer("zero", "Zero", 0));
    early.forget_stale(14);
    assert!(early.get("zero").is_some());
    early.forget_stale(16);
    assert!(early.get("zero").is_none());
}

#[test]
fn peers_are_listed_by_lower_case_name() {
    let mut table = PeerTable::new();
    table.insert(peer("1", "zoe", 1));
    table.insert(peer("2", "Ali", 1));
    table.insert(peer("3", "bob", 1));
    table.insert(peer("4", "ÄRNE", 1));
    table.insert(peer("3", "bob", 2));
    let names: Vec<String> = table.by_name().iter().map(|p| p.name.clone()).collect();
    assert_eq!(names, vec!["Ali", "bob", "zoe", "ÄRNE"]);
}

#[test]
fn chat_message_arrives_as_it_was_sent() {
    let ali = user("Ali", "aa", 1);
    let reza = user("Reza", "bb", 2);
    let mut at_ali = PeerTable::new();
    let mut at_reza = PeerTable::new();
    note_hello(&mut at_ali, &ali.id, reza.hello(), home(), 50);
    note_hello(&mut at_reza, &reza.id, ali.hello(), home(), 50);
    let to = at_ali.get("bb").unwrap();
    let packet = chat_packet(&to, &ali.id, &ali.secret, "سلام علی", 77).unwrap();
    match &packet {
        Packet::Chat { from, ciphertext, timestamp } => {
            assert_eq!(from, "aa");
            assert_eq!(*timestamp, 77);
            assert!(!ciphertext.contains("سلام"));
        }
        other => panic!("{other:?}"),
    }
    match receive(packet, &at_reza, &reza.secret) {
        Some(AppEvent::IncomingChat { from, text }) => {
            assert_eq!(from, "aa");
            assert_eq!(text, "سلام علی");
        }
        other => panic!("{other:?}"),
    }
}

#[test]
fn message_of_a_stranger_is_dropped() {
    let ali = user("Ali", "aa", 1);
    let reza = user("Reza", "bb", 2);
    let mut at_ali = PeerTable::new();
    note_hello(&mut at_ali, &ali.id, reza.hello(), home(), 50);
    let packet = chat_packet(&at_ali.get("bb").unwrap(), "aa", &ali.secret, "hi", 1).unwrap();
    assert!(receive(packet, &PeerTable::new(), &reza.secret).is_none());
}

#[test]
fn message_under_another_key_is_dropped() {
    let ali = user("Ali", "aa", 1);
    let reza = user("Reza", "bb", 2);
    let eve = user("Eve", "aa", 3);
    let mut at_ali = PeerTable::new();
    let mut at_reza = PeerTable::new();
    note_hello(&mut at_ali, &ali.id, reza.hello(), home(), 50);
    note_hello(&mut at_reza, &reza.id, eve.hello(), home(), 50);
    let packet = chat_packet(&at_ali.get("bb").unwrap(), "aa", &ali.secret, "hi", 1).unwrap();
    assert!(receive(packet, &at_reza, &reza.secret).is_none());
}

#[test]
fn message_that_is_no_text_is_dropped() {
    let ali = user("Ali", "aa", 1);
    let reza = user("Reza", "bb", 2);
    let mut at_reza = PeerTable::new();
    note_hello(&mut at_reza, &reza.id, ali.hello(), home(), 50);
    let key = shared_key(&ali.secret, &reza.pubkey);
    let ciphertext = encrypt_bytes(&key, &[0xff, 0xfe]).unwrap();
    let packet = Packet::Chat { from: "aa".to_string(), ciphertext, timestamp: 0 };
    assert!(receive(packet, &at_reza, &reza.secret).is_none());
    assert!(chat_event("aa".to_string(), vec![0xff]).is_none());
    assert!(chat_event("aa".to_string(), b"ok".to_vec()).is_some());
    assert!(receive(ali.hello(), &at_reza, &reza.secret).is_none());
}

#[test]
fn unreadable_payloads_are_dropped() {
    let ali = user("Ali", "aa", 1);
    let reza = user("Reza", "bb", 2);
    let mut at_reza = PeerTable::new();
    note_hello(&mut at_reza, &reza.id, ali.hello(), home(), 50);
    for ciphertext in ["", "!", "AAAA"] {
        let packet = Packet::File {
            from: "aa".to_string(),
            name: "a.txt".to_string(),
            size: 1,
            index: 0,
            total: 1,
            ciphertext: ciphertext.to_string(),
        };
        assert!(receive(packet, &at_reza, &reza.secret).is_none());
    }
}

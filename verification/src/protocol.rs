//! The packets that peers exchange, how they are framed, and what is made of
//! those that arrive.

use crate::crypto;
use crate::crypto::CryptoError;
use crate::peers::{Endpoint, IpAddress, Peer, PeerTable};
use crate::text;
use vstd::prelude::*;
use vstd::string::*;
use vstd::utf8::*;

verus! {

broadcast use vstd::string::group_string_axioms;

/// The UDP port of announcements.
pub const DISCOVERY_PORT: u16 = 45454;

/// The TCP port of messages.
pub const CHAT_PORT: u16 = 45455;

/// What every announcement starts with.
pub const MAGIC: &'static str = "LAN_TERM_CHAT_V3";

/// A packet.
#[derive(Debug)]
pub enum Packet {
    /// A peer announces itself. It holds public key material only.
    Hello { id: String, name: String, port: u16, pubkey: [u8; 32] },
    /// A chat message, sealed.
    Chat { from: String, ciphertext: String, timestamp: u64 },
    /// A chunk of a file, sealed.
    File { from: String, name: String, size: u64, index: u64, total: u64, ciphertext: String },
}

/// What a packet says.
pub enum PacketView {
    Hello { id: Seq<char>, name: Seq<char>, port: u16, pubkey: Seq<u8> },
    Chat { from: Seq<char>, ciphertext: Seq<char>, timestamp: u64 },
    File {
        from: Seq<char>,
        name: Seq<char>,
        size: u64,
        index: u64,
        total: u64,
        ciphertext: Seq<char>,
    },
}

impl View for Packet {
    type V = PacketView;

    open spec fn view(&self) -> PacketView {
        match self {
            Packet::Hello { id, name, port, pubkey } => PacketView::Hello {
                id: id@,
                name: name@,
                port: *port,
                pubkey: pubkey@,
            },
            Packet::Chat { from, ciphertext, timestamp } => PacketView::Chat {
                from: from@,
                ciphertext: ciphertext@,
                timestamp: *timestamp,
            },
            Packet::File { from, name, size, index, total, ciphertext } => PacketView::File {
                from: from@,
                name: name@,
                size: *size,
                index: *index,
                total: *total,
                ciphertext: ciphertext@,
            },
        }
    }
}

/// What arrived from a peer, opened.
#[derive(Debug)]
pub enum AppEvent {
    IncomingChat { from: String, text: String },
    IncomingFile {
        from: String,
        name: String,
        size: u64,
        index: u64,
        total: u64,
        data: Vec<u8>,
    },
}

/// What an event says.
pub enum EventView {
    IncomingChat { from: Seq<char>, text: Seq<char> },
    IncomingFile {
        from: Seq<char>,
        name: Seq<char>,
        size: u64,
        index: u64,
        total: u64,
        data: Seq<u8>,
    },
}

impl View for AppEvent {
    type V = EventView;

    open spec fn view(&self) -> EventView {
        match self {
            AppEvent::IncomingChat { from, text } => EventView::IncomingChat {
                from: from@,
                text: text@,
            },
            AppEvent::IncomingFile { from, name, size, index, total, data } => {
                EventView::IncomingFile {
                    from: from@,
                    name: name@,
                    size: *size,
                    index: *index,
                    total: *total,
                    data: data@,
                }
            },
        }
    }
}

/// What an optional event says.
pub open spec fn opt_event(e: Option<AppEvent>) -> Option<EventView> {
    match e {
        Some(x) => Some(x@),
        None => None,
    }
}

// ---------------------------------------------------------------------------
// Who we are
// ---------------------------------------------------------------------------

/// This user: a name, an id, and a key pair.
pub struct Identity {
    pub name: String,
    pub id: String,
    pub secret: [u8; 32],
    pub pubkey: [u8; 32],
}

/// The name of the user: what the command line says, else the name of the
/// host, else `user`.
pub open spec fn user_name_of(arg: Option<Seq<char>>, host: Option<Seq<char>>) -> Seq<char> {
    match (arg, host) {
        (Some(a), _) => a,
        (None, Some(h)) => h,
        (None, None) => "user"@,
    }
}

/// The name of the user, where `arg` is the first argument of the command line
/// and `host` the name of the host.
pub fn user_name(arg: Option<String>, host: Option<String>) -> (name: String)
    ensures
        name@ == user_name_of(text::opt_text(arg), text::opt_text(host)),
{
    match arg {
        Some(a) => a,
        None => match host {
            Some(h) => h,
            None => "user".to_owned(),
        },
    }
}

impl Identity {
    /// The keys belong together.
    pub open spec fn wf(&self) -> bool {
        self.pubkey@ == crypto::public_key_of(self.secret@)
    }

    /// The identity of a user with this id and secret key.
    pub fn with_secret(name: String, id: String, secret: [u8; 32]) -> (me: Self)
        ensures
            me.wf(),
            me.name@ == name@,
            me.id@ == id@,
            me.secret == secret,
    {
        let pubkey = crypto::public_key(&secret);
        Identity { name, id, secret, pubkey }
    }

    /// A fresh identity for a user: a random id and a random key pair.
    pub fn fresh(name: String) -> (me: Self)
        ensures
            me.wf(),
            me.name@ == name@,
            exists|bytes: Seq<u8>| bytes.len() == 6 && me.id@ == #[trigger] text::hex_of(bytes),
    {
        let secret = crypto::random_secret();
        let id = crypto::random_id();
        Identity::with_secret(name, id, secret)
    }

    /// The announcement of this user.
    pub open spec fn hello_of(&self) -> PacketView {
        PacketView::Hello {
            id: self.id@,
            name: self.name@,
            port: CHAT_PORT,
            pubkey: self.pubkey@,
        }
    }

    /// The announcement of this user.
    pub fn hello(&self) -> (packet: Packet)
        ensures
            packet@ == self.hello_of(),
    {
        Packet::Hello {
            id: self.id.clone(),
            name: self.name.clone(),
            port: CHAT_PORT,
            pubkey: self.pubkey,
        }
    }
}

// ---------------------------------------------------------------------------
// Framing
// ---------------------------------------------------------------------------

/// Whether `s` starts with `MAGIC`.
pub open spec fn has_magic(s: Seq<char>) -> bool {
    MAGIC@.is_prefix_of(s)
}

/// `s` without the `MAGIC` that it starts with, however often it is repeated.
pub open spec fn without_magic(s: Seq<char>) -> Seq<char>
    decreases s.len(),
    via without_magic_decreases
{
    if has_magic(s) {
        without_magic(s.skip(MAGIC@.len() as int))
    } else {
        s
    }
}

#[via_fn]
proof fn without_magic_decreases(s: Seq<char>) {
    reveal_strlit("LAN_TERM_CHAT_V3");
}

/// The bytes of the datagram that announces `body`.
pub open spec fn datagram_of(body: Seq<char>) -> Seq<u8> {
    encode_utf8(MAGIC@ + body)
}

/// The body of a datagram, or `None` where it is no announcement.
pub open spec fn body_of(datagram: Seq<u8>) -> Option<Seq<char>> {
    if valid_utf8(datagram) && has_magic(decode_utf8(datagram)) {
        Some(without_magic(decode_utf8(datagram)))
    } else {
        None
    }
}

/// The bytes of the datagram that announces `body`.
pub fn datagram(body: &str) -> (bytes: Vec<u8>)
    ensures
        bytes@ == datagram_of(body@),
{
    let mut framed = MAGIC.to_owned();
    framed.append(body);
    framed.as_str().as_bytes_vec()
}

fn magic_at(chars: &Vec<char>, magic: &Vec<char>, from: usize) -> (found: bool)
    requires
        from <= chars@.len(),
    ensures
        found == magic@.is_prefix_of(chars@.skip(from as int)),
{
    let len: usize = chars.len();
    if len - from < magic.len() {
        return false;
    }
    let mut i: usize = 0;
    while i < magic.len()
        invariant
            len == chars@.len(),
            i <= magic@.len(),
            from + magic@.len() <= chars@.len(),
            forall|j: int| 0 <= j < i ==> magic@[j] == chars@[from + j],
        decreases magic@.len() - i,
    {
        if magic[i] != chars[from + i] {
            assert(chars@.skip(from as int).subrange(0, magic@.len() as int)[i as int] == chars@[from
                + i]);
            return false;
        }
        i += 1;
    }
    assert(magic@ =~= chars@.skip(from as int).subrange(0, magic@.len() as int));
    true
}

/// The body of a datagram, or `None` where it is no announcement.
pub fn datagram_body(datagram: Vec<u8>) -> (body: Option<String>)
    ensures
        text::opt_text(body) == body_of(datagram@),
{
    let framed = match text::text_from_utf8(datagram) {
        None => {
            return None;
        },
        Some(t) => t,
    };
    let chars = text::chars_of(framed.as_str());
    let magic = text::chars_of(MAGIC);
    proof {
        reveal_strlit("LAN_TERM_CHAT_V3");
    }
    assert(chars@.skip(0) == chars@);
    if !magic_at(&chars, &magic, 0) {
        return None;
    }
    let len: usize = chars.len();
    let mut from: usize = 0;
    while magic_at(&chars, &magic, from)
        invariant
            from <= len == chars@.len(),
            magic@ == MAGIC@,
            MAGIC@.len() == 16,
            without_magic(chars@.skip(from as int)) == without_magic(chars@),
        decreases chars@.len() - from,
    {
        assert(chars@.skip(from as int).skip(16) == chars@.skip(from + 16));
        from += 16;
    }
    let body = text::string_of(chars.as_slice(), from, len);
    assert(body@ == chars@.skip(from as int));
    Some(body)
}

/// The line that carries a packet: its text and a line feed.
pub fn packet_line(packet: Vec<u8>) -> (line: Vec<u8>)
    ensures
        line@ == packet@.push(10),
{
    let mut line = packet;
    line.push(10);
    line
}

/// The text of the packet in a line that arrived.
pub fn line_body(line: &str) -> (body: String)
    ensures
        body@ == text::trimmed(line@),
{
    text::trim(line)
}

/// An announcement gives back the body that was framed, unless that body itself
/// starts with `MAGIC`.
pub proof fn law_datagram_gives_body_back(body: Seq<char>)
    requires
        !has_magic(body),
    ensures
        body_of(datagram_of(body)) == Some(body),
{
    let framed = MAGIC@ + body;
    encode_utf8_valid_utf8(framed);
    encode_utf8_decode_utf8(framed);
    assert(MAGIC@ =~= framed.subrange(0, MAGIC@.len() as int));
    assert(framed.skip(MAGIC@.len() as int) =~= body);
    reveal_with_fuel(without_magic, 2);
}

/// The line of a packet gives its text back, where that text has no white space
/// at its ends.
pub proof fn law_line_gives_packet_back(packet: Seq<char>)
    requires
        packet.len() > 0,
        !text::is_space(packet.first()),
        !text::is_space(packet.last()),
    ensures
        text::trimmed(packet.push('\n')) == packet,
{
    let line = packet.push('\n');
    assert(line.first() == packet.first());
    assert(text::trimmed_start(line) == line);
    assert(line.last() == '\n');
    assert(text::is_space('\n'));
    assert(line.drop_last() =~= packet);
    reveal_with_fuel(text::trimmed_end, 2);
}

// ---------------------------------------------------------------------------
// Announcements
// ---------------------------------------------------------------------------

/// Whether `peer` is what an announcement that came from `src` at `now` says.
pub open spec fn is_announced(peer: Peer, hello: PacketView, src: IpAddress, now: u64) -> bool {
    match hello {
        PacketView::Hello { id, name, port, pubkey } => {
            &&& peer.id@ == id
            &&& peer.name@ == name
            &&& peer.addr == (Endpoint { ip: src, port })
            &&& peer.last_seen == now
            &&& peer.pubkey@ == pubkey
        },
        _ => false,
    }
}

/// Whether a packet announces someone other than `my_id`.
pub open spec fn announces_other(packet: PacketView, my_id: Seq<char>) -> bool {
    match packet {
        PacketView::Hello { id, .. } => id != my_id,
        _ => false,
    }
}

/// Takes note of an announcement that came from `src` at `now`, and says where
/// the answer goes. Other packets, and our own announcements, are ignored.
pub fn note_hello(
    table: &mut PeerTable,
    my_id: &str,
    packet: Packet,
    src: IpAddress,
    now: u64,
) -> (answer: Option<Endpoint>)
    requires
        old(table).wf(),
    ensures
        final(table).wf(),
        announces_other(packet@, my_id@) ==> answer == Some(
            (Endpoint { ip: src, port: DISCOVERY_PORT }),
        ) && exists|peer: Peer|
            #[trigger] is_announced(peer, packet@, src, now) && final(table)@ == old(table)@.insert(
                peer.id@,
                peer,
            ),
        !announces_other(packet@, my_id@) ==> answer is None && final(table)@ == old(table)@,
{
    match packet {
        Packet::Hello { id, name, port, pubkey } => {
            if text::same_text(id.as_str(), my_id) {
                return None;
            }
            let peer = Peer { id, name, addr: Endpoint { ip: src, port }, last_seen: now, pubkey };
            let ghost noted = peer;
            table.insert(peer);
            assert(is_announced(noted, packet@, src, now));
            Some(Endpoint { ip: src, port: DISCOVERY_PORT })
        },
        _ => None,
    }
}

// ---------------------------------------------------------------------------
// Messages
// ---------------------------------------------------------------------------

/// What is made of a packet that arrived: where its sender is known and its
/// payload opens under the key shared with that sender, the event that it
/// carries; else nothing. The text of a chat message must be UTF-8.
pub open spec fn received_event(
    packet: PacketView,
    peers: Map<Seq<char>, Peer>,
    secret: Seq<u8>,
) -> Option<EventView> {
    match packet {
        PacketView::Hello { .. } => None,
        PacketView::Chat { from, ciphertext, .. } => if peers.dom().contains(from) {
            match crypto::opened_payload(
                crypto::shared_key_of(secret, peers[from].pubkey@),
                ciphertext,
            ) {
                Ok(bytes) => chat_event_of(from, bytes),
                Err(_) => None,
            }
        } else {
            None
        },
        PacketView::File { from, name, size, index, total, ciphertext } => if peers.dom().contains(
            from,
        ) {
            match crypto::opened_payload(
                crypto::shared_key_of(secret, peers[from].pubkey@),
                ciphertext,
            ) {
                Ok(data) => Some(
                    EventView::IncomingFile { from, name, size, index, total, data },
                ),
                Err(_) => None,
            }
        } else {
            None
        },
    }
}

/// The event of a chat message whose payload opened to `bytes`.
pub open spec fn chat_event_of(from: Seq<char>, bytes: Seq<u8>) -> Option<EventView> {
    if valid_utf8(bytes) {
        Some(EventView::IncomingChat { from, text: decode_utf8(bytes) })
    } else {
        None
    }
}

/// The event of a chat message whose payload opened to `bytes`.
pub fn chat_event(from: String, bytes: Vec<u8>) -> (event: Option<AppEvent>)
    ensures
        opt_event(event) == chat_event_of(from@, bytes@),
{
    match text::text_from_utf8(bytes) {
        Some(text) => Some(AppEvent::IncomingChat { from, text }),
        None => None,
    }
}

/// Whether what arrived as `event` was sealed under the key shared with the peer
/// that `packet` names as its sender.
pub open spec fn is_authentic(
    packet: PacketView,
    peers: Map<Seq<char>, Peer>,
    secret: Seq<u8>,
    event: EventView,
) -> bool {
    match (packet, event) {
        (
            PacketView::Chat { from, ciphertext, .. },
            EventView::IncomingChat { from: sender, text },
        ) => {
            &&& sender == from
            &&& peers.dom().contains(from)
            &&& crypto::is_sealed_payload(
                crypto::shared_key_of(secret, peers[from].pubkey@),
                ciphertext,
                encode_utf8(text),
            )
        },
        (
            PacketView::File { from, ciphertext, .. },
            EventView::IncomingFile { from: sender, data, .. },
        ) => {
            &&& sender == from
            &&& peers.dom().contains(from)
            &&& crypto::is_sealed_payload(
                crypto::shared_key_of(secret, peers[from].pubkey@),
                ciphertext,
                data,
            )
        },
        _ => false,
    }
}

/// What is made of a packet that arrived. Only what was sealed under the key
/// shared with its sender becomes an event.
pub fn receive(packet: Packet, table: &PeerTable, my_secret: &[u8; 32]) -> (event: Option<AppEvent>)
    requires
        table.wf(),
    ensures
        opt_event(event) == received_event(packet@, table@, my_secret@),
        event matches Some(e) ==> is_authentic(packet@, table@, my_secret@, e@),
{
    match packet {
        Packet::Hello { .. } => None,
        Packet::Chat { from, ciphertext, .. } => match table.get(from.as_str()) {
            None => None,
            Some(peer) => {
                let key = crypto::shared_key(my_secret, &peer.pubkey);
                match crypto::decrypt_bytes(&key, ciphertext.as_str()) {
                    Ok(bytes) => {
                        proof {
                            if valid_utf8(bytes@) {
                                decode_utf8_encode_utf8(bytes@);
                            }
                        }
                        chat_event(from, bytes)
                    },
                    Err(_) => None,
                }
            },
        },
        Packet::File { from, name, size, index, total, ciphertext } => match table.get(
            from.as_str(),
        ) {
            None => None,
            Some(peer) => {
                let key = crypto::shared_key(my_secret, &peer.pubkey);
                match crypto::decrypt_bytes(&key, ciphertext.as_str()) {
                    Ok(data) => Some(
                        AppEvent::IncomingFile { from, name, size, index, total, data },
                    ),
                    Err(_) => None,
                }
            },
        },
    }
}

/// Whether `packet` reaches the user behind `pubkey` as `event`: whoever holds
/// the secret of that public key, and knows `from` by the public key of
/// `secret`, receives it so.
pub open spec fn reaches_as(
    packet: PacketView,
    pubkey: Seq<u8>,
    from: Seq<char>,
    secret: Seq<u8>,
    event: EventView,
) -> bool {
    forall|other: Seq<u8>, known: Map<Seq<char>, Peer>|
        #![trigger received_event(packet, known, other)]
        other.len() == 32 && pubkey == crypto::public_key_of(other) && known.dom().contains(from)
            && known[from].pubkey@ == crypto::public_key_of(secret) ==> received_event(
            packet,
            known,
            other,
        ) == Some(event)
}

/// The packet that carries `message` to `peer`, sealed under the key shared with
/// that peer. The peer receives the text that was sent.
pub fn chat_packet(
    peer: &Peer,
    my_id: &str,
    my_secret: &[u8; 32],
    message: &str,
    timestamp: u64,
) -> (packet: Result<Packet, CryptoError>)
    ensures
        packet is Ok <==> encode_utf8(message@).len() <= crypto::MESSAGE_LIMIT,
        packet matches Err(e) ==> e == CryptoError::Encryption,
        packet matches Ok(p) ==> p@ matches PacketView::Chat { from, ciphertext, timestamp: at }
            && from == my_id@ && at == timestamp && crypto::opened_payload(
            crypto::shared_key_of(my_secret@, peer.pubkey@),
            ciphertext,
        ) == Ok::<Seq<u8>, CryptoError>(encode_utf8(message@)),
        packet matches Ok(p) ==> reaches_as(
            p@,
            peer.pubkey@,
            my_id@,
            my_secret@,
            EventView::IncomingChat { from: my_id@, text: message@ },
        ),
{
    let key = crypto::shared_key(my_secret, &peer.pubkey);
    match crypto::encrypt_bytes(&key, message.as_bytes()) {
        Err(e) => Err(e),
        Ok(ciphertext) => {
            let packet = Packet::Chat { from: my_id.to_owned(), ciphertext, timestamp };
            proof {
                encode_utf8_valid_utf8(message@);
                encode_utf8_decode_utf8(message@);
            }
            Ok(packet)
        },
    }
}

/// Users who know each other by their announcements receive what they send each
/// other: a packet that `me` made for `other`, as `other` announced itself,
/// arrives as the event that it carries with `other`, who knows `me` as `me`
/// announced itself.
pub proof fn law_announced_users_reach_each_other(
    me: Identity,
    other: Identity,
    peer: Peer,
    known: Map<Seq<char>, Peer>,
    packet: PacketView,
    event: EventView,
    src: IpAddress,
    now: u64,
    my_src: IpAddress,
    my_now: u64,
)
    requires
        me.wf(),
        other.wf(),
        is_announced(peer, other.hello_of(), src, now),
        known.dom().contains(me.id@),
        is_announced(known[me.id@], me.hello_of(), my_src, my_now),
        reaches_as(packet, peer.pubkey@, me.id@, me.secret@, event),
    ensures
        received_event(packet, known, other.secret@) == Some(event),
{
    assert(other.secret@.len() == 32);
}

/// A datagram is an announcement exactly where it is UTF-8 and starts with the magic
/// word; its body is then the text without that word.
pub proof fn law_announcements_start_with_magic(datagram: Seq<u8>)
    ensures
        body_of(datagram) is Some <==> valid_utf8(datagram) && "LAN_TERM_CHAT_V3"@.len()
            <= decode_utf8(datagram).len() && decode_utf8(datagram).subrange(
            0,
            "LAN_TERM_CHAT_V3"@.len() as int,
        ) == "LAN_TERM_CHAT_V3"@,
        body_of(datagram) matches Some(body) ==> body == without_magic(decode_utf8(datagram)),
{
    let word = "LAN_TERM_CHAT_V3"@;
    if valid_utf8(datagram) {
        let s = decode_utf8(datagram);
        assert(word.is_prefix_of(s) <==> word.len() <= s.len() && word =~= s.subrange(
            0,
            word.len() as int,
        ));
    }
}

/// The magic word is taken off however often it is repeated, and nothing else is.
pub proof fn law_only_magic_is_taken_off(s: Seq<char>)
    ensures
        without_magic("LAN_TERM_CHAT_V3"@ + s) == without_magic(s),
        !("LAN_TERM_CHAT_V3"@.is_prefix_of(s)) ==> without_magic(s) == s,
{
    let framed = "LAN_TERM_CHAT_V3"@ + s;
    assert(MAGIC@ =~= framed.subrange(0, MAGIC@.len() as int));
    assert(framed.skip(MAGIC@.len() as int) =~= s);
}

/// An announcement says who the user is: the id, the name, the chat port and the
/// public key of the user.
pub proof fn law_hello_says_who(me: Identity)
    ensures
        me.hello_of() == (PacketView::Hello {
            id: me.id@,
            name: me.name@,
            port: 45455,
            pubkey: me.pubkey@,
        }),
{
}

/// A peer is known as it announced itself: under the id, name, port and key of the
/// announcement, at the address that the announcement came from.
pub proof fn law_peer_is_known_as_announced(
    peer: Peer,
    id: Seq<char>,
    name: Seq<char>,
    port: u16,
    pubkey: Seq<u8>,
    src: IpAddress,
    now: u64,
)
    requires
        is_announced(peer, PacketView::Hello { id, name, port, pubkey }, src, now),
    ensures
        peer.id@ == id,
        peer.name@ == name,
        peer.addr.port == port,
        peer.addr.ip == src,
        peer.pubkey@ == pubkey,
        peer.last_seen == now,
{
}

/// Every announcement counts but our own, and nothing else does.
pub proof fn law_only_others_are_announced(
    id: Seq<char>,
    name: Seq<char>,
    port: u16,
    pubkey: Seq<u8>,
    my_id: Seq<char>,
    packet: PacketView,
)
    ensures
        announces_other(PacketView::Hello { id, name, port, pubkey }, my_id) <==> id != my_id,
        packet !is Hello ==> !announces_other(packet, my_id),
{
}

/// What a stranger sends is dropped, and so is an announcement among the messages and
/// a payload that does not open under the key shared with its sender.
pub proof fn law_only_known_senders_are_heard(
    known: Map<Seq<char>, Peer>,
    secret: Seq<u8>,
    from: Seq<char>,
    name: Seq<char>,
    ciphertext: Seq<char>,
    size: u64,
    index: u64,
    total: u64,
    timestamp: u64,
    packet: PacketView,
)
    ensures
        ({
            let chat = PacketView::Chat { from, ciphertext, timestamp };
            let file = PacketView::File { from, name, size, index, total, ciphertext };
            let opened = crypto::opened_payload(
                crypto::shared_key_of(secret, known[from].pubkey@),
                ciphertext,
            );
            &&& !known.dom().contains(from) || opened is Err ==> received_event(chat, known, secret)
                is None && received_event(file, known, secret) is None
            &&& known.dom().contains(from) && opened is Ok ==> received_event(file, known, secret)
                == Some(EventView::IncomingFile { from, name, size, index, total, data: opened->Ok_0 })
        }),
        packet is Hello ==> received_event(packet, known, secret) is None,
{
}

/// A chat message is received as the text that was sealed, and one that is not UTF-8
/// is dropped.
pub proof fn law_chat_is_received_as_text(
    known: Map<Seq<char>, Peer>,
    secret: Seq<u8>,
    from: Seq<char>,
    ciphertext: Seq<char>,
    timestamp: u64,
    text: Seq<char>,
    bytes: Seq<u8>,
)
    requires
        known.dom().contains(from),
        crypto::opened_payload(crypto::shared_key_of(secret, known[from].pubkey@), ciphertext)
            == Ok::<Seq<u8>, CryptoError>(bytes),
    ensures
        ({
            let event = received_event(
                PacketView::Chat { from, ciphertext, timestamp },
                known,
                secret,
            );
            &&& bytes == encode_utf8(text) ==> event == Some(EventView::IncomingChat { from, text })
            &&& !valid_utf8(bytes) ==> event is None
        }),
{
    encode_utf8_valid_utf8(text);
    encode_utf8_decode_utf8(text);
}

/// The name of the user is that of the command line, else that of the host, else
/// `user`.
pub proof fn law_user_name_is_the_first_given(arg: Seq<char>, host: Seq<char>, other: Option<Seq<char>>)
    ensures
        user_name_of(Some(arg), other) == arg,
        user_name_of(None, Some(host)) == host,
        user_name_of(None, None) == "user"@,
{
}

/// What is received was sealed by someone who holds the key shared with the peer that is
/// named as its sender: nothing that arrives in the name of a peer is taken from others.
pub proof fn law_received_events_are_authentic(
    packet: PacketView,
    known: Map<Seq<char>, Peer>,
    secret: Seq<u8>,
    event: EventView,
)
    requires
        is_authentic(packet, known, secret, event),
    ensures
        match event {
            EventView::IncomingChat { from, text } => known.dom().contains(from) && (
            packet matches PacketView::Chat { from: sender, ciphertext, .. } && sender == from
                && crypto::is_sealed_payload(
                crypto::shared_key_of(secret, known[from].pubkey@),
                ciphertext,
                encode_utf8(text),
            )),
            EventView::IncomingFile { from, data, .. } => known.dom().contains(from) && (
            packet matches PacketView::File { from: sender, ciphertext, .. } && sender == from
                && crypto::is_sealed_payload(
                crypto::shared_key_of(secret, known[from].pubkey@),
                ciphertext,
                data,
            )),
        },
{
}

/// A datagram is the magic word and the body, in UTF-8.
pub proof fn law_datagram_is_magic_and_body(body: Seq<char>)
    ensures
        datagram_of(body) == encode_utf8("LAN_TERM_CHAT_V3"@ + body),
{
}

} // verus!

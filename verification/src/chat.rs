//! The chat: what the user sees and types, and what every event does to it.

use crate::clock;
use crate::download;
use crate::keyed;
use crate::keyed::Keyed;
use crate::order;
use crate::path;
use crate::peers;
use crate::peers::{Peer, PeerTable};
use crate::picker;
use crate::picker::{ChoiceView, FileEntry, FilePicker, PickerChoice, PickerView};
use crate::text;
use crate::transfer;
use crate::transfer::{IncomingFile, IncomingView};
use vstd::prelude::*;
use vstd::slice::*;
use vstd::string::*;
use vstd::utf8::*;

verus! {

broadcast use vstd::string::group_string_axioms;

// ---------------------------------------------------------------------------
// Conversations
// ---------------------------------------------------------------------------

/// One line of a conversation.
#[derive(Debug)]
pub struct Message {
    /// Who wrote it: our name, or the id of the peer.
    pub from: String,
    pub text: String,
    pub incoming: bool,
    /// The time of day at which it was written or arrived.
    pub time: String,
    /// Where the file is that the message tells of.
    pub file_path: Option<Vec<u8>>,
}

/// What a message says.
#[verifier::ext_equal]
pub struct MessageView {
    pub from: Seq<char>,
    pub text: Seq<char>,
    pub incoming: bool,
    pub time: Seq<char>,
    pub file_path: Option<Seq<u8>>,
}

impl View for Message {
    type V = MessageView;

    open spec fn view(&self) -> MessageView {
        MessageView {
            from: self.from@,
            text: self.text@,
            incoming: self.incoming,
            time: self.time@,
            file_path: download::opt_view(self.file_path),
        }
    }
}

/// The messages exchanged with one peer, oldest first.
#[derive(Debug)]
pub struct Talk {
    pub messages: Vec<Message>,
}

impl View for Talk {
    type V = Seq<MessageView>;

    open spec fn view(&self) -> Seq<MessageView> {
        self.messages@.map_values(|m: Message| m@)
    }
}

/// The messages exchanged with the peer `id`.
pub open spec fn talk_of(talks: Map<Seq<char>, Seq<MessageView>>, id: Seq<char>) -> Seq<
    MessageView,
> {
    if talks.dom().contains(id) {
        talks[id]
    } else {
        Seq::empty()
    }
}

/// The conversations after `message` was added to the one with the peer `id`.
pub open spec fn with_message(
    talks: Map<Seq<char>, Seq<MessageView>>,
    id: Seq<char>,
    message: MessageView,
) -> Map<Seq<char>, Seq<MessageView>> {
    talks.insert(id, talk_of(talks, id).push(message))
}

/// Adds `message` to the conversation with the peer `id`.
pub fn add_message(talks: &mut Keyed<Talk>, id: &str, message: Message)
    requires
        old(talks).wf(),
    ensures
        final(talks).wf(),
        final(talks).views() == with_message(old(talks).views(), id@, message@),
{
    let ghost before = talks@;
    let mut talk = match talks.take(id) {
        Some(t) => t,
        None => Talk { messages: Vec::new() },
    };
    let ghost said = talk@;
    let ghost new = message@;
    assert(said =~= talk_of(keyed::views_of(before), id@));
    talk.messages.push(message);
    assert(talk@ =~= said.push(new));
    let ghost longer = talk;
    talks.insert(id, talk);
    proof {
        assert(before.remove(id@).insert(id@, longer) =~= before.insert(id@, longer));
        keyed::lemma_views(before, id@, longer);
    }
}

// ---------------------------------------------------------------------------
// Keys and actions
// ---------------------------------------------------------------------------

/// A key of the keyboard.
#[derive(Clone, Copy, Debug)]
pub enum Key {
    Esc,
    Up,
    Down,
    Enter,
    Tab,
    Backspace,
    Char(char),
    /// Any other key.
    Other,
}

/// Something that happened to a key.
#[derive(Clone, Copy, Debug)]
pub struct KeyInput {
    pub key: Key,
    /// Whether the control key was held.
    pub control: bool,
    /// Whether the key was pressed, rather than repeated or released.
    pub pressed: bool,
}

/// What is to be done for the chat.
#[derive(Debug)]
pub enum Action {
    /// Nothing.
    Wait,
    /// The home directory is to be read, for `open_picker`.
    OpenPicker,
    /// The directory that the picker has moved to is to be read, for
    /// `list_directory`.
    ListDirectory,
    /// The text is to be sent to the peer; `chat_done` takes the outcome.
    SendChat { peer: Peer, text: String },
    /// The file is to be sent to the peer; `file_done` takes the outcome.
    SendFile { peer: Peer, path: Vec<u8> },
}

/// What an action says.
#[verifier::ext_equal]
pub enum ActionView {
    Wait,
    OpenPicker,
    ListDirectory,
    SendChat { peer: Peer, text: Seq<char> },
    SendFile { peer: Peer, path: Seq<u8> },
}

impl View for Action {
    type V = ActionView;

    open spec fn view(&self) -> ActionView {
        match self {
            Action::Wait => ActionView::Wait,
            Action::OpenPicker => ActionView::OpenPicker,
            Action::ListDirectory => ActionView::ListDirectory,
            Action::SendChat { peer, text } => ActionView::SendChat { peer: *peer, text: text@ },
            Action::SendFile { peer, path } => ActionView::SendFile { peer: *peer, path: path@ },
        }
    }
}

// ---------------------------------------------------------------------------
// The state of the chat
// ---------------------------------------------------------------------------

/// The panel of the users.
pub const USERS_TAB: usize = 0;

/// The panel of the message that is being typed.
pub const INPUT_TAB: usize = 2;

/// How many panels there are.
pub const TABS: usize = 3;

/// The chat.
#[derive(Debug)]
pub struct Chat {
    /// Our name.
    pub name: String,
    /// The peers that are shown.
    pub peers: Vec<Peer>,
    /// The peer under the cursor.
    pub selected: usize,
    /// The message that is being typed.
    pub input: String,
    /// The conversations, by the id of the peer.
    pub talks: Keyed<Talk>,
    /// The panel that is active.
    pub active_tab: usize,
    pub should_quit: bool,
    pub picker: Option<FilePicker>,
    /// The files that are arriving.
    pub incoming: Keyed<IncomingFile>,
}

/// What the chat holds.
#[verifier::ext_equal]
pub struct ChatView {
    pub name: Seq<char>,
    pub peers: Seq<Peer>,
    pub selected: int,
    pub input: Seq<char>,
    pub talks: Map<Seq<char>, Seq<MessageView>>,
    pub active_tab: int,
    pub should_quit: bool,
    pub picker: Option<PickerView>,
    pub incoming: Map<Seq<char>, IncomingView>,
}

/// What an optional picker shows.
pub open spec fn opt_picker(p: Option<FilePicker>) -> Option<PickerView> {
    match p {
        Some(x) => Some(x@),
        None => None,
    }
}

impl View for Chat {
    type V = ChatView;

    open spec fn view(&self) -> ChatView {
        ChatView {
            name: self.name@,
            peers: self.peers@,
            selected: self.selected as int,
            input: self.input@,
            talks: self.talks.views(),
            active_tab: self.active_tab as int,
            should_quit: self.should_quit,
            picker: opt_picker(self.picker),
            incoming: self.incoming.views(),
        }
    }
}

impl ChatView {
    /// The cursor stands on a peer where there is one, a panel is active, and
    /// the cursor of an open picker stands on an entry.
    pub open spec fn wf(self) -> bool {
        &&& 0 <= self.selected
        &&& self.peers.len() > 0 ==> self.selected < self.peers.len()
        &&& 0 <= self.active_tab < TABS
        &&& self.picker matches Some(p) ==> p.wf()
    }

    /// The peer under the cursor.
    pub open spec fn chosen(self) -> Peer {
        self.peers[self.selected]
    }

    /// What a key does while the picker `p` is open: Esc closes it, the arrows
    /// move its cursor, and Enter opens a directory or sends a file to the peer
    /// under the cursor. No other key does anything.
    pub open spec fn after_picker_key(self, p: PickerView, key: Key) -> (ChatView, ActionView) {
        match key {
            Key::Esc => (ChatView { picker: None, ..self }, ActionView::Wait),
            Key::Up => (ChatView { picker: Some(p.moved_up()), ..self }, ActionView::Wait),
            Key::Down => (ChatView { picker: Some(p.moved_down()), ..self }, ActionView::Wait),
            Key::Enter => match p.choice() {
                ChoiceView::Nothing => (self, ActionView::Wait),
                ChoiceView::Open(path) => (
                    ChatView { picker: Some(p.entered(path)), ..self },
                    ActionView::ListDirectory,
                ),
                ChoiceView::Send(path) => if self.peers.len() > 0 {
                    (
                        ChatView { picker: None, ..self },
                        ActionView::SendFile { peer: self.chosen(), path },
                    )
                } else {
                    (self, ActionView::Wait)
                },
            },
            _ => (self, ActionView::Wait),
        }
    }

    /// What Enter does in the chat: the command `/files` opens the picker, and
    /// any other text that is not blank is sent to the peer under the cursor.
    /// Where there is no peer nothing happens.
    pub open spec fn after_enter(self) -> (ChatView, ActionView) {
        let command = text::trimmed(self.input);
        if self.peers.len() == 0 {
            (self, ActionView::Wait)
        } else if command == "/files"@ {
            (ChatView { input: Seq::empty(), ..self }, ActionView::OpenPicker)
        } else if command.len() > 0 {
            (self, ActionView::SendChat { peer: self.chosen(), text: command })
        } else {
            (self, ActionView::Wait)
        }
    }

    /// What a key does in the chat.
    pub open spec fn after_chat_key(self, key: Key, control: bool) -> (ChatView, ActionView) {
        match key {
            Key::Char(c) => if (control && c == 'c') || (c == 'q' && self.input.len() == 0) {
                (ChatView { should_quit: true, ..self }, ActionView::Wait)
            } else {
                (
                    ChatView { input: self.input.push(c), active_tab: INPUT_TAB as int, ..self },
                    ActionView::Wait,
                )
            },
            Key::Tab => (
                ChatView { active_tab: (self.active_tab + 1) % (TABS as int), ..self },
                ActionView::Wait,
            ),
            Key::Up => if self.peers.len() > 0 {
                (
                    ChatView {
                        selected: picker::cursor_up(self.selected),
                        active_tab: USERS_TAB as int,
                        ..self
                    },
                    ActionView::Wait,
                )
            } else {
                (self, ActionView::Wait)
            },
            Key::Down => if self.peers.len() > 0 {
                (
                    ChatView {
                        selected: picker::cursor_down(self.peers.len() as int, self.selected),
                        active_tab: USERS_TAB as int,
                        ..self
                    },
                    ActionView::Wait,
                )
            } else {
                (self, ActionView::Wait)
            },
            Key::Enter => self.after_enter(),
            Key::Backspace => if self.input.len() > 0 {
                (ChatView { input: self.input.drop_last(), ..self }, ActionView::Wait)
            } else {
                (self, ActionView::Wait)
            },
            _ => (self, ActionView::Wait),
        }
    }

    /// What a key does, and what is to be done for it. Only presses count, and
    /// an open picker takes every one of them.
    pub open spec fn after_key(self, input: KeyInput) -> (ChatView, ActionView) {
        if !input.pressed {
            (self, ActionView::Wait)
        } else {
            match self.picker {
                Some(p) => self.after_picker_key(p, input.key),
                None => self.after_chat_key(input.key, input.control),
            }
        }
    }

    /// The chat with one more message in the conversation with the peer `id`.
    pub open spec fn saying(self, id: Seq<char>, message: MessageView) -> ChatView {
        ChatView { talks: with_message(self.talks, id, message), ..self }
    }

    /// The chat that awaits the file `name` from `from`. Where it did not await it
    /// yet, the file is stored at `path` and has this size and number of chunks.
    pub open spec fn placing(
        self,
        from: Seq<char>,
        name: Seq<char>,
        size: u64,
        total: u64,
        path: Seq<u8>,
    ) -> ChatView {
        let key = transfer::transfer_key_of(from, name);
        if self.incoming.dom().contains(key) {
            self
        } else {
            ChatView {
                incoming: self.incoming.insert(
                    key,
                    IncomingView { path, size, total, received: 0 },
                ),
                ..self
            }
        }
    }

    /// The chat with these peers. The cursor stays where it is unless there are
    /// too few peers; where there are none it waits for them.
    pub open spec fn showing(self, peers: Seq<Peer>) -> ChatView {
        ChatView {
            peers,
            selected: if peers.len() > 0 && self.selected >= peers.len() {
                peers.len() - 1
            } else {
                self.selected
            },
            ..self
        }
    }
}

impl Chat {
    /// The chat holds together.
    pub open spec fn wf(&self) -> bool {
        &&& self@.wf()
        &&& self.talks.wf()
        &&& self.incoming.wf()
    }

    /// A chat in which nothing has happened, for the user `name`.
    pub fn new(name: String) -> (chat: Self)
        ensures
            chat.wf(),
            chat@ == (ChatView {
                name: name@,
                peers: Seq::empty(),
                selected: 0,
                input: Seq::empty(),
                talks: Map::empty(),
                active_tab: INPUT_TAB as int,
                should_quit: false,
                picker: None,
                incoming: Map::empty(),
            }),
    {
        let talks: Keyed<Talk> = Keyed::new();
        let incoming: Keyed<IncomingFile> = Keyed::new();
        assert(talks.views() =~= Map::<Seq<char>, Seq<MessageView>>::empty());
        assert(incoming.views() =~= Map::<Seq<char>, IncomingView>::empty());
        let chat = Chat {
            name,
            peers: Vec::new(),
            selected: 0,
            input: String::new(),
            talks,
            active_tab: INPUT_TAB,
            should_quit: false,
            picker: None,
            incoming,
        };
        assert(chat@.peers =~= Seq::<Peer>::empty());
        assert(chat@.input =~= Seq::<char>::empty());
        chat
    }

    /// Shows the peers of `table` in the order of their names.
    pub fn show_peers(&mut self, table: &PeerTable)
        requires
            old(self).wf(),
            table.wf(),
        ensures
            final(self).wf(),
            final(self)@ == old(self)@.showing(final(self)@.peers),
            order::is_sorted(final(self)@.peers),
            peers::lists(final(self)@.peers, table@),
            peers::is_ordered_by_lower_case_name(final(self)@.peers),
    {
        self.peers = table.by_name();
        if self.selected >= self.peers.len() && !self.peers.is_empty() {
            self.selected = self.peers.len() - 1;
        }
    }

    // -----------------------------------------------------------------------
    // Keys
    // -----------------------------------------------------------------------

    fn picker_key(&mut self, key: Key) -> (action: Action)
        requires
            old(self).wf(),
            old(self).picker is Some,
        ensures
            final(self).wf(),
            (final(self)@, action@) == old(self)@.after_picker_key(old(self)@.picker->0, key),
    {
        let mut open: Option<FilePicker> = None;
        std::mem::swap(&mut open, &mut self.picker);
        let mut picker = match open {
            Some(p) => p,
            None => {
                return Action::Wait;
            },
        };
        match key {
            Key::Esc => Action::Wait,
            Key::Up => {
                picker.move_up();
                self.picker = Some(picker);
                Action::Wait
            },
            Key::Down => {
                picker.move_down();
                self.picker = Some(picker);
                Action::Wait
            },
            Key::Enter => match picker.choice() {
                PickerChoice::Nothing => {
                    self.picker = Some(picker);
                    Action::Wait
                },
                PickerChoice::Open(path) => {
                    picker.enter(path);
                    self.picker = Some(picker);
                    Action::ListDirectory
                },
                PickerChoice::Send(path) => if self.peers.is_empty() {
                    self.picker = Some(picker);
                    Action::Wait
                } else {
                    Action::SendFile { peer: self.peers[self.selected].clone(), path }
                },
            },
            _ => {
                self.picker = Some(picker);
                Action::Wait
            },
        }
    }

    fn enter_key(&mut self) -> (action: Action)
        requires
            old(self).wf(),
        ensures
            final(self).wf(),
            (final(self)@, action@) == old(self)@.after_enter(),
    {
        let command = text::trim(self.input.as_str());
        if self.peers.is_empty() {
            return Action::Wait;
        }
        if text::same_text(command.as_str(), "/files") {
            self.input = String::new();
            assert(self.input@ =~= Seq::<char>::empty());
            return Action::OpenPicker;
        }
        if command.as_str().is_empty() {
            return Action::Wait;
        }
        Action::SendChat { peer: self.peers[self.selected].clone(), text: command }
    }

    fn chat_key(&mut self, key: Key, control: bool) -> (action: Action)
        requires
            old(self).wf(),
        ensures
            final(self).wf(),
            (final(self)@, action@) == old(self)@.after_chat_key(key, control),
    {
        match key {
            Key::Char(c) => {
                if (control && c == 'c') || (c == 'q' && self.input.as_str().is_empty()) {
                    self.should_quit = true;
                } else {
                    self.input.push(c);
                    self.active_tab = INPUT_TAB;
                }
            },
            Key::Tab => {
                self.active_tab = (self.active_tab + 1) % TABS;
            },
            Key::Up => {
                if !self.peers.is_empty() {
                    self.selected = self.selected.saturating_sub(1);
                    self.active_tab = USERS_TAB;
                }
            },
            Key::Down => {
                if !self.peers.is_empty() {
                    let last: usize = self.peers.len() - 1;
                    if self.selected < last {
                        self.selected = self.selected + 1;
                    }
                    self.active_tab = USERS_TAB;
                }
            },
            Key::Enter => {
                return self.enter_key();
            },
            Key::Backspace => {
                let _ = self.input.pop();
            },
            _ => {},
        }
        Action::Wait
    }

    /// Takes what happened to a key, and says what is to be done for it.
    pub fn key(&mut self, input: KeyInput) -> (action: Action)
        requires
            old(self).wf(),
        ensures
            final(self).wf(),
            (final(self)@, action@) == old(self)@.after_key(input),
    {
        if !input.pressed {
            Action::Wait
        } else if self.picker.is_some() {
            self.picker_key(input.key)
        } else {
            self.chat_key(input.key, input.control)
        }
    }

    // -----------------------------------------------------------------------
    // What was done for a key
    // -----------------------------------------------------------------------

    /// Opens the picker at the home directory, where `found` is what reading it
    /// gave.
    pub fn open_picker(&mut self, home: Vec<u8>, found: Vec<FileEntry>)
        requires
            old(self).wf(),
        ensures
            final(self).wf(),
            final(self)@.picker matches Some(p) && p.cwd == home@ && p.selected == 0
                && picker::is_listing(home@, found@, p.entries),
            final(self)@ == (ChatView { picker: final(self)@.picker, ..old(self)@ }),
    {
        self.picker = Some(FilePicker::new(home, found));
    }

    /// Shows the directory that the picker has moved to, where `found` is what
    /// reading it gave. Where no picker is open nothing happens.
    pub fn list_directory(&mut self, found: Vec<FileEntry>)
        requires
            old(self).wf(),
        ensures
            final(self).wf(),
            final(self)@ == (ChatView { picker: final(self)@.picker, ..old(self)@ }),
            old(self)@.picker is None ==> final(self)@.picker is None,
            old(self)@.picker matches Some(p) ==> {
                &&& final(self)@.picker matches Some(q)
                &&& picker::is_listing(p.cwd, found@, q.entries)
                &&& q == p.listing(q.entries)
            },
    {
        let mut open: Option<FilePicker> = None;
        std::mem::swap(&mut open, &mut self.picker);
        if let Some(p) = open {
            let mut picker = p;
            picker.reload(found);
            self.picker = Some(picker);
        }
    }

    /// The message that we wrote `message` at `now`.
    pub open spec fn own_message(
        name: Seq<char>,
        message: Seq<char>,
        now: u64,
        file_path: Option<Seq<u8>>,
    ) -> MessageView {
        MessageView {
            from: name,
            text: message,
            incoming: false,
            time: clock::clock_of(now as nat),
            file_path,
        }
    }

    /// Takes the outcome of sending `message` to `peer`: where it was sent it
    /// becomes part of the conversation and the input is cleared; else nothing
    /// changes, so that it can be sent again.
    pub fn chat_done(&mut self, peer: &Peer, message: String, sent: bool, now: u64)
        requires
            old(self).wf(),
        ensures
            final(self).wf(),
            !sent ==> final(self)@ == old(self)@,
            sent ==> final(self)@ == (ChatView {
                input: Seq::empty(),
                ..old(self)@.saying(
                    peer.id@,
                    Chat::own_message(old(self)@.name, message@, now, None),
                )
            }),
    {
        if sent {
            let message = Message {
                from: self.name.clone(),
                text: message,
                incoming: false,
                time: clock::clock_at(now),
                file_path: None,
            };
            add_message(&mut self.talks, peer.id.as_str(), message);
            self.input = String::new();
            assert(self.input@ =~= Seq::<char>::empty());
        }
    }

    /// What the conversation says of the file at `path` that was sent, or that
    /// was not sent because of `failure`.
    pub open spec fn file_note(path: Seq<u8>, failure: Option<Seq<char>>) -> Seq<char> {
        match failure {
            Some(why) => "File send failed: "@ + why,
            None => "📎 "@ + path::label_of(path, "file"@) + " ("@ + path::lossy_text_of(path)
                + ")"@,
        }
    }

    /// Takes the outcome of sending the file at `path` to `peer`: the
    /// conversation tells of it either way.
    pub fn file_done(&mut self, peer: &Peer, path: Vec<u8>, failure: Option<String>, now: u64)
        requires
            old(self).wf(),
        ensures
            final(self).wf(),
            final(self)@ == old(self)@.saying(
                peer.id@,
                Chat::own_message(
                    old(self)@.name,
                    Chat::file_note(path@, text::opt_text(failure)),
                    now,
                    match failure {
                        Some(_) => None,
                        None => Some(path@),
                    },
                ),
            ),
            failure is None && valid_utf8(path@) ==> path::lossy_text_of(path@) == decode_utf8(
                path@,
            ),
    {
        let ghost why = text::opt_text(failure);
        let (note, file_path) = match failure {
            Some(reason) => {
                let mut note = "File send failed: ".to_owned();
                note.append(reason.as_str());
                (note, None)
            },
            None => {
                let mut note = "📎 ".to_owned();
                note.append(path::label(path.as_slice(), "file").as_str());
                note.append(" (");
                note.append(path::lossy_text(path.as_slice()).as_str());
                note.append(")");
                (note, Some(path))
            },
        };
        assert(note@ == Chat::file_note(path@, why));
        let message = Message {
            from: self.name.clone(),
            text: note,
            incoming: false,
            time: clock::clock_at(now),
            file_path,
        };
        add_message(&mut self.talks, peer.id.as_str(), message);
    }

    // -----------------------------------------------------------------------
    // What arrives
    // -----------------------------------------------------------------------

    /// Takes a chat message that arrived.
    pub fn chat_arrived(&mut self, from: String, message: String, now: u64)
        requires
            old(self).wf(),
        ensures
            final(self).wf(),
            final(self)@ == old(self)@.saying(
                from@,
                (MessageView {
                    from: from@,
                    text: message@,
                    incoming: true,
                    time: clock::clock_of(now as nat),
                    file_path: None,
                }),
            ),
    {
        let id = from.clone();
        let message = Message {
            from,
            text: message,
            incoming: true,
            time: clock::clock_at(now),
            file_path: None,
        };
        add_message(&mut self.talks, id.as_str(), message);
    }

    /// Finds the place for a chunk that arrived of the file `name` from `from`,
    /// and says whether the file is new. The first chunk of a file fixes its
    /// size, the number of its chunks, and its path: a free one in the download
    /// directory of the user at `home`, by what `taken` answers.
    pub fn place_chunk<F: Fn(&Vec<u8>) -> bool>(
        &mut self,
        from: &str,
        name: &str,
        size: u64,
        total: u64,
        home: &[u8],
        taken: F,
    ) -> (place: (Vec<u8>, bool))
        requires
            old(self).wf(),
            forall|v: &Vec<u8>| #[trigger] taken.requires((v,)),
        ensures
            final(self).wf(),
            final(self)@ == old(self)@.placing(from@, name@, size, total, place.0@),
            place.0@ == final(self)@.incoming[transfer::transfer_key_of(from@, name@)].path,
            place.1 == !old(self)@.incoming.dom().contains(
                transfer::transfer_key_of(from@, name@),
            ),
            place.1 ==> download::is_download_path(
                download::download_dir_of(home@),
                name@,
                taken,
                place.0@,
            ),
    {
        let key = transfer::transfer_key(from, name);
        if let Some(file) = self.incoming.get(key.as_str()) {
            return (slice_to_vec(file.path.as_slice()), false);
        }
        let path = download::unique_download_path(home, name, taken);
        let file = IncomingFile::start(slice_to_vec(path.as_slice()), size, total);
        proof {
            keyed::lemma_views(self.incoming@, key@, file);
        }
        self.incoming.insert(key.as_str(), file);
        (path, true)
    }

    /// What the conversation says of a file that arrived at `path`.
    pub open spec fn arrival_note(path: Seq<u8>) -> Seq<char> {
        "📎 "@ + path::label_of(path, "file"@) + "  "@ + path::lossy_text_of(path)
    }

    /// The chat after chunk `index`, of `len` bytes, of the file `name` from
    /// `from` was stored at `now`: once the file is complete the conversation
    /// tells of it, and it is no longer awaited.
    pub open spec fn after_chunk(
        chat: ChatView,
        from: Seq<char>,
        name: Seq<char>,
        index: u64,
        len: nat,
        now: u64,
    ) -> ChatView {
        let key = transfer::transfer_key_of(from, name);
        let file = chat.incoming[key].with_chunk(len);
        if file.is_complete(index) {
            ChatView {
                incoming: chat.incoming.remove(key),
                ..chat.saying(
                    from,
                    MessageView {
                        from,
                        text: Chat::arrival_note(file.path),
                        incoming: true,
                        time: clock::clock_of(now as nat),
                        file_path: Some(file.path),
                    },
                )
            }
        } else {
            ChatView { incoming: chat.incoming.insert(key, file), ..chat }
        }
    }

    /// Takes note that chunk `index`, of `len` bytes, of the file `name` from
    /// `from` was stored. A file that is not awaited is ignored.
    pub fn chunk_stored(&mut self, from: String, name: &str, index: u64, len: usize, now: u64)
        requires
            old(self).wf(),
        ensures
            final(self).wf(),
            final(self)@ == (if old(self)@.incoming.dom().contains(
                transfer::transfer_key_of(from@, name@),
            ) {
                Chat::after_chunk(old(self)@, from@, name@, index, len as nat, now)
            } else {
                old(self)@
            }),
            ({
                let key = transfer::transfer_key_of(from@, name@);
                let file = old(self)@.incoming[key];
                old(self)@.incoming.dom().contains(key) && file.with_chunk(
                    len as nat,
                ).is_complete(index) && valid_utf8(file.path) ==> path::lossy_text_of(file.path)
                    == decode_utf8(file.path)
            }),
    {
        let key = transfer::transfer_key(from.as_str(), name);
        let ghost awaited = self.incoming@;
        let mut file = match self.incoming.take(key.as_str()) {
            Some(f) => f,
            None => {
                assert(awaited.remove(key@) =~= awaited);
                return ;
            },
        };
        proof {
            keyed::lemma_views(awaited, key@, file);
        }
        if file.add_chunk(index, len) {
            let label = path::label(file.path.as_slice(), "file");
            let mut note = "📎 ".to_owned();
            note.append(label.as_str());
            note.append("  ");
            note.append(path::lossy_text(file.path.as_slice()).as_str());
            let id = from.clone();
            let message = Message {
                from,
                text: note,
                incoming: true,
                time: clock::clock_at(now),
                file_path: Some(file.path),
            };
            add_message(&mut self.talks, id.as_str(), message);
        } else {
            let ghost longer = file;
            self.incoming.insert(key.as_str(), file);
            proof {
                keyed::lemma_views(awaited, key@, longer);
                assert(awaited.remove(key@).insert(key@, longer) =~= awaited.insert(key@, longer));
            }
        }
    }
}

// ---------------------------------------------------------------------------
// Laws
// ---------------------------------------------------------------------------

/// While the picker is open no key changes anything but the picker: nothing is
/// typed, no chat message is sent, and the chat is not left.
pub proof fn law_open_picker_takes_keys(chat: ChatView, input: KeyInput)
    requires
        chat.picker is Some,
    ensures
        ({
            let (after, action) = chat.after_key(input);
            &&& after == (ChatView { picker: after.picker, ..chat })
            &&& action !is SendChat
            &&& action !is OpenPicker
        }),
{
}

/// Esc closes the picker and leaves the rest of the chat as it was.
pub proof fn law_esc_closes_picker(chat: ChatView, control: bool)
    requires
        chat.picker is Some,
    ensures
        chat.after_key(KeyInput { key: Key::Esc, control, pressed: true }) == (
            (ChatView { picker: None, ..chat }),
            ActionView::Wait,
        ),
{
}

/// Backspace takes back the character that was typed last.
pub proof fn law_backspace_undoes_typing(chat: ChatView, c: char, control: bool)
    requires
        chat.picker is None,
        !(control && c == 'c'),
        !(c == 'q' && chat.input.len() == 0),
    ensures
        ({
            let typed = chat.after_key(KeyInput { key: Key::Char(c), control, pressed: true }).0;
            let undone = typed.after_key(
                KeyInput { key: Key::Backspace, control: false, pressed: true },
            ).0;
            &&& typed.input == chat.input.push(c)
            &&& undone.input == chat.input
        }),
{
    assert(chat.input.push(c).drop_last() =~= chat.input);
}

/// Tab goes through the panels in turn: as many presses as there are panels
/// lead back, and fewer do not.
pub proof fn law_tab_cycles(chat: ChatView)
    requires
        chat.wf(),
        chat.picker is None,
    ensures
        ({
            let tab = KeyInput { key: Key::Tab, control: false, pressed: true };
            let once = chat.after_key(tab).0;
            let twice = once.after_key(tab).0;
            let thrice = twice.after_key(tab).0;
            &&& once.active_tab != chat.active_tab
            &&& twice.active_tab != chat.active_tab
            &&& thrice == chat
        }),
{
}

/// What Enter sends is never blank, never the command that opens the picker,
/// and has no white space at its ends; and it goes to a peer that is shown.
pub proof fn law_enter_sends_trimmed_text(chat: ChatView)
    requires
        chat.wf(),
    ensures
        chat.after_enter().1 matches ActionView::SendChat { peer, text: sent } ==> {
            &&& sent.len() > 0
            &&& sent != "/files"@
            &&& !text::is_space(sent.first())
            &&& !text::is_space(sent.last())
            &&& chat.peers.contains(peer)
        },
{
    text::law_trim_is_idempotent(chat.input);
}

/// Conversations only grow: a new message stands behind all others of its
/// conversation, and no other conversation changes.
pub proof fn law_conversations_grow(
    talks: Map<Seq<char>, Seq<MessageView>>,
    id: Seq<char>,
    message: MessageView,
    other: Seq<char>,
)
    ensures
        talk_of(with_message(talks, id, message), id).drop_last() == talk_of(talks, id),
        talk_of(with_message(talks, id, message), id).last() == message,
        other != id ==> talk_of(with_message(talks, id, message), other) == talk_of(talks, other),
{
    assert(talk_of(talks, id).push(message).drop_last() =~= talk_of(talks, id));
}

/// A chunk that arrives and is stored: the size and the number of chunks that it
/// announces, the path for it if the file is new, its number, its length, and the
/// time.
pub struct Arrival {
    pub size: u64,
    pub total: u64,
    pub path: Seq<u8>,
    pub index: u64,
    pub len: nat,
    pub now: u64,
}

/// The file of which `first` is the first chunk, before that chunk is stored.
pub open spec fn file_of(first: Arrival) -> IncomingView {
    IncomingView { path: first.path, size: first.size, total: first.total, received: 0 }
}

/// `file` after a series of chunks.
pub open spec fn file_after(file: IncomingView, arrivals: Seq<Arrival>) -> IncomingView
    decreases arrivals.len(),
{
    if arrivals.len() == 0 {
        file
    } else {
        file_after(file, arrivals.drop_last()).with_chunk(arrivals.last().len)
    }
}

/// Whether the file that starts with a series of chunks is complete once chunk `k`
/// of the series is stored: all its bytes have arrived, or the chunk is the last by
/// its number.
pub open spec fn completes(arrivals: Seq<Arrival>, k: int) -> bool {
    file_after(file_of(arrivals[0]), arrivals.take(k + 1)).is_complete(arrivals[k].index)
}

/// The chat once a chunk of the file `name` from `from` was placed.
pub open spec fn placing_arrival(
    chat: ChatView,
    from: Seq<char>,
    name: Seq<char>,
    arrival: Arrival,
) -> ChatView {
    chat.placing(from, name, arrival.size, arrival.total, arrival.path)
}

/// The chat after a series of chunks of the file `name` from `from`, each of them
/// placed and stored.
pub open spec fn after_arrivals(
    chat: ChatView,
    from: Seq<char>,
    name: Seq<char>,
    arrivals: Seq<Arrival>,
) -> ChatView
    decreases arrivals.len(),
{
    if arrivals.len() == 0 {
        chat
    } else {
        let last = arrivals.last();
        Chat::after_chunk(
            placing_arrival(after_arrivals(chat, from, name, arrivals.drop_last()), from, name, last),
            from,
            name,
            last.index,
            last.len,
            last.now,
        )
    }
}

/// The chat that awaits the file `name` from `from`, of which this is known.
pub open spec fn awaiting(
    chat: ChatView,
    from: Seq<char>,
    name: Seq<char>,
    file: IncomingView,
) -> ChatView {
    ChatView {
        incoming: chat.incoming.insert(transfer::transfer_key_of(from, name), file),
        ..chat
    }
}

/// The chat once the file `name` from `from`, stored at `file_path`, is complete.
pub open spec fn after_file(
    chat: ChatView,
    from: Seq<char>,
    name: Seq<char>,
    file_path: Seq<u8>,
    now: u64,
) -> ChatView {
    ChatView {
        incoming: chat.incoming.remove(transfer::transfer_key_of(from, name)),
        ..chat.saying(
            from,
            MessageView {
                from,
                text: Chat::arrival_note(file_path),
                incoming: true,
                time: clock::clock_of(now as nat),
                file_path: Some(file_path),
            },
        )
    }
}

proof fn lemma_file_after(file: IncomingView, arrivals: Seq<Arrival>)
    ensures
        file_after(file, arrivals).path == file.path,
        file_after(file, arrivals).size == file.size,
        file_after(file, arrivals).total == file.total,
    decreases arrivals.len(),
{
    if arrivals.len() > 0 {
        lemma_file_after(file, arrivals.drop_last());
    }
}

/// As long as no chunk completes a file, whatever the chunks are, the file is
/// awaited at the path that its first chunk got, with the size and the number of
/// chunks that its first chunk announced; and no conversation changes.
pub proof fn law_unfinished_file_is_awaited(
    chat: ChatView,
    from: Seq<char>,
    name: Seq<char>,
    arrivals: Seq<Arrival>,
)
    requires
        !chat.incoming.dom().contains(transfer::transfer_key_of(from, name)),
        arrivals.len() > 0,
        forall|j: int| 0 <= j < arrivals.len() ==> !#[trigger] completes(arrivals, j),
    ensures
        after_arrivals(chat, from, name, arrivals) == awaiting(
            chat,
            from,
            name,
            file_after(file_of(arrivals[0]), arrivals),
        ),
        file_after(file_of(arrivals[0]), arrivals).path == arrivals[0].path,
        file_after(file_of(arrivals[0]), arrivals).size == arrivals[0].size,
        file_after(file_of(arrivals[0]), arrivals).total == arrivals[0].total,
    decreases arrivals.len(),
{
    let key = transfer::transfer_key_of(from, name);
    let first = file_of(arrivals[0]);
    let front = arrivals.drop_last();
    let n = arrivals.len() as int;
    lemma_file_after(first, arrivals);
    assert(arrivals.take(n) =~= arrivals);
    assert(!completes(arrivals, n - 1));
    if n == 1 {
        assert(front =~= Seq::<Arrival>::empty());
        assert(file_after(first, front) == first);
        assert(after_arrivals(chat, from, name, front) == chat);
    } else {
        assert forall|j: int| 0 <= j < front.len() implies !#[trigger] completes(front, j) by {
            assert(front.take(j + 1) =~= arrivals.take(j + 1));
            assert(!completes(arrivals, j));
        }
        law_unfinished_file_is_awaited(chat, from, name, front);
    }
    assert(after_arrivals(chat, from, name, arrivals).incoming =~= chat.incoming.insert(
        key,
        file_after(first, arrivals),
    ));
}

/// A transfer, whatever its chunks are, ends with the first chunk that completes the
/// file. Every chunk up to that one goes to the path that the first chunk got. The
/// conversation then tells of the file once, at the time of that chunk, and the file
/// is no longer awaited: a later chunk starts a new file.
pub proof fn law_transfer_ends_once(
    chat: ChatView,
    from: Seq<char>,
    name: Seq<char>,
    arrivals: Seq<Arrival>,
    later: Arrival,
)
    requires
        !chat.incoming.dom().contains(transfer::transfer_key_of(from, name)),
        arrivals.len() > 0,
        forall|j: int| 0 <= j < arrivals.len() - 1 ==> !#[trigger] completes(arrivals, j),
        completes(arrivals, arrivals.len() - 1),
    ensures
        after_arrivals(chat, from, name, arrivals) == after_file(
            chat,
            from,
            name,
            arrivals[0].path,
            arrivals.last().now,
        ),
        forall|j: int|
            0 <= j < arrivals.len() ==> placing_arrival(
                after_arrivals(chat, from, name, #[trigger] arrivals.take(j)),
                from,
                name,
                arrivals[j],
            ).incoming[transfer::transfer_key_of(from, name)].path == arrivals[0].path,
        placing_arrival(
            after_arrivals(chat, from, name, arrivals),
            from,
            name,
            later,
        ).incoming[transfer::transfer_key_of(from, name)] == file_of(later),
{
    let key = transfer::transfer_key_of(from, name);
    let first = file_of(arrivals[0]);
    let front = arrivals.drop_last();
    let n = arrivals.len() as int;
    assert(arrivals.take(n) =~= arrivals);
    lemma_file_after(first, arrivals);
    assert forall|j: int| 0 <= j < n implies placing_arrival(
        after_arrivals(chat, from, name, #[trigger] arrivals.take(j)),
        from,
        name,
        arrivals[j],
    ).incoming[key].path == arrivals[0].path by {
        let part = arrivals.take(j);
        if j == 0 {
            assert(after_arrivals(chat, from, name, part) == chat);
        } else {
            assert forall|i: int| 0 <= i < part.len() implies !#[trigger] completes(part, i) by {
                assert(part.take(i + 1) =~= arrivals.take(i + 1));
                assert(!completes(arrivals, i));
            }
            law_unfinished_file_is_awaited(chat, from, name, part);
        }
    }
    if n == 1 {
        assert(front =~= Seq::<Arrival>::empty());
        assert(file_after(first, front) == first);
        assert(after_arrivals(chat, from, name, front) == chat);
    } else {
        assert forall|i: int| 0 <= i < front.len() implies !#[trigger] completes(front, i) by {
            assert(front.take(i + 1) =~= arrivals.take(i + 1));
            assert(!completes(arrivals, i));
        }
        law_unfinished_file_is_awaited(chat, from, name, front);
    }
    assert(after_arrivals(chat, from, name, arrivals).incoming =~= chat.incoming.remove(key));
}

/// Whether a series of arrivals are the chunks `sent`, numbered from the first and
/// with the size and the number of chunks announced by the first; they may come at
/// any times.
pub open spec fn arrives_as(sent: Seq<Seq<u8>>, size: u64, total: u64, arrivals: Seq<Arrival>) -> bool {
    &&& arrivals.len() == sent.len()
    &&& arrivals.len() > 0 ==> arrivals[0].size == size && arrivals[0].total == total
    &&& forall|j: int|
        0 <= j < arrivals.len() ==> (#[trigger] arrivals[j]).index == j && arrivals[j].len
            == sent[j].len()
}

proof fn lemma_received(content: Seq<u8>, total: u64, arrivals: Seq<Arrival>, n: int)
    requires
        content.len() <= u64::MAX,
        content.len() > 0,
        total == transfer::chunk_total_of(content.len() as u64),
        content.len() + transfer::FILE_CHUNK - 1 <= usize::MAX,
        0 <= n < total,
        arrives_as(
            transfer::chunks_sent(
                content.len() as u64,
                total,
                0,
                transfer::full_reads(content, 0),
            ),
            content.len() as u64,
            total,
            arrivals,
        ),
    ensures
        arrivals.len() == total,
        file_after(file_of(arrivals[0]), arrivals.take(n)).received == n * transfer::FILE_CHUNK,
    decreases n,
{
    transfer::law_chunks_hold_file(content.len() as u64);
    transfer::lemma_sent_lengths(content, total, 0);
    let part = arrivals.take(n);
    if n > 0 {
        lemma_received(content, total, arrivals, n - 1);
        assert(part.drop_last() =~= arrivals.take(n - 1));
        assert(part.last() == arrivals[n - 1]);
        assert(arrivals[n - 1].len == transfer::FILE_CHUNK);
        assert(n * transfer::FILE_CHUNK <= (total - 1) * transfer::FILE_CHUNK);
    }
}

/// A file arrives: where the chunks are those that the sender makes of `content` by
/// full reads, the conversation tells of the file once, with the last chunk, and the
/// file is then no longer awaited.
pub proof fn law_file_arrives(
    chat: ChatView,
    from: Seq<char>,
    name: Seq<char>,
    content: Seq<u8>,
    arrivals: Seq<Arrival>,
)
    requires
        content.len() + transfer::FILE_CHUNK - 1 <= usize::MAX,
        content.len() <= u64::MAX,
        !chat.incoming.dom().contains(transfer::transfer_key_of(from, name)),
        ({
            let size = content.len() as u64;
            let total = transfer::chunk_total_of(size);
            arrives_as(
                transfer::chunks_sent(size, total, 0, transfer::full_reads(content, 0)),
                size,
                total,
                arrivals,
            )
        }),
    ensures
        arrivals.len() > 0,
        after_arrivals(chat, from, name, arrivals) == after_file(
            chat,
            from,
            name,
            arrivals[0].path,
            arrivals.last().now,
        ),
{
    let size = content.len() as u64;
    let total = transfer::chunk_total_of(size);
    let sent = transfer::chunks_sent(size, total, 0, transfer::full_reads(content, 0));
    transfer::law_chunks_hold_file(size);
    transfer::law_whole_file_is_sent(content);
    let first = file_of(arrivals[0]);
    assert forall|j: int| 0 <= j < total implies #[trigger] completes(arrivals, j) == (j == total
        - 1) by {
        let part = arrivals.take(j + 1);
        assert(part.drop_last() =~= arrivals.take(j));
        assert(part.last() == arrivals[j]);
        let file = file_after(first, arrivals.take(j));
        lemma_file_after(first, arrivals.take(j));
        if size == 0 {
            assert(arrivals.take(0) =~= Seq::<Arrival>::empty());
            assert(sent[0] =~= Seq::<u8>::empty());
        } else {
            lemma_received(content, total, arrivals, j);
            transfer::lemma_sent_lengths(content, total, 0);
        }
        transfer::law_file_is_complete_with_last_chunk(file, j as u64);
    }
    assert(completes(arrivals, total - 1));
    law_transfer_ends_once(chat, from, name, arrivals, arrivals[0]);
}

// ---------------------------------------------------------------------------
// What the keys do
// ---------------------------------------------------------------------------

/// A key that is not pressed, but repeated or released, does nothing.
pub proof fn law_only_presses_count(chat: ChatView, input: KeyInput)
    requires
        !input.pressed,
    ensures
        chat.after_key(input) == (chat, ActionView::Wait),
{
}

/// Enter sends the message to the peer under the cursor, to nobody else, and sends
/// what was typed without the white space around it. The command `/files` asks for
/// the picker instead, and clears the input. A blank message is not sent, and where
/// there is no peer nothing is. Until the message is known to be sent nothing changes.
pub proof fn law_enter_sends_to_selected_peer(chat: ChatView, control: bool, from: int, to: int)
    requires
        chat.wf(),
        chat.picker is None,
        0 <= from <= to <= chat.input.len(),
        forall|i: int| 0 <= i < from ==> text::is_space(#[trigger] chat.input[i]),
        forall|i: int| to <= i < chat.input.len() ==> text::is_space(#[trigger] chat.input[i]),
        from < to ==> !text::is_space(chat.input[from]) && !text::is_space(chat.input[to - 1]),
    ensures
        ({
            let (after, action) = chat.after_key(
                KeyInput { key: Key::Enter, control, pressed: true },
            );
            let typed = chat.input.subrange(from, to);
            &&& chat.peers.len() == 0 || from == to ==> after == chat && action == ActionView::Wait
            &&& chat.peers.len() > 0 && typed == "/files"@ ==> action == ActionView::OpenPicker
                && after == (ChatView { input: Seq::empty(), ..chat })
            &&& chat.peers.len() > 0 && from < to && typed != "/files"@ ==> after == chat && action
                == (ActionView::SendChat { peer: chat.peers[chat.selected], text: typed })
        }),
{
    let range = text::law_trim_takes_only_white_space(chat.input);
    if from < to {
        if range.0 == range.1 {
            assert(text::is_space(chat.input[from]));
        } else {
            if range.0 < from {
                assert(text::is_space(chat.input[range.0]));
            }
            if from < range.0 {
                assert(text::is_space(chat.input[from]));
            }
            if to < range.1 {
                assert(text::is_space(chat.input[range.1 - 1]));
            }
            if range.1 < to {
                assert(text::is_space(chat.input[to - 1]));
            }
        }
        assert(range == (from, to));
    } else if range.0 < range.1 {
        assert(text::is_space(chat.input[range.0]));
    }
    reveal_strlit("/files");
    assert(text::trimmed(chat.input) =~= chat.input.subrange(from, to));
    let input = KeyInput { key: Key::Enter, control, pressed: true };
    assert(chat.after_key(input) == chat.after_enter());
}

/// Enter in the picker acts on the entry under the picker's cursor. A file is sent to
/// the peer under the cursor of the users, and the picker closes; a directory is
/// entered, with the cursor at the top.
pub proof fn law_picker_sends_entry_to_selected_peer(
    chat: ChatView,
    picker: PickerView,
    control: bool,
)
    requires
        chat.picker == Some(picker),
        0 <= picker.selected < picker.entries.len(),
    ensures
        ({
            let (after, action) = chat.after_key(
                KeyInput { key: Key::Enter, control, pressed: true },
            );
            let entry = picker.entries[picker.selected];
            &&& !entry.is_dir && chat.peers.len() > 0 ==> action == (ActionView::SendFile {
                peer: chat.peers[chat.selected],
                path: entry.path@,
            }) && after == (ChatView { picker: None, ..chat })
            &&& !entry.is_dir && chat.peers.len() == 0 ==> action == ActionView::Wait && after
                == chat
            &&& entry.is_dir ==> action == ActionView::ListDirectory && after == (ChatView {
                picker: Some(
                    PickerView { cwd: entry.path@, selected: 0, entries: picker.entries },
                ),
                ..chat
            })
        }),
{
}

/// Whatever key is pressed, what is sent goes to the peer under the cursor: a message
/// from the chat, or from the picker the file under the picker's cursor.
pub proof fn law_everything_goes_to_selected_peer(chat: ChatView, input: KeyInput)
    ensures
        match chat.after_key(input).1 {
            ActionView::SendChat { peer, text } => peer == chat.peers[chat.selected]
                && chat.peers.len() > 0 && chat.picker is None && input.key is Enter
                && input.pressed,
            ActionView::SendFile { peer, path } => {
                &&& peer == chat.peers[chat.selected]
                &&& chat.peers.len() > 0
                &&& input.key is Enter && input.pressed
                &&& chat.picker matches Some(p)
                &&& p.selected < p.entries.len()
                &&& !p.entries[p.selected].is_dir
                &&& path == p.entries[p.selected].path@
            },
            _ => true,
        },
{
}

/// The arrows move the picker's cursor by one entry, up to the ends of the listing,
/// and change nothing else; Enter on an empty listing does nothing.
pub proof fn law_arrows_move_in_picker(chat: ChatView, picker: PickerView, control: bool)
    requires
        chat.picker == Some(picker),
        picker.wf(),
    ensures
        ({
            let up = chat.after_key(KeyInput { key: Key::Up, control, pressed: true });
            let down = chat.after_key(KeyInput { key: Key::Down, control, pressed: true });
            let enter = chat.after_key(KeyInput { key: Key::Enter, control, pressed: true });
            let len = picker.entries.len();
            &&& up == (
                (ChatView {
                    picker: Some(
                        PickerView {
                            selected: if picker.selected > 0 {
                                picker.selected - 1
                            } else {
                                0
                            },
                            ..picker
                        },
                    ),
                    ..chat
                }),
                ActionView::Wait,
            )
            &&& down == (
                (ChatView {
                    picker: Some(
                        PickerView {
                            selected: if picker.selected + 1 < len {
                                picker.selected + 1
                            } else {
                                picker.selected
                            },
                            ..picker
                        },
                    ),
                    ..chat
                }),
                ActionView::Wait,
            )
            &&& len == 0 ==> enter == (chat, ActionView::Wait)
        }),
{
}

/// The keys that mean nothing to the picker do nothing while it is open.
pub proof fn law_picker_ignores_other_keys(chat: ChatView, c: char, control: bool)
    requires
        chat.picker is Some,
    ensures
        chat.after_key(KeyInput { key: Key::Char(c), control, pressed: true }) == (
            chat,
            ActionView::Wait,
        ),
        chat.after_key(KeyInput { key: Key::Tab, control, pressed: true }) == (
            chat,
            ActionView::Wait,
        ),
        chat.after_key(KeyInput { key: Key::Backspace, control, pressed: true }) == (
            chat,
            ActionView::Wait,
        ),
        chat.after_key(KeyInput { key: Key::Other, control, pressed: true }) == (
            chat,
            ActionView::Wait,
        ),
{
}

/// A character is typed at the end of the input, and makes the message panel active.
/// Only Ctrl+C, and `q` on an empty input, are not typed: they leave the chat.
pub proof fn law_characters_are_typed_or_quit(chat: ChatView, c: char, control: bool)
    requires
        chat.picker is None,
    ensures
        ({
            let after = chat.after_key(KeyInput { key: Key::Char(c), control, pressed: true });
            let quits = (control && c == 'c') || (c == 'q' && chat.input.len() == 0);
            &&& after.1 == ActionView::Wait
            &&& quits ==> after.0 == (ChatView { should_quit: true, ..chat })
            &&& !quits ==> after.0 == (ChatView {
                input: chat.input + seq![c],
                active_tab: 2,
                ..chat
            })
        }),
{
    assert(chat.input.push(c) =~= chat.input + seq![c]);
}

/// The chat is left by Ctrl+C and by `q` on an empty input, and by nothing else.
pub proof fn law_only_quit_keys_quit(chat: ChatView, input: KeyInput)
    requires
        !chat.should_quit,
    ensures
        chat.after_key(input).0.should_quit <==> input.pressed && chat.picker is None && (
        input.key matches Key::Char(c) && ((input.control && c == 'c') || (c == 'q'
            && chat.input.len() == 0))),
{
}

/// Tab goes to the next panel, and from the last to the first; it changes nothing else.
pub proof fn law_tab_goes_to_next_panel(chat: ChatView, control: bool)
    requires
        chat.wf(),
        chat.picker is None,
    ensures
        chat.after_key(KeyInput { key: Key::Tab, control, pressed: true }) == (
            (ChatView {
                active_tab: if chat.active_tab == 2 {
                    0
                } else {
                    chat.active_tab + 1
                },
                ..chat
            }),
            ActionView::Wait,
        ),
{
}

/// The arrows move the cursor of the users by one, up to the ends of the list, and make
/// that panel active; without users they do nothing.
pub proof fn law_arrows_move_between_users(chat: ChatView, control: bool)
    requires
        chat.wf(),
        chat.picker is None,
    ensures
        ({
            let up = chat.after_key(KeyInput { key: Key::Up, control, pressed: true });
            let down = chat.after_key(KeyInput { key: Key::Down, control, pressed: true });
            let len = chat.peers.len();
            &&& len == 0 ==> up == (chat, ActionView::Wait) && down == (chat, ActionView::Wait)
            &&& len > 0 ==> up == (
                (ChatView {
                    selected: if chat.selected > 0 {
                        chat.selected - 1
                    } else {
                        0
                    },
                    active_tab: 0,
                    ..chat
                }),
                ActionView::Wait,
            )
            &&& len > 0 ==> down == (
                (ChatView {
                    selected: if chat.selected + 1 < len {
                        chat.selected + 1
                    } else {
                        chat.selected
                    },
                    active_tab: 0,
                    ..chat
                }),
                ActionView::Wait,
            )
        }),
{
}

/// Backspace takes the last character off the input and changes nothing else; Esc and
/// the other keys do nothing in the chat.
pub proof fn law_backspace_takes_last_character(chat: ChatView, control: bool, front: Seq<char>, c: char)
    requires
        chat.picker is None,
    ensures
        chat.input == front + seq![c] ==> chat.after_key(
            KeyInput { key: Key::Backspace, control, pressed: true },
        ) == ((ChatView { input: front, ..chat }), ActionView::Wait),
        chat.input.len() == 0 ==> chat.after_key(
            KeyInput { key: Key::Backspace, control, pressed: true },
        ) == (chat, ActionView::Wait),
        chat.after_key(KeyInput { key: Key::Esc, control, pressed: true }) == (
            chat,
            ActionView::Wait,
        ),
        chat.after_key(KeyInput { key: Key::Other, control, pressed: true }) == (
            chat,
            ActionView::Wait,
        ),
{
    if chat.input == front + seq![c] {
        assert(chat.input.drop_last() =~= front);
    }
}

/// New peers replace the old; the cursor keeps its place, or goes to the last peer where
/// there are fewer. Nothing else changes.
pub proof fn law_cursor_keeps_its_place(chat: ChatView, peers: Seq<Peer>)
    requires
        0 <= chat.selected,
    ensures
        ({
            let after = chat.showing(peers);
            &&& after == (ChatView { peers, selected: after.selected, ..chat })
            &&& chat.selected < peers.len() ==> after.selected == chat.selected
            &&& 0 < peers.len() <= chat.selected ==> after.selected == peers.len() - 1
            &&& peers.len() == 0 ==> after.selected == chat.selected
        }),
{
}

// ---------------------------------------------------------------------------
// What the conversations say
// ---------------------------------------------------------------------------

/// A message goes to the end of the conversation with its peer, which starts with it
/// where there was none; no other conversation and nothing else in the chat changes.
pub proof fn law_message_goes_to_end_of_conversation(
    chat: ChatView,
    id: Seq<char>,
    message: MessageView,
    other: Seq<char>,
)
    ensures
        ({
            let after = chat.saying(id, message);
            &&& after == (ChatView { talks: after.talks, ..chat })
            &&& after.talks.dom().contains(id)
            &&& chat.talks.dom().contains(id) ==> after.talks[id] == chat.talks[id] + seq![message]
            &&& !chat.talks.dom().contains(id) ==> after.talks[id] == seq![message]
            &&& other != id ==> after.talks.dom().contains(other) == chat.talks.dom().contains(other)
            &&& other != id && chat.talks.dom().contains(other) ==> after.talks[other]
                == chat.talks[other]
        }),
{
    let after = chat.saying(id, message);
    if chat.talks.dom().contains(id) {
        assert(after.talks[id] =~= chat.talks[id] + seq![message]);
    } else {
        assert(after.talks[id] =~= seq![message]);
    }
}

/// What we write stands in the conversation under our name, as our own, with the time at
/// which it was written.
pub proof fn law_own_message_is_ours(
    name: Seq<char>,
    message: Seq<char>,
    now: u64,
    file_path: Option<Seq<u8>>,
)
    ensures
        ({
            let said = Chat::own_message(name, message, now, file_path);
            &&& said.from == name
            &&& said.text == message
            &&& !said.incoming
            &&& said.time == clock::clock_of(now as nat)
            &&& said.file_path == file_path
        }),
{
}

/// The note of a file that was sent gives its name and its path; the note of one that
/// was not gives the reason. The note of a file that arrived gives the name and the path
/// that it was stored under.
pub proof fn law_notes_tell_name_and_path(p: Seq<u8>, why: Seq<char>)
    ensures
        Chat::file_note(p, Some(why)) == "File send failed: "@ + why,
        Chat::file_note(p, None) == "📎 "@ + path::label_of(p, "file"@) + " ("@
            + path::lossy_text_of(p) + ")"@,
        Chat::arrival_note(p) == "📎 "@ + path::label_of(p, "file"@) + "  "@ + path::lossy_text_of(
            p,
        ),
{
}

/// A file that is complete is told of in the conversation with its sender, as a message
/// from the sender that leads to the file; it is no longer awaited, and every other file
/// still is.
pub proof fn law_arrived_file_is_told(
    chat: ChatView,
    from: Seq<char>,
    name: Seq<char>,
    file_path: Seq<u8>,
    now: u64,
    other: Seq<char>,
)
    ensures
        ({
            let after = after_file(chat, from, name, file_path, now);
            let said = after.talks[from].last();
            &&& after == (ChatView { talks: after.talks, incoming: after.incoming, ..chat })
            &&& after.talks.dom().contains(from)
            &&& after.talks[from].len() == (if chat.talks.dom().contains(from) {
                chat.talks[from].len() + 1
            } else {
                1
            })
            &&& said.from == from
            &&& said.incoming
            &&& said.file_path == Some(file_path)
            &&& said.text == "📎 "@ + path::label_of(file_path, "file"@) + "  "@
                + path::lossy_text_of(file_path)
            &&& said.time == clock::clock_of(now as nat)
            &&& !after.incoming.dom().contains(from + seq![':'] + name)
            &&& other != from + seq![':'] + name ==> after.incoming.dom().contains(other)
                == chat.incoming.dom().contains(other)
            &&& other != from + seq![':'] + name && chat.incoming.dom().contains(other)
                ==> after.incoming[other] == chat.incoming[other]
        }),
{
    transfer::law_transfers_are_told_apart(from, name, from, name);
}

/// The first chunk of a file fixes where it goes, its size and its number of chunks; a
/// later one changes nothing of that, whatever it says.
pub proof fn law_first_chunk_fixes_file(
    chat: ChatView,
    from: Seq<char>,
    name: Seq<char>,
    size: u64,
    total: u64,
    p: Seq<u8>,
)
    ensures
        ({
            let key = from + seq![':'] + name;
            let after = chat.placing(from, name, size, total, p);
            &&& chat.incoming.dom().contains(key) ==> after == chat
            &&& !chat.incoming.dom().contains(key) ==> after == (ChatView {
                incoming: chat.incoming.insert(
                    key,
                    IncomingView { path: p, size, total, received: 0 },
                ),
                ..chat
            })
        }),
{
    transfer::law_transfers_are_told_apart(from, name, from, name);
}

/// A chunk is counted, and completes the file once the bytes that were announced have
/// arrived or it is the last by its number; the file is then told of, and else awaited
/// further.
pub proof fn law_chunk_is_counted(
    chat: ChatView,
    from: Seq<char>,
    name: Seq<char>,
    index: u64,
    len: nat,
    now: u64,
)
    requires
        chat.incoming.dom().contains(from + seq![':'] + name),
        chat.incoming[from + seq![':'] + name].received + len <= u64::MAX,
        index < u64::MAX,
    ensures
        ({
            let key = from + seq![':'] + name;
            let file = chat.incoming[key];
            let after = Chat::after_chunk(chat, from, name, index, len, now);
            let received = (file.received + len) as u64;
            let complete = file.received + len >= file.size || index + 1 >= file.total;
            &&& complete ==> after == after_file(chat, from, name, file.path, now)
            &&& !complete ==> after == (ChatView {
                incoming: chat.incoming.insert(key, IncomingView { received, ..file }),
                ..chat
            })
        }),
{
    transfer::law_transfers_are_told_apart(from, name, from, name);
    let file = chat.incoming[from + seq![':'] + name];
    transfer::law_chunks_add_up(file, index, len);
    assert(file.with_chunk(len) == (IncomingView {
        received: (file.received + len) as u64,
        ..file
    }));
}

} // verus!

//! What the screen shows: rows of styled text, panel by panel.

use crate::bidi;
use crate::chat;
use crate::chat::{Chat, ChatView, Message, MessageView};
use crate::path;
use crate::peers::Peer;
use crate::picker::{FileEntry, FilePicker, PickerView};
use crate::text;
use vstd::prelude::*;
use vstd::string::*;
use vstd::utf8::*;

verus! {

broadcast use vstd::string::group_string_axioms;

// ---------------------------------------------------------------------------
// Layout
// ---------------------------------------------------------------------------

/// The rows of the message panel, with its border.
pub const INPUT_ROWS: u16 = 7;

/// The room that a panel takes in one direction.
#[derive(Clone, Copy, Debug, PartialEq, Eq, Structural)]
pub enum Extent {
    /// So many rows or columns.
    Exactly(u16),
    /// So many rows or columns, and all that are left.
    AtLeast(u16),
}

/// The rows of the screen from top to bottom: the header, the body, the message
/// panel and the footer.
pub fn screen_rows() -> (rows: Vec<Extent>)
    ensures
        rows@ == seq![
            Extent::Exactly(2),
            Extent::AtLeast(5),
            Extent::Exactly(INPUT_ROWS),
            Extent::Exactly(1),
        ],
{
    let mut rows: Vec<Extent> = Vec::new();
    rows.push(Extent::Exactly(2));
    rows.push(Extent::AtLeast(5));
    rows.push(Extent::Exactly(INPUT_ROWS));
    rows.push(Extent::Exactly(1));
    rows
}

/// The columns of the body from left to right: the users, and the conversation or
/// the file picker.
pub fn body_columns() -> (columns: Vec<Extent>)
    ensures
        columns@ == seq![Extent::Exactly(28), Extent::AtLeast(30)],
{
    let mut columns: Vec<Extent> = Vec::new();
    columns.push(Extent::Exactly(28));
    columns.push(Extent::AtLeast(30));
    columns
}

// ---------------------------------------------------------------------------
// Styled text
// ---------------------------------------------------------------------------

/// A colour of text.
#[derive(Clone, Copy, Debug, PartialEq, Eq, Structural)]
pub enum Colour {
    /// The colour that the terminal has.
    Terminal,
    Green,
    Cyan,
    White,
    DarkGray,
    Yellow,
}

/// How text looks.
#[derive(Clone, Copy, Debug, PartialEq, Eq, Structural)]
pub struct Style {
    pub colour: Colour,
    pub bold: bool,
    pub reversed: bool,
}

/// Text of one colour.
#[verifier::allow_in_spec]
pub fn coloured(colour: Colour) -> (style: Style)
    returns
        (Style { colour, bold: false, reversed: false }),
{
    Style { colour, bold: false, reversed: false }
}

impl Style {
    /// The same in bold.
    #[verifier::allow_in_spec]
    pub fn bold(self) -> (style: Style)
        returns
            (Style { bold: true, ..self }),
    {
        Style { bold: true, ..self }
    }

    /// The same with its colours reversed.
    #[verifier::allow_in_spec]
    pub fn reversed(self) -> (style: Style)
        returns
            (Style { reversed: true, ..self }),
    {
        Style { reversed: true, ..self }
    }
}

/// Text in one style.
#[derive(Debug)]
pub struct Span {
    pub text: String,
    pub style: Style,
}

/// What a span says, and how it looks.
#[verifier::ext_equal]
pub struct SpanView {
    pub text: Seq<char>,
    pub style: Style,
}

impl View for Span {
    type V = SpanView;

    open spec fn view(&self) -> SpanView {
        SpanView { text: self.text@, style: self.style }
    }
}

/// A row of spans.
#[derive(Debug)]
pub struct Row {
    pub spans: Vec<Span>,
}

impl View for Row {
    type V = Seq<SpanView>;

    open spec fn view(&self) -> Seq<SpanView> {
        self.spans@.map_values(|s: Span| s@)
    }
}

/// What rows say.
pub open spec fn row_views(rows: Seq<Row>) -> Seq<Seq<SpanView>> {
    rows.map_values(|r: Row| r@)
}

impl Row {
    fn new() -> (row: Self)
        ensures
            row@ == Seq::<SpanView>::empty(),
    {
        let row = Row { spans: Vec::new() };
        assert(row@ =~= Seq::<SpanView>::empty());
        row
    }

    fn add(&mut self, text: String, style: Style)
        ensures
            final(self)@ == old(self)@.push((SpanView { text: text@, style })),
    {
        let ghost before = self@;
        let ghost said = text@;
        self.spans.push(Span { text, style });
        assert(self@ =~= before.push(SpanView { text: said, style }));
    }
}

/// `a` and `b`, one behind the other.
fn concat(a: &str, b: &str) -> (both: String)
    ensures
        both@ == a@ + b@,
{
    let mut both = a.to_owned();
    both.append(b);
    both
}

// ---------------------------------------------------------------------------
// Panels
// ---------------------------------------------------------------------------

/// A panel with a list of which one row can be highlighted.
#[derive(Debug)]
pub struct ListPanel {
    pub title: String,
    pub rows: Vec<Row>,
    pub selected: Option<usize>,
    pub highlight: Style,
}

/// What a list panel shows.
#[verifier::ext_equal]
pub struct ListView {
    pub title: Seq<char>,
    pub rows: Seq<Seq<SpanView>>,
    pub selected: Option<int>,
    pub highlight: Style,
}

impl View for ListPanel {
    type V = ListView;

    open spec fn view(&self) -> ListView {
        ListView {
            title: self.title@,
            rows: row_views(self.rows@),
            selected: match self.selected {
                Some(i) => Some(i as int),
                None => None,
            },
            highlight: self.highlight,
        }
    }
}

/// The panel beside the users.
#[derive(Debug)]
pub enum MainPanel {
    /// The file picker.
    Files(ListPanel),
    /// The conversation with the peer under the cursor. Where it `wraps`, a row that
    /// is too long is continued on the next.
    Chat { title: String, rows: Vec<Row>, wraps: bool },
}

/// What the panel beside the users shows.
#[verifier::ext_equal]
pub enum MainView {
    Files(ListView),
    Chat { title: Seq<char>, rows: Seq<Seq<SpanView>>, wraps: bool },
}

impl View for MainPanel {
    type V = MainView;

    open spec fn view(&self) -> MainView {
        match self {
            MainPanel::Files(list) => MainView::Files(list@),
            MainPanel::Chat { title, rows, wraps } => MainView::Chat {
                title: title@,
                rows: row_views(rows@),
                wraps: *wraps,
            },
        }
    }
}

/// The whole screen.
#[derive(Debug)]
pub struct Screen {
    pub header: Row,
    pub users: ListPanel,
    pub main: MainPanel,
    pub input_title: String,
    pub input: String,
    /// Whether a message that is too long for a row is continued on the next.
    pub input_wraps: bool,
    pub footer: Row,
}

/// What the screen shows.
#[verifier::ext_equal]
pub struct ScreenView {
    pub header: Seq<SpanView>,
    pub users: ListView,
    pub main: MainView,
    pub input_title: Seq<char>,
    pub input: Seq<char>,
    pub input_wraps: bool,
    pub footer: Seq<SpanView>,
}

impl View for Screen {
    type V = ScreenView;

    open spec fn view(&self) -> ScreenView {
        ScreenView {
            header: self.header@,
            users: self.users@,
            main: self.main@,
            input_title: self.input_title@,
            input: self.input@,
            input_wraps: self.input_wraps,
            footer: self.footer@,
        }
    }
}

/// The header: how many peers there are, and who we are.
pub open spec fn header_of(online: nat, name: Seq<char>) -> Seq<SpanView> {
    let gap = SpanView { text: "  "@, style: coloured(Colour::Terminal) };
    seq![
        SpanView { text: " LAN CHAT "@, style: coloured(Colour::Terminal).bold() },
        gap,
        SpanView { text: text::decimal_of(online) + " online"@, style: coloured(Colour::Green) },
        gap,
        SpanView { text: "as "@ + name, style: coloured(Colour::Cyan) },
        gap,
        SpanView { text: "E2E"@, style: coloured(Colour::Green) },
    ]
}

/// The header.
pub fn header(online: usize, name: &str) -> (row: Row)
    ensures
        row@ == header_of(online as nat, name@),
{
    let mut count = String::new();
    text::push_decimal(&mut count, online as u64);
    assert(count@ =~= text::decimal_of(online as nat));
    count.append(" online");
    let mut row = Row::new();
    row.add(" LAN CHAT ".to_owned(), coloured(Colour::Terminal).bold());
    row.add("  ".to_owned(), coloured(Colour::Terminal));
    row.add(count, coloured(Colour::Green));
    row.add("  ".to_owned(), coloured(Colour::Terminal));
    row.add(concat("as ", name), coloured(Colour::Cyan));
    row.add("  ".to_owned(), coloured(Colour::Terminal));
    row.add("E2E".to_owned(), coloured(Colour::Green));
    assert(row@ =~= header_of(online as nat, name@));
    row
}

/// The row of a peer: its name and its id.
pub open spec fn user_row_of(peer: Peer) -> Seq<SpanView> {
    seq![
        SpanView { text: "● "@, style: coloured(Colour::Green) },
        SpanView { text: peer.name@, style: coloured(Colour::Terminal) },
        SpanView { text: "  "@ + peer.id@, style: coloured(Colour::DarkGray) },
    ]
}

fn user_row(peer: &Peer) -> (row: Row)
    ensures
        row@ == user_row_of(*peer),
{
    let mut row = Row::new();
    row.add("● ".to_owned(), coloured(Colour::Green));
    row.add(peer.name.clone(), coloured(Colour::Terminal));
    row.add(concat("  ", peer.id.as_str()), coloured(Colour::DarkGray));
    assert(row@ =~= user_row_of(*peer));
    row
}

/// The users panel. The peer under the cursor is highlighted, in colour while
/// the panel is active.
pub open spec fn users_of(peers: Seq<Peer>, selected: int, active_tab: int) -> ListView {
    ListView {
        title: " Users "@,
        rows: peers.map_values(|p: Peer| user_row_of(p)),
        selected: if peers.len() > 0 {
            Some(selected)
        } else {
            None
        },
        highlight: if active_tab == chat::USERS_TAB {
            coloured(Colour::Cyan).bold().reversed()
        } else {
            coloured(Colour::Terminal).reversed()
        },
    }
}

/// The users panel.
pub fn users(peers: &Vec<Peer>, selected: usize, active_tab: usize) -> (panel: ListPanel)
    ensures
        panel@ == users_of(peers@, selected as int, active_tab as int),
{
    let ghost all = peers@.map_values(|p: Peer| user_row_of(p));
    let mut rows: Vec<Row> = Vec::new();
    let mut i: usize = 0;
    while i < peers.len()
        invariant
            i <= peers@.len(),
            all == peers@.map_values(|p: Peer| user_row_of(p)),
            row_views(rows@) == all.take(i as int),
        decreases peers@.len() - i,
    {
        let ghost before = row_views(rows@);
        let row = user_row(&peers[i]);
        rows.push(row);
        i += 1;
        assert(row_views(rows@) =~= before.push(all[i - 1]));
        assert(row_views(rows@) =~= all.take(i as int));
    }
    assert(all.take(i as int) =~= all);
    let style = if active_tab == chat::USERS_TAB {
        coloured(Colour::Cyan).bold()
    } else {
        coloured(Colour::Terminal)
    };
    ListPanel {
        title: " Users ".to_owned(),
        rows,
        selected: if peers.is_empty() {
            None
        } else {
            Some(selected)
        },
        highlight: style.reversed(),
    }
}

/// The row of a message. Text is shown in its visual order; the note of a file is
/// shown as it is.
pub open spec fn message_row_of(m: MessageView) -> Seq<SpanView> {
    let style = coloured(
        if m.incoming {
            Colour::White
        } else {
            Colour::Cyan
        },
    );
    seq![
        SpanView {
            text: (if m.incoming {
                "← "@
            } else {
                "→ "@
            }) + m.time + " "@,
            style: coloured(Colour::DarkGray),
        },
        SpanView { text: m.from + ": "@, style: style.bold() },
        SpanView {
            text: if m.file_path is None {
                bidi::rtl_visual_of(m.text)
            } else {
                m.text
            },
            style,
        },
    ]
}

/// The row of a message.
pub fn message_row(m: &Message) -> (row: Row)
    ensures
        row@ == message_row_of(m@),
{
    let (arrow, colour) = if m.incoming {
        ("← ", Colour::White)
    } else {
        ("→ ", Colour::Cyan)
    };
    let mut stamp = concat(arrow, m.time.as_str());
    stamp.append(" ");
    let shown = if m.file_path.is_none() {
        bidi::rtl_visual(m.text.as_str())
    } else {
        m.text.clone()
    };
    let mut row = Row::new();
    row.add(stamp, coloured(Colour::DarkGray));
    row.add(concat(m.from.as_str(), ": "), coloured(colour).bold());
    row.add(shown, coloured(colour));
    assert(row@ =~= message_row_of(m@));
    row
}

/// The rows of the chat panel: the conversation with the peer under the cursor,
/// or where there is none a hint.
pub open spec fn chat_rows_of(chat: ChatView) -> Seq<Seq<SpanView>> {
    if 0 <= chat.selected < chat.peers.len() {
        chat::talk_of(chat.talks, chat.chosen().id@).map_values(|m: MessageView| message_row_of(m))
    } else {
        seq![
            seq![
                SpanView {
                    text: "Select a user to start chatting."@,
                    style: coloured(Colour::DarkGray),
                },
            ],
        ]
    }
}

/// The rows of the chat panel.
pub fn chat_rows(chat: &Chat) -> (rows: Vec<Row>)
    requires
        chat.talks.wf(),
    ensures
        row_views(rows@) == chat_rows_of(chat@),
{
    let mut rows: Vec<Row> = Vec::new();
    if chat.selected >= chat.peers.len() {
        let mut row = Row::new();
        row.add("Select a user to start chatting.".to_owned(), coloured(Colour::DarkGray));
        let ghost hint = row@;
        rows.push(row);
        assert(hint =~= chat_rows_of(chat@)[0]);
        assert(row_views(rows@) =~= chat_rows_of(chat@));
        return rows;
    }
    let id = chat.peers[chat.selected].id.as_str();
    let ghost said = chat::talk_of(chat@.talks, id@);
    let ghost all = said.map_values(|m: MessageView| message_row_of(m));
    assert(all == chat_rows_of(chat@));
    if let Some(talk) = chat.talks.get(id) {
        assert(said == talk@);
        let mut i: usize = 0;
        while i < talk.messages.len()
            invariant
                i <= talk.messages@.len(),
                said == talk@,
                all == said.map_values(|m: MessageView| message_row_of(m)),
                row_views(rows@) == all.take(i as int),
            decreases talk.messages@.len() - i,
        {
            let ghost before = row_views(rows@);
            let row = message_row(&talk.messages[i]);
            rows.push(row);
            i += 1;
            assert(row_views(rows@) =~= before.push(all[i - 1]));
            assert(row_views(rows@) =~= all.take(i as int));
        }
        assert(all.take(i as int) =~= all);
    } else {
        assert(row_views(rows@) =~= all);
    }
    rows
}

/// The row of an entry of the picker.
pub open spec fn entry_row_of(entry: FileEntry) -> Seq<SpanView> {
    seq![
        SpanView {
            text: (if entry.is_dir {
                "📁 "@
            } else {
                "📄 "@
            }) + path::label_of(entry.path@, "?"@),
            style: coloured(Colour::Terminal),
        },
    ]
}

/// The file picker.
pub open spec fn files_of(picker: PickerView) -> ListView {
    ListView {
        title: " Files — "@ + path::lossy_text_of(picker.cwd) + " "@,
        rows: picker.entries.map_values(|e: FileEntry| entry_row_of(e)),
        selected: if picker.entries.len() > 0 {
            Some(picker.selected)
        } else {
            None
        },
        highlight: coloured(Colour::Cyan).reversed(),
    }
}

/// The file picker.
pub fn draw_file_picker(picker: &FilePicker) -> (panel: ListPanel)
    ensures
        panel@ == files_of(picker@),
        valid_utf8(picker.cwd@) ==> path::lossy_text_of(picker.cwd@) == decode_utf8(picker.cwd@),
{
    let ghost all = picker.entries@.map_values(|e: FileEntry| entry_row_of(e));
    let mut rows: Vec<Row> = Vec::new();
    let mut i: usize = 0;
    while i < picker.entries.len()
        invariant
            i <= picker.entries@.len(),
            all == picker.entries@.map_values(|e: FileEntry| entry_row_of(e)),
            row_views(rows@) == all.take(i as int),
        decreases picker.entries@.len() - i,
    {
        let ghost before = row_views(rows@);
        let entry = &picker.entries[i];
        let prefix = if entry.is_dir {
            "📁 "
        } else {
            "📄 "
        };
        let mut row = Row::new();
        row.add(
            concat(prefix, path::label(entry.path.as_slice(), "?").as_str()),
            coloured(Colour::Terminal),
        );
        assert(row@ =~= entry_row_of(*entry));
        rows.push(row);
        i += 1;
        assert(row_views(rows@) =~= before.push(all[i - 1]));
        assert(row_views(rows@) =~= all.take(i as int));
    }
    assert(all.take(i as int) =~= all);
    let mut title = concat(" Files — ", path::lossy_text(picker.cwd.as_slice()).as_str());
    title.append(" ");
    ListPanel {
        title,
        rows,
        selected: if picker.entries.is_empty() {
            None
        } else {
            Some(picker.selected)
        },
        highlight: coloured(Colour::Cyan).reversed(),
    }
}

/// The title of the message panel, with a mark while the panel is active.
pub open spec fn input_title_of(active_tab: int) -> Seq<char> {
    if active_tab == chat::INPUT_TAB {
        " Message * "@
    } else {
        " Message "@
    }
}

/// The footer: the keys, and our id.
pub open spec fn footer_of(my_id: Seq<char>) -> Seq<SpanView> {
    let key = coloured(Colour::Yellow);
    let what = coloured(Colour::Terminal);
    seq![
        SpanView { text: "↑↓"@, style: key },
        SpanView { text: " Users  "@, style: what },
        SpanView { text: "Enter"@, style: key },
        SpanView { text: " Send  "@, style: what },
        SpanView { text: "/files"@, style: key },
        SpanView { text: " File picker  "@, style: what },
        SpanView { text: "Esc"@, style: key },
        SpanView { text: " Close picker  "@, style: what },
        SpanView { text: "Ctrl+C / q"@, style: key },
        SpanView { text: " Quit"@, style: what },
        SpanView { text: "   ID: "@ + my_id, style: coloured(Colour::DarkGray) },
    ]
}

/// The footer.
pub fn footer(my_id: &str) -> (row: Row)
    ensures
        row@ == footer_of(my_id@),
{
    let key = coloured(Colour::Yellow);
    let what = coloured(Colour::Terminal);
    let mut row = Row::new();
    row.add("↑↓".to_owned(), key);
    row.add(" Users  ".to_owned(), what);
    row.add("Enter".to_owned(), key);
    row.add(" Send  ".to_owned(), what);
    row.add("/files".to_owned(), key);
    row.add(" File picker  ".to_owned(), what);
    row.add("Esc".to_owned(), key);
    row.add(" Close picker  ".to_owned(), what);
    row.add("Ctrl+C / q".to_owned(), key);
    row.add(" Quit".to_owned(), what);
    row.add(concat("   ID: ", my_id), coloured(Colour::DarkGray));
    assert(row@ =~= footer_of(my_id@));
    row
}

/// The screen of a chat. Long messages wrap, in the conversation and in the message
/// panel.
pub open spec fn screen_of(chat: ChatView, my_id: Seq<char>) -> ScreenView {
    ScreenView {
        header: header_of(chat.peers.len(), chat.name),
        users: users_of(chat.peers, chat.selected, chat.active_tab),
        main: match chat.picker {
            Some(p) => MainView::Files(files_of(p)),
            None => MainView::Chat { title: " Chat "@, rows: chat_rows_of(chat), wraps: true },
        },
        input_title: input_title_of(chat.active_tab),
        input: chat.input,
        input_wraps: true,
        footer: footer_of(my_id),
    }
}

/// The screen of a chat.
pub fn draw_ui(chat: &Chat, my_id: &str) -> (screen: Screen)
    requires
        chat.talks.wf(),
    ensures
        screen@ == screen_of(chat@, my_id@),
        chat@.picker matches Some(p) ==> valid_utf8(p.cwd) ==> path::lossy_text_of(p.cwd)
            == decode_utf8(p.cwd),
{
    let main = match &chat.picker {
        Some(p) => MainPanel::Files(draw_file_picker(p)),
        None => MainPanel::Chat {
            title: " Chat ".to_owned(),
            rows: chat_rows(chat),
            wraps: true,
        },
    };
    Screen {
        header: header(chat.peers.len(), chat.name.as_str()),
        users: users(&chat.peers, chat.selected, chat.active_tab),
        main,
        input_title: if chat.active_tab == chat::INPUT_TAB {
            " Message * ".to_owned()
        } else {
            " Message ".to_owned()
        },
        input: chat.input.clone(),
        input_wraps: true,
        footer: footer(my_id),
    }
}

// ---------------------------------------------------------------------------
// Scrolling the message panel
// ---------------------------------------------------------------------------

/// The widest panel whose wrapped rows are counted: up to here the count of
/// columns stays within 16 bits.
pub const WRAP_LIMIT: u16 = 16_384;

/// How many rows `ratatui` makes of `text` in a panel of `width` columns.
pub uninterp spec fn wrapped_rows_of(text: Seq<char>, width: u16) -> usize;

/// `ratatui::widgets::Paragraph::line_count` of a text that is wrapped, and not
/// trimmed: a function of the text and the width. No columns hold no rows, and
/// otherwise even an empty text has one. It adds up columns in 16 bits, which
/// can overflow in panels wider than the limit.
#[verifier::external_body]
fn wrapped_rows(text: &str, width: u16) -> (rows: usize)
    requires
        width <= WRAP_LIMIT,
    ensures
        rows == wrapped_rows_of(text@, width),
        width == 0 ==> rows == 0,
        width > 0 ==> rows > 0,
{
    ratatui::widgets::Paragraph::new(text).wrap(ratatui::widgets::Wrap { trim: false }).line_count(
        width,
    )
}

/// How many rows are scrolled past, of a text of `rows` rows in a panel of
/// `height` rows: so many that the last row stands at the bottom, as far as a
/// panel can be scrolled. A text that fits is not scrolled.
pub open spec fn scroll_of(rows: int, height: int) -> int {
    if rows <= height {
        0
    } else if rows <= u16::MAX {
        rows - height
    } else {
        u16::MAX - height
    }
}

/// How many rows are scrolled past, of a text of `rows` rows in a panel of
/// `height` rows.
pub fn scroll_to_end(rows: usize, height: u16) -> (scroll: u16)
    ensures
        scroll == scroll_of(rows as int, height as int),
{
    if rows <= height as usize {
        0
    } else if rows <= u16::MAX as usize {
        (rows - height as usize) as u16
    } else {
        u16::MAX - height
    }
}

/// How many rows of the message are scrolled past in a panel that has `width`
/// columns and `height` rows inside its border, so that its end is visible.
pub fn input_scroll(input: &str, width: u16, height: u16) -> (scroll: u16)
    requires
        width <= WRAP_LIMIT,
    ensures
        scroll == scroll_of(wrapped_rows_of(input@, width) as int, height as int),
        width > 0 ==> wrapped_rows_of(input@, width) > 0,
{
    scroll_to_end(wrapped_rows(input, width), height)
}

// ---------------------------------------------------------------------------
// Laws
// ---------------------------------------------------------------------------

/// The end of a long message is visible: its last row lies within the panel. A
/// message that does not fit fills the panel, and one that fits is shown whole.
pub proof fn law_message_end_is_visible(rows: int, height: int)
    requires
        0 < rows <= u16::MAX,
        0 < height <= u16::MAX,
    ensures
        scroll_of(rows, height) <= rows - 1 < scroll_of(rows, height) + height,
        rows <= height ==> scroll_of(rows, height) == 0,
        rows > height ==> scroll_of(rows, height) + height == rows,
{
}

/// One more row scrolls the message by one row, once it fills the panel.
pub proof fn law_message_scrolls_row_by_row(rows: int, height: int)
    requires
        0 < height <= rows < u16::MAX,
    ensures
        scroll_of(rows + 1, height) == scroll_of(rows, height) + 1,
{
}

/// The header counts the peers and names the user.
pub proof fn law_header_counts_peers(online: nat, name: Seq<char>)
    ensures
        header_of(online, name).len() == 7,
        header_of(online, name)[0].text == " LAN CHAT "@,
        header_of(online, name)[2].text == text::decimal_of(online) + " online"@,
        header_of(online, name)[4].text == "as "@ + name,
        header_of(online, name)[6].text == "E2E"@,
        header_of(online, name)[1].text == "  "@ && header_of(online, name)[3].text == "  "@
            && header_of(online, name)[5].text == "  "@,
{
}

/// Every peer has one row, in the order of the peers, with its name and its id; and the
/// row of the peer under the cursor is the one that is highlighted.
pub proof fn law_users_are_shown_in_order(
    peers: Seq<Peer>,
    selected: int,
    active_tab: int,
    i: int,
)
    requires
        0 <= i < peers.len(),
    ensures
        ({
            let panel = users_of(peers, selected, active_tab);
            &&& panel.rows.len() == peers.len()
            &&& panel.rows[i].len() == 3
            &&& panel.rows[i][0].text == "● "@
            &&& panel.rows[i][1].text == peers[i].name@
            &&& panel.rows[i][2].text == "  "@ + peers[i].id@
            &&& panel.selected == Some(selected)
            &&& panel.highlight.reversed
            &&& panel.highlight.bold == (active_tab == 0)
            &&& panel.highlight.colour == (if active_tab == 0 {
                Colour::Cyan
            } else {
                Colour::Terminal
            })
        }),
        users_of(Seq::empty(), selected, active_tab).selected is None,
{
}

/// What Enter sends goes to the user whose row is highlighted: the name and the id in
/// that row are those of the receiver.
pub proof fn law_highlighted_user_is_receiver(chat: ChatView, my_id: Seq<char>, input: chat::KeyInput)
    requires
        chat.wf(),
    ensures
        match chat.after_key(input).1 {
            chat::ActionView::SendChat { peer, .. } => {
                let users = screen_of(chat, my_id).users;
                &&& users.selected matches Some(i)
                &&& 0 <= i < users.rows.len()
                &&& users.rows[i][1].text == peer.name@
                &&& users.rows[i][2].text == "  "@ + peer.id@
                &&& peer == chat.peers[i]
            },
            chat::ActionView::SendFile { peer, path } => {
                let users = screen_of(chat, my_id).users;
                &&& users.selected matches Some(i)
                &&& 0 <= i < users.rows.len()
                &&& users.rows[i][1].text == peer.name@
                &&& users.rows[i][2].text == "  "@ + peer.id@
                &&& peer == chat.peers[i]
                &&& screen_of(chat, my_id).main matches MainView::Files(files)
                &&& files.selected matches Some(k)
                &&& chat.picker matches Some(p)
                &&& 0 <= k < p.entries.len()
                &&& path == p.entries[k].path@
            },
            _ => true,
        },
{
}

/// The row of a message without a file shows its text in visual order, line by line,
/// whoever wrote it; the note of a file is shown as it is. Who wrote the message, and
/// when, stands before the text.
pub proof fn law_message_is_shown_in_visual_order(m: MessageView)
    ensures
        message_row_of(m).len() == 3,
        m.file_path is None ==> message_row_of(m)[2].text == bidi::rtl_visual_of(m.text),
        m.file_path is Some ==> message_row_of(m)[2].text == m.text,
        message_row_of(m)[1].text == m.from + ": "@,
        message_row_of(m)[0].text == (if m.incoming {
            "← "@
        } else {
            "→ "@
        }) + m.time + " "@,
{
}

/// Whether a message is ours or came in decides the arrow and the colour of its row, and
/// nothing of what the row says besides.
pub proof fn law_direction_changes_no_text(m: MessageView, n: MessageView)
    requires
        m.incoming,
        n == (MessageView { incoming: false, ..m }),
    ensures
        message_row_of(m)[1].text == message_row_of(n)[1].text,
        message_row_of(m)[2].text == message_row_of(n)[2].text,
        message_row_of(m)[2].style == coloured(Colour::White),
        message_row_of(n)[2].style == coloured(Colour::Cyan),
        message_row_of(m)[1].style == coloured(Colour::White).bold(),
        message_row_of(n)[1].style == coloured(Colour::Cyan).bold(),
        message_row_of(m)[0].style == coloured(Colour::DarkGray),
        message_row_of(n)[0].style == coloured(Colour::DarkGray),
{
}

/// The chat panel shows the conversation with the peer under the cursor: a row for each
/// of its messages, oldest first, and no other.
pub proof fn law_conversation_of_selected_peer_is_shown(chat: ChatView, i: int)
    requires
        0 <= chat.selected < chat.peers.len(),
    ensures
        ({
            let id = chat.peers[chat.selected].id@;
            let rows = chat_rows_of(chat);
            &&& !chat.talks.dom().contains(id) ==> rows.len() == 0
            &&& chat.talks.dom().contains(id) ==> rows.len() == chat.talks[id].len()
            &&& chat.talks.dom().contains(id) && 0 <= i < chat.talks[id].len() ==> rows[i]
                == message_row_of(chat.talks[id][i])
        }),
{
}

/// Without a peer under the cursor the chat panel shows a hint.
pub proof fn law_hint_stands_where_no_peer_is(chat: ChatView)
    requires
        chat.peers.len() <= chat.selected,
    ensures
        chat_rows_of(chat).len() == 1,
        chat_rows_of(chat)[0].len() == 1,
        chat_rows_of(chat)[0][0].text == "Select a user to start chatting."@,
{
}

/// The picker shows the directory in its title and a row for each entry, in the order of
/// the entries: a folder or a page, and the name. The entry under the cursor is
/// highlighted.
pub proof fn law_entries_are_shown_in_order(picker: PickerView, i: int)
    requires
        0 <= i < picker.entries.len(),
    ensures
        ({
            let panel = files_of(picker);
            &&& panel.title == " Files — "@ + path::lossy_text_of(picker.cwd) + " "@
            &&& panel.rows.len() == picker.entries.len()
            &&& panel.rows[i].len() == 1
            &&& panel.rows[i][0].text == (if picker.entries[i].is_dir {
                "📁 "@
            } else {
                "📄 "@
            }) + path::label_of(picker.entries[i].path@, "?"@)
            &&& panel.selected == Some(picker.selected)
            &&& panel.highlight == coloured(Colour::Cyan).reversed()
        }),
{
}

/// The screen shows the chat: its peers, its picker or else its conversation, its input,
/// and our id.
pub proof fn law_screen_shows_chat(chat: ChatView, my_id: Seq<char>)
    ensures
        ({
            let screen = screen_of(chat, my_id);
            &&& screen.header == header_of(chat.peers.len(), chat.name)
            &&& screen.users == users_of(chat.peers, chat.selected, chat.active_tab)
            &&& chat.picker matches Some(p) ==> screen.main == MainView::Files(files_of(p))
            &&& chat.picker is None ==> screen.main == (MainView::Chat {
                title: " Chat "@,
                rows: chat_rows_of(chat),
                wraps: true,
            })
            &&& screen.input == chat.input
            &&& screen.input_wraps
            &&& screen.input_title == (if chat.active_tab == 2 {
                " Message * "@
            } else {
                " Message "@
            })
            &&& screen.footer.len() == 11
            &&& screen.footer[10].text == "   ID: "@ + my_id
        }),
{
}

/// A message of more rows than a panel can scroll past is scrolled as far as it can be.
pub proof fn law_scroll_is_bounded(rows: int, height: int)
    requires
        0 <= height <= u16::MAX,
        0 <= rows,
    ensures
        0 <= scroll_of(rows, height),
        scroll_of(rows, height) + height <= u16::MAX,
        rows > u16::MAX ==> scroll_of(rows, height) + height == u16::MAX,
        rows <= height ==> scroll_of(rows, height) == 0,
{
}

/// How the rows look does not depend on what they say; and of the footer only the last
/// span depends on our id.
pub proof fn law_looks_do_not_depend_on_words(
    online: nat,
    other_online: nat,
    name: Seq<char>,
    other_name: Seq<char>,
    peer: Peer,
    other_peer: Peer,
    entry: FileEntry,
    other_entry: FileEntry,
    i: int,
)
    ensures
        0 <= i < 7 ==> header_of(online, name)[i].style == header_of(other_online, other_name)[i].style,
        0 <= i < 3 ==> user_row_of(peer)[i].style == user_row_of(other_peer)[i].style,
        entry_row_of(entry)[0].style == entry_row_of(other_entry)[0].style,
        0 <= i < 10 ==> footer_of(name)[i] == footer_of(other_name)[i],
        footer_of(name)[10].style == footer_of(other_name)[10].style,
{
}

} // verus!

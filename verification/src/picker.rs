//! The file picker: a directory listing with a cursor.

use crate::order;
use crate::order::Ranked;
use crate::path;
use vstd::prelude::*;
use vstd::slice::*;

verus! {

/// One row of a directory listing.
#[derive(Debug)]
pub struct FileEntry {
    /// The path of the file or directory.
    pub path: Vec<u8>,
    /// Whether it is a directory.
    pub is_dir: bool,
}

/// What an entry says.
#[verifier::ext_equal]
pub struct EntryView {
    pub path: Seq<u8>,
    pub is_dir: bool,
}

impl View for FileEntry {
    type V = EntryView;

    open spec fn view(&self) -> EntryView {
        EntryView { path: self.path@, is_dir: self.is_dir }
    }
}

/// Whether a missing name or `a` comes before `b`, or equals it. No name comes
/// before every name.
pub open spec fn name_at_most(a: Option<Seq<u8>>, b: Option<Seq<u8>>) -> bool {
    match (a, b) {
        (None, _) => true,
        (Some(_), None) => false,
        (Some(x), Some(y)) => order::lex_at_most(order::byte_rank(x), order::byte_rank(y)),
    }
}

/// Directories come before files; among each, names come in byte order.
impl Ranked for FileEntry {
    open spec fn at_most(&self, other: &Self) -> bool {
        if self.is_dir != other.is_dir {
            self.is_dir
        } else {
            name_at_most(path::file_name_of(self.path@), path::file_name_of(other.path@))
        }
    }

    proof fn total(a: Self, b: Self) {
        if let (Some(x), Some(y)) = (path::file_name_of(a.path@), path::file_name_of(b.path@)) {
            order::lemma_lex_total(order::byte_rank(x), order::byte_rank(y));
        }
    }

    proof fn transitive(a: Self, b: Self, c: Self) {
        if let (Some(x), Some(y), Some(z)) = (
            path::file_name_of(a.path@),
            path::file_name_of(b.path@),
            path::file_name_of(c.path@),
        ) {
            if a.is_dir == b.is_dir && b.is_dir == c.is_dir {
                order::lemma_lex_transitive(order::byte_rank(x), order::byte_rank(y), order::byte_rank(z));
            }
        }
    }

    fn is_at_most(&self, other: &Self) -> (r: bool) {
        if self.is_dir != other.is_dir {
            return self.is_dir;
        }
        match (path::file_name(self.path.as_slice()), path::file_name(other.path.as_slice())) {
            (None, _) => true,
            (Some(_), None) => false,
            (Some(x), Some(y)) => order::bytes_at_most(x.as_slice(), y.as_slice()),
        }
    }
}

/// The entry that leads up from `cwd`.
pub open spec fn up_entry(cwd: Seq<u8>) -> EntryView {
    EntryView { path: path::joined_path(cwd, path::dot_dot()), is_dir: true }
}

/// Whether `out` is the listing of `cwd`, where the directory holds `found`: an
/// entry that leads up unless there is no way up, then what was found, in the
/// order of entries.
pub open spec fn is_listing(cwd: Seq<u8>, found: Seq<FileEntry>, out: Seq<FileEntry>) -> bool {
    if path::has_parent_of(cwd) {
        exists|up: FileEntry| #[trigger] up@ == up_entry(cwd) && order::is_stable_sort(seq![up] + found, out)
    } else {
        order::is_stable_sort(found, out)
    }
}

/// The listing of `cwd`, where `found` is what reading the directory gave.
pub fn load_entries(cwd: &[u8], found: Vec<FileEntry>) -> (out: Vec<FileEntry>)
    ensures
        is_listing(cwd@, found@, out@),
        out@.len() == found@.len() + (if path::has_parent_of(cwd@) {
            1int
        } else {
            0int
        }),
{
    let ghost listed = found@;
    let mut entries: Vec<FileEntry> = Vec::new();
    let ghost mut up: Option<FileEntry> = None;
    if path::has_parent(cwd) {
        let mut dots: Vec<u8> = Vec::new();
        dots.push(path::DOT);
        dots.push(path::DOT);
        assert(dots@ =~= path::dot_dot());
        let entry = FileEntry { path: path::join(cwd, dots.as_slice()), is_dir: true };
        proof {
            up = Some(entry);
        }
        entries.push(entry);
    }
    let mut found = found;
    entries.append(&mut found);
    proof {
        if path::has_parent_of(cwd@) {
            assert(entries@ =~= seq![up->0] + listed);
            assert(up->0@ == up_entry(cwd@));
        } else {
            assert(entries@ =~= listed);
        }
        entries@.to_multiset_ensures();
    }
    let out = order::sort_by_rank(entries);
    proof {
        out@.to_multiset_ensures();
    }
    out
}

/// Where a cursor goes from `selected` on the way up a list.
pub open spec fn cursor_up(selected: int) -> int {
    if selected == 0 {
        0
    } else {
        selected - 1
    }
}

/// Where a cursor goes from `selected` on the way down a list of `len` rows.
pub open spec fn cursor_down(len: int, selected: int) -> int {
    if selected + 1 < len {
        selected + 1
    } else if len > 0 {
        len - 1
    } else {
        selected
    }
}

/// A directory, its entries, and the one under the cursor.
#[derive(Debug)]
pub struct FilePicker {
    pub cwd: Vec<u8>,
    pub entries: Vec<FileEntry>,
    pub selected: usize,
}

/// What a picker shows.
#[verifier::ext_equal]
pub struct PickerView {
    pub cwd: Seq<u8>,
    pub entries: Seq<FileEntry>,
    pub selected: int,
}

impl View for FilePicker {
    type V = PickerView;

    open spec fn view(&self) -> PickerView {
        PickerView { cwd: self.cwd@, entries: self.entries@, selected: self.selected as int }
    }
}

impl PickerView {
    /// The cursor stands on an entry, or at the top of an empty listing.
    pub open spec fn wf(self) -> bool {
        if self.entries.len() == 0 {
            self.selected == 0
        } else {
            0 <= self.selected < self.entries.len()
        }
    }

    /// The picker with its cursor one entry up, unless it is at the top.
    pub open spec fn moved_up(self) -> PickerView {
        PickerView { selected: cursor_up(self.selected), ..self }
    }

    /// The picker with its cursor one entry down, unless it is at the bottom.
    pub open spec fn moved_down(self) -> PickerView {
        PickerView { selected: cursor_down(self.entries.len() as int, self.selected), ..self }
    }

    /// The picker at the directory `path`, with the cursor at the top and the
    /// entries of the old directory.
    pub open spec fn entered(self, path: Seq<u8>) -> PickerView {
        PickerView { cwd: path, selected: 0, ..self }
    }

    /// The picker with the listing `entries` of its directory. The cursor stays
    /// where it is unless the listing is too short.
    pub open spec fn listing(self, entries: Seq<FileEntry>) -> PickerView {
        PickerView {
            entries,
            selected: if entries.len() == 0 {
                0
            } else if self.selected < entries.len() {
                self.selected
            } else {
                entries.len() - 1
            },
            ..self
        }
    }

    /// What Enter does: it opens a directory and chooses a file. The entry that
    /// leads up is a directory like any other.
    pub open spec fn choice(self) -> ChoiceView {
        if self.selected >= self.entries.len() {
            ChoiceView::Nothing
        } else {
            let entry = self.entries[self.selected];
            if entry.is_dir {
                ChoiceView::Open(entry.path@)
            } else {
                ChoiceView::Send(entry.path@)
            }
        }
    }
}

/// What Enter does in the picker.
#[derive(Debug)]
pub enum PickerChoice {
    /// There is nothing under the cursor.
    Nothing,
    /// The directory at this path is to be shown.
    Open(Vec<u8>),
    /// The file at this path was chosen.
    Send(Vec<u8>),
}

/// What a choice says.
pub enum ChoiceView {
    Nothing,
    Open(Seq<u8>),
    Send(Seq<u8>),
}

impl View for PickerChoice {
    type V = ChoiceView;

    open spec fn view(&self) -> ChoiceView {
        match self {
            PickerChoice::Nothing => ChoiceView::Nothing,
            PickerChoice::Open(p) => ChoiceView::Open(p@),
            PickerChoice::Send(p) => ChoiceView::Send(p@),
        }
    }
}

impl FilePicker {
    /// The cursor stands on an entry, or at the top of an empty listing.
    pub open spec fn wf(&self) -> bool {
        self@.wf()
    }

    /// A picker that shows the home directory, with the cursor at the top.
    pub fn new(home: Vec<u8>, found: Vec<FileEntry>) -> (picker: Self)
        ensures
            picker.wf(),
            picker.cwd@ == home@,
            picker.selected == 0,
            is_listing(home@, found@, picker.entries@),
    {
        let entries = load_entries(home.as_slice(), found);
        FilePicker { cwd: home, entries, selected: 0 }
    }

    /// Lists the directory again, where `found` is what reading it gave. The
    /// cursor stays where it is unless the listing has become too short.
    pub fn reload(&mut self, found: Vec<FileEntry>)
        ensures
            final(self).wf(),
            is_listing(old(self).cwd@, found@, final(self).entries@),
            final(self)@ == old(self)@.listing(final(self).entries@),
    {
        self.entries = load_entries(self.cwd.as_slice(), found);
        if self.entries.is_empty() {
            self.selected = 0;
        } else if self.selected >= self.entries.len() {
            self.selected = self.entries.len() - 1;
        }
    }

    /// The entry under the cursor.
    pub fn selected(&self) -> (entry: Option<&FileEntry>)
        ensures
            entry == (if self.selected < self.entries@.len() {
                Some(&self.entries@[self.selected as int])
            } else {
                None
            }),
    {
        if self.selected < self.entries.len() {
            Some(&self.entries[self.selected])
        } else {
            None
        }
    }

    /// Moves the cursor one entry up, unless it is at the top.
    pub fn move_up(&mut self)
        ensures
            final(self)@ == old(self)@.moved_up(),
            old(self).wf() ==> final(self).wf(),
    {
        self.selected = self.selected.saturating_sub(1);
    }

    /// Moves the cursor one entry down, unless it is at the bottom. A cursor that
    /// stands behind the last entry is brought back to it.
    pub fn move_down(&mut self)
        ensures
            final(self)@ == old(self)@.moved_down(),
            old(self).wf() ==> final(self).wf(),
    {
        if !self.entries.is_empty() {
            let last: usize = self.entries.len() - 1;
            self.selected = if self.selected < last {
                self.selected + 1
            } else {
                last
            };
        }
    }

    /// What Enter does.
    pub fn choice(&self) -> (choice: PickerChoice)
        ensures
            choice@ == self@.choice(),
    {
        match self.selected() {
            None => PickerChoice::Nothing,
            Some(entry) => {
                let path = slice_to_vec(entry.path.as_slice());
                if entry.is_dir {
                    PickerChoice::Open(path)
                } else {
                    PickerChoice::Send(path)
                }
            },
        }
    }

    /// Moves to the directory at `path`, with the cursor at the top. The entries
    /// are those of the old directory until `reload`.
    pub fn enter(&mut self, path: Vec<u8>)
        ensures
            final(self)@ == old(self)@.entered(path@),
            final(self).wf(),
    {
        self.cwd = path;
        self.selected = 0;
    }
}

// ---------------------------------------------------------------------------
// Laws
// ---------------------------------------------------------------------------

/// In a listing every directory stands before every file, the entries of each
/// kind stand in the order of their names, and an entry that leads up stands
/// first: it has no name, and it is a directory.
pub proof fn law_listing_order(cwd: Seq<u8>, found: Seq<FileEntry>, out: Seq<FileEntry>)
    requires
        is_listing(cwd, found, out),
        forall|i: int|
            0 <= i < found.len() ==> path::file_name_of((#[trigger] found[i]).path@) is Some,
    ensures
        forall|i: int, j: int|
            #![trigger out[i], out[j]]
            0 <= i < j < out.len() ==> (out[j].is_dir ==> out[i].is_dir) && (out[i].is_dir
                == out[j].is_dir ==> name_at_most(
                path::file_name_of(out[i].path@),
                path::file_name_of(out[j].path@),
            )),
        path::has_parent_of(cwd) ==> out.len() > 0 && out[0]@ == up_entry(cwd),
{
    if path::has_parent_of(cwd) {
        let up = choose|up: FileEntry| #[trigger]
            up@ == up_entry(cwd) && order::is_stable_sort(seq![up] + found, out);
        let all = seq![up] + found;
        path::law_parent_entry_has_no_name(cwd);
        all.to_multiset_ensures();
        out.to_multiset_ensures();
        assert(all[0] == up);
        assert(all.contains(up));
        assert(out.to_multiset().count(up) > 0);
        assert(out.contains(up));
        let k = choose|k: int| 0 <= k < out.len() && out[k] == up;
        let first = out[0];
        assert(out.contains(first));
        assert(all.to_multiset().count(first) > 0);
        assert(all.contains(first));
        let m = choose|m: int| 0 <= m < all.len() && all[m] == first;
        if m > 0 {
            assert(all[m] == found[m - 1]);
            assert(k > 0);
            assert(out[0].at_most(&out[k]));
            assert(false);
        }
        assert(first == up);
    }
}

/// Up and down undo each other, except at the ends of the list, where the cursor
/// stays; and it never leaves the list.
pub proof fn law_cursor_moves(len: int, selected: int)
    requires
        0 <= selected < len,
    ensures
        selected + 1 < len ==> cursor_up(cursor_down(len, selected)) == selected,
        selected > 0 ==> cursor_down(len, cursor_up(selected)) == selected,
        cursor_up(0) == 0,
        cursor_down(len, len - 1) == len - 1,
        0 <= cursor_up(selected) < len,
        0 <= cursor_down(len, selected) < len,
{
}

/// In a listing every directory stands before every file, and the entries of each
/// kind stand in the byte order of their names; those without a name stand first.
pub proof fn law_listing_is_ordered(
    cwd: Seq<u8>,
    found: Seq<FileEntry>,
    out: Seq<FileEntry>,
    i: int,
    j: int,
)
    requires
        is_listing(cwd, found, out),
        0 <= i < j < out.len(),
    ensures
        !(out[j].is_dir && !out[i].is_dir),
        out[i].is_dir == out[j].is_dir ==> match (
            path::file_name_of(out[i].path@),
            path::file_name_of(out[j].path@),
        ) {
            (Some(x), Some(y)) => order::comes_first(order::values(x), order::values(y)),
            (Some(_), None) => false,
            (None, _) => true,
        },
{
    assert(out[i].at_most(&out[j]));
    if let (Some(x), Some(y)) = (
        path::file_name_of(out[i].path@),
        path::file_name_of(out[j].path@),
    ) {
        order::law_byte_order(x, y);
    }
}

/// A listing holds what was found, each entry as often as it was found; and, where
/// the directory has a parent, one directory more, whose path is that of the listed
/// directory with `..` behind it.
pub proof fn law_listing_is_complete(cwd: Seq<u8>, found: Seq<FileEntry>, out: Seq<FileEntry>)
    requires
        is_listing(cwd, found, out),
    ensures
        !path::has_parent_of(cwd) ==> out.to_multiset() == found.to_multiset(),
        path::has_parent_of(cwd) ==> exists|up: FileEntry|
            #![trigger found.to_multiset().insert(up)]
            up.is_dir && out.to_multiset() == found.to_multiset().insert(up) && up.path@ == (if cwd[
            cwd.len() - 1] == 47 {
                cwd + seq![46u8, 46u8]
            } else {
                cwd + seq![47u8, 46u8, 46u8]
            }),
{
    if path::has_parent_of(cwd) {
        let up = choose|up: FileEntry| #[trigger]
            up@ == up_entry(cwd) && order::is_stable_sort(seq![up] + found, out);
        let all = seq![up] + found;
        all.to_multiset_ensures();
        assert(all.remove(0) =~= found);
        assert(all[0] == up);
        assert(all.contains(up));
        assert(all.to_multiset().count(up) > 0);
        assert(found.to_multiset() == all.to_multiset().remove(up));
        assert(all.to_multiset() =~= found.to_multiset().insert(up));
        assert(cwd.len() > 0) by {
            if cwd.len() == 0 {
                path::law_paths_without_pieces();
                assert(cwd =~= Seq::<u8>::empty());
            }
        }
        path::law_join_puts_part_behind_base(cwd, path::dot_dot());
        assert(path::dot_dot() =~= seq![46u8, 46u8]);
        assert(cwd + seq![47u8] + path::dot_dot() =~= cwd + seq![47u8, 46u8, 46u8]);
        assert(up.is_dir == up@.is_dir && up.path@ == up@.path);
        assert(up.is_dir && out.to_multiset() == found.to_multiset().insert(up));
    }
}

/// The cursor goes by one entry, and stops at the first and the last; everything else
/// in the picker stays.
pub proof fn law_picker_cursor_goes_by_one(picker: PickerView)
    requires
        picker.wf(),
        picker.entries.len() > 0,
    ensures
        picker.selected > 0 ==> picker.moved_up().selected == picker.selected - 1,
        picker.selected == 0 ==> picker.moved_up().selected == 0,
        picker.selected < picker.entries.len() - 1 ==> picker.moved_down().selected
            == picker.selected + 1,
        picker.selected == picker.entries.len() - 1 ==> picker.moved_down().selected
            == picker.selected,
        picker.moved_up().entries == picker.entries && picker.moved_up().cwd == picker.cwd,
        picker.moved_down().entries == picker.entries && picker.moved_down().cwd == picker.cwd,
{
}

/// Enter acts on the entry under the cursor: a directory is opened, and a file is
/// chosen.
pub proof fn law_enter_takes_entry_under_cursor(picker: PickerView)
    requires
        0 <= picker.selected,
    ensures
        match picker.choice() {
            ChoiceView::Nothing => picker.selected >= picker.entries.len(),
            ChoiceView::Open(p) => picker.selected < picker.entries.len()
                && picker.entries[picker.selected].is_dir && p
                == picker.entries[picker.selected].path@,
            ChoiceView::Send(p) => picker.selected < picker.entries.len()
                && !picker.entries[picker.selected].is_dir && p
                == picker.entries[picker.selected].path@,
        },
{
}

/// A directory that is opened is listed from its top; listing a directory again keeps
/// the cursor where it is, or brings it to the last entry.
pub proof fn law_listing_keeps_cursor(picker: PickerView, p: Seq<u8>, entries: Seq<FileEntry>)
    requires
        0 <= picker.selected,
    ensures
        picker.entered(p).cwd == p,
        picker.entered(p).selected == 0,
        picker.listing(entries).entries == entries,
        picker.listing(entries).cwd == picker.cwd,
        picker.selected < entries.len() ==> picker.listing(entries).selected == picker.selected,
        0 < entries.len() <= picker.selected ==> picker.listing(entries).selected == entries.len()
            - 1,
        entries.len() == 0 ==> picker.listing(entries).selected == 0,
{
}

} // verus!

//! The filestore: list entries and download one.

use vstd::prelude::*;

use super::layout::{inside, is_divided, panel_areas};
use super::widgets::{ListBox, RowSource};
use super::{
    asked, ink, inks, not_connected, push_span, row, shows, Ctx, Deed, Effect, Ink, KeyCode,
    KeyEvent, Line, Paint, Pane, PanelFrame, Rect, Span, StatusKind,
};
use crate::notation::{missing, push_right, repeated};
use crate::text::{after_last, before_last, chars, decimal, push_str, split_last, string_between};
use crate::time::WallTime;

verus! {

/// An entry of a filestore.
#[derive(Debug)]
pub struct FileEntry {
    pub name: String,
    pub size: u32,
    pub last_modified: Option<WallTime>,
}

/// Whether a name is marked as a directory. Servers differ on whether they mark
/// directories, so the trailing separator is what distinguishes them where it
/// is present.
pub open spec fn is_dir(name: Seq<char>) -> bool {
    name.len() > 0 && name.last() == '/'
}

/// Reports whether a name is marked as a directory.
pub fn marks_dir(name: &str) -> (b: bool)
    ensures
        b == is_dir(name@),
{
    let cs = chars(name);
    cs.len() > 0 && cs[cs.len() - 1] == '/'
}

/// The rows of the listing.
pub struct FileRows<'a> {
    pub entries: &'a Vec<FileEntry>,
}

impl<'a> RowSource for FileRows<'a> {
    open spec fn rows(&self) -> nat {
        self.entries@.len()
    }

    open spec fn inks_at(&self, i: int) -> Seq<Ink> {
        let e = self.entries@[i];
        let size = decimal(e.size as nat);
        if is_dir(e.name@) {
            seq![
                ink("         dir"@, Paint::Muted),
                ink("  "@, Paint::Plain),
                ink(e.name@, Paint::Accent),
            ]
        } else {
            seq![
                ink(repeated(' ', missing(12, size.len())) + size, Paint::Muted),
                ink("  "@, Paint::Plain),
                ink(e.name@, Paint::Plain),
            ]
        }
    }

    fn count(&self) -> usize {
        self.entries.len()
    }

    fn spans(&self, i: usize) -> Vec<Span> {
        let e = &self.entries[i];
        let dir = marks_dir(e.name.as_str());
        let mut size = String::new();
        if dir {
            size = "         dir".to_owned();
        } else {
            push_right(&mut size, e.size as u64, 12);
            assert(size@ =~= repeated(' ', missing(12, decimal(e.size as nat).len())) + decimal(
                e.size as nat,
            ));
        }
        let mut spans: Vec<Span> = Vec::new();
        assert(inks(spans@) =~= Seq::<Ink>::empty());
        push_span(&mut spans, size.as_str(), Paint::Muted);
        push_span(&mut spans, "  ", Paint::Plain);
        push_span(
            &mut spans,
            e.name.as_str(),
            if dir {
                Paint::Accent
            } else {
                Paint::Plain
            },
        );
        assert(inks(spans@) =~= self.inks_at(i as int));
        spans
    }
}

#[derive(Debug)]
pub struct FilesPanel {
    pub list: ListBox,
    pub entries: Vec<FileEntry>,
    /// The directory being shown, empty for the filestore root.
    pub path: String,
}

impl Default for FilesPanel {
    fn default() -> (p: FilesPanel)
        ensures
            p.list == ListBox::start(),
            p.entries@.len() == 0,
            p.path@.len() == 0,
    {
        FilesPanel { list: ListBox::default(), entries: Vec::new(), path: String::new() }
    }
}

/// The place of the panel: what is shown of which directory.
pub struct Place {
    pub list: ListBox,
    pub path: Seq<char>,
}

/// What downloading an entry asks for.
pub open spec fn download_deeds(name: Seq<char>, online: bool) -> Seq<Deed> {
    if is_dir(name) {
        seq![
            Deed::Status("that is a directory; press enter to open it"@, StatusKind::Failure),
        ]
    } else if online {
        seq![
            Deed::Status("downloading "@ + name + " ..."@, StatusKind::Info),
            Deed::Download { name, out: after_last(name, '/') },
        ]
    } else {
        seq![not_connected()]
    }
}

impl FilesPanel {
    /// The place of the panel.
    pub open spec fn place(self) -> Place {
        Place { list: self.list, path: self.path@ }
    }

    /// Whether there is an entry under the cursor.
    pub open spec fn has_selected(self) -> bool {
        self.list.cursor < self.entries@.len()
    }

    /// The name of the entry under the cursor.
    pub open spec fn selected_name(self) -> Seq<char> {
        self.entries@[self.list.cursor as int].name@
    }

    /// Whether a directory is under the cursor.
    pub open spec fn on_dir(self) -> bool {
        self.has_selected() && is_dir(self.selected_name())
    }

    /// The place after the entry under the cursor was opened.
    pub open spec fn opened(self) -> Place {
        if self.on_dir() {
            Place { list: ListBox::start(), path: self.selected_name().drop_last() }
        } else {
            self.place()
        }
    }

    /// What opening the entry under the cursor asks for.
    pub open spec fn open_deeds(self, online: bool) -> Seq<Deed> {
        if !self.has_selected() {
            Seq::empty()
        } else if is_dir(self.selected_name()) {
            asked(online, Deed::ListFiles(self.selected_name().drop_last()))
        } else {
            download_deeds(self.selected_name(), online)
        }
    }

    /// The place one level up.
    pub open spec fn risen(self) -> Place {
        if self.path@.len() == 0 {
            self.place()
        } else {
            Place { list: ListBox::start(), path: before_last(self.path@, '/') }
        }
    }

    /// What going up asks for.
    pub open spec fn up_deeds(self, online: bool) -> Seq<Deed> {
        if self.path@.len() == 0 {
            Seq::empty()
        } else {
            asked(online, Deed::ListFiles(before_last(self.path@, '/')))
        }
    }

    /// Shows the filestore root.
    pub fn load(&mut self, ctx: &mut Ctx)
        ensures
            final(self).entries == old(self).entries,
            final(self).place() == (Place { list: ListBox::start(), path: Seq::empty() }),
            old(ctx).then_queued(
                *final(ctx),
                asked(old(ctx).online, Deed::ListFiles(Seq::empty())),
            ),
    {
        self.path = String::new();
        self.list = ListBox::default();
        ctx.ask(Effect::ListFiles(String::new()));
    }

    /// The entry under the cursor.
    pub fn selected(&self) -> (e: Option<&FileEntry>)
        ensures
            match e {
                Some(e) => self.has_selected() && *e == self.entries@[self.list.cursor as int],
                None => !self.has_selected(),
            },
    {
        if self.list.cursor < self.entries.len() {
            Some(&self.entries[self.list.cursor])
        } else {
            None
        }
    }

    /// The place after a key.
    pub open spec fn after(self, key: KeyCode) -> Place {
        if ListBox::steers(key) {
            Place { list: self.list.steered(key, self.entries@.len() as int), ..self.place() }
        } else if key == KeyCode::Enter {
            self.opened()
        } else if key == KeyCode::Backspace || key == KeyCode::Left {
            self.risen()
        } else {
            self.place()
        }
    }

    /// What a key asks for.
    pub open spec fn asks(self, key: KeyCode, online: bool) -> Seq<Deed> {
        if key == KeyCode::Enter {
            self.open_deeds(online)
        } else if key == KeyCode::Backspace || key == KeyCode::Left {
            self.up_deeds(online)
        } else if key == KeyCode::Char('d') && self.has_selected() {
            download_deeds(self.selected_name(), online)
        } else {
            Seq::empty()
        }
    }

    pub fn on_key(&mut self, key: KeyEvent, ctx: &mut Ctx)
        ensures
            final(self).entries == old(self).entries,
            final(self).place() == old(self).after(key.code),
            old(ctx).then_queued(*final(ctx), old(self).asks(key.code, old(ctx).online)),
    {
        assert(ctx.queued() + Seq::<Deed>::empty() =~= ctx.queued());
        if self.list.steer(key, self.entries.len()) {
            return;
        }
        match key.code {
            KeyCode::Enter => self.open(ctx),
            KeyCode::Backspace | KeyCode::Left => self.up(ctx),
            KeyCode::Char(c) => {
                if c == 'd' {
                    self.download(ctx);
                }
            },
            _ => {},
        }
    }

    /// Descends into a directory, or downloads a file.
    pub fn open(&mut self, ctx: &mut Ctx)
        ensures
            final(self).entries == old(self).entries,
            final(self).place() == old(self).opened(),
            old(ctx).then_queued(*final(ctx), old(self).open_deeds(old(ctx).online)),
    {
        assert(ctx.queued() + Seq::<Deed>::empty() =~= ctx.queued());
        let mut dir: Option<String> = None;
        match self.selected() {
            None => {
                return;
            },
            Some(entry) => {
                let cs = chars(entry.name.as_str());
                if cs.len() > 0 && cs[cs.len() - 1] == '/' {
                    let d = string_between(cs.as_slice(), 0, cs.len() - 1);
                    assert(d@ =~= entry.name@.drop_last());
                    dir = Some(d);
                }
            },
        }
        match dir {
            Some(d) => {
                self.path = d.clone();
                self.list = ListBox::default();
                ctx.ask(Effect::ListFiles(d));
            },
            None => self.download(ctx),
        }
    }

    /// Goes up one level; at the root there is nowhere further up.
    pub fn up(&mut self, ctx: &mut Ctx)
        ensures
            final(self).entries == old(self).entries,
            final(self).place() == old(self).risen(),
            old(ctx).then_queued(*final(ctx), old(self).up_deeds(old(ctx).online)),
    {
        assert(ctx.queued() + Seq::<Deed>::empty() =~= ctx.queued());
        if self.path.as_str().is_empty() {
            return;
        }
        let (parent, _) = split_last(self.path.as_str(), '/');
        self.path = parent.clone();
        self.list = ListBox::default();
        ctx.ask(Effect::ListFiles(parent));
    }

    /// Downloads the entry under the cursor, to be saved under its base name,
    /// so a nested path does not need directories creating.
    pub fn download(&self, ctx: &mut Ctx)
        ensures
            old(ctx).then_queued(
                *final(ctx),
                if self.has_selected() {
                    download_deeds(self.selected_name(), old(ctx).online)
                } else {
                    Seq::empty()
                },
            ),
    {
        assert(ctx.queued() + Seq::<Deed>::empty() =~= ctx.queued());
        if let Some(entry) = self.selected() {
            let name = entry.name.as_str();
            if marks_dir(name) {
                ctx.err("that is a directory; press enter to open it");
                return;
            }
            if ctx.client() {
                let mut text = "downloading ".to_owned();
                push_str(&mut text, name);
                push_str(&mut text, " ...");
                ctx.status(text.as_str(), StatusKind::Info);
                let (_, out) = split_last(name, '/');
                ctx.send(Effect::Download { name: name.to_owned(), out });
            }
            assert(ctx.queued() =~= old(ctx).queued() + download_deeds(name@, old(ctx).online));
        }
    }

    pub fn scroll(&mut self, up: bool)
        ensures
            *final(self) == (FilesPanel {
                list: old(self).list.wheeled(up, old(self).entries@.len() as int),
                ..*old(self)
            }),
    {
        self.list.wheel(up, self.entries.len());
    }

    /// Handles a click at a row of the panel, its top border being the first.
    pub fn on_click(&mut self, y: u16)
        ensures
            *final(self) == (FilesPanel {
                list: if y == 0 {
                    old(self).list
                } else {
                    old(self).list.clicked(y - 1, old(self).entries@.len() as int)
                },
                ..*old(self)
            }),
    {
        if y > 0 {
            self.list.click_row((y - 1) as usize, self.entries.len());
        }
    }

    /// Whether `after` is the panel after it was shown in an area as `f`.
    pub open spec fn draws(self, area: Rect, after: FilesPanel, f: PanelFrame) -> bool {
        &&& is_divided(area, f.body, f.hint_area)
        &&& f.panes@.len() == 1
        &&& {
            let rows = FileRows { entries: &self.entries };
            let height = inside(f.body).height as int;
            &&& after == (FilesPanel {
                list: self.list.shown(rows.rows() as int, height),
                ..self
            })
            &&& shows(
                f.panes@[0],
                f.body,
                "Filestore /"@ + self.path@,
                after.list.visible(rows, height),
            )
        }
        &&& f.hint@ == row(
            "↑↓ select · enter open/download · d download · backspace up"@,
            Paint::Help,
        )
    }

    /// What the panel shows in an area.
    pub fn draw(&mut self, area: Rect) -> (f: PanelFrame)
        ensures
            old(self).draws(area, *final(self), f),
    {
        let areas = panel_areas(area);
        let mut title = "Filestore /".to_owned();
        push_str(&mut title, self.path.as_str());
        let rows = FileRows { entries: &self.entries };
        let pane = self.list.render(areas.body, title.as_str(), &rows);
        let mut panes: Vec<Pane> = Vec::new();
        panes.push(pane);
        PanelFrame {
            body: areas.body,
            panes,
            hint_area: areas.hint,
            hint: Line::styled(
                "↑↓ select · enter open/download · d download · backspace up",
                Paint::Help,
            ),
        }
    }
}

/// Entering a directory of the root and going back up leads to the root again,
/// where the name of the directory holds no separator of its own.
pub proof fn going_up_leads_back(name: Seq<char>, p: FilesPanel, q: FilesPanel)
    requires
        p.has_selected(),
        is_dir(p.selected_name()),
        p.selected_name() == name,
        name.len() > 1,
        crate::text::last_of(name.drop_last(), '/') < 0,
        q.place() == p.opened(),
    ensures
        q.path@ == name.drop_last(),
        q.risen().path == Seq::<char>::empty(),
{
}

/// The line that says where a file was saved.
pub fn saved_line(name: &str, octets: usize, out: &str) -> (s: String)
    ensures
        s@ == "saved "@ + name@ + " ("@ + decimal(octets as nat) + " octets) to ./"@ + out@,
{
    let mut s = "saved ".to_owned();
    push_str(&mut s, name);
    push_str(&mut s, " (");
    crate::text::push_decimal(&mut s, octets as u64);
    push_str(&mut s, " octets) to ./");
    push_str(&mut s, out);
    s
}

/// A file is fetched under its whole name and saved under what stands behind
/// the last separator; a directory is not fetched at all.
pub proof fn a_file_is_saved_under_its_last_name(dir: Seq<char>, name: Seq<char>)
    requires
        name.len() > 0,
        !name.contains('/'),
    ensures
        download_deeds(name, true).last() == (Deed::Download { name, out: name }),
        download_deeds(dir + seq!['/'] + name, true).last() == (Deed::Download {
            name: dir + seq!['/'] + name,
            out: name,
        }),
        forall|i: int, online: bool|
            0 <= i < download_deeds(name + seq!['/'], online).len() ==> !((
            #[trigger] download_deeds(name + seq!['/'], online)[i]) is Download),
        download_deeds(name, false) == seq![
            Deed::Status("not connected"@, StatusKind::Failure),
        ],
{
    let whole = dir + seq!['/'] + name;
    assert(name.last() != '/') by {
        assert(name[name.len() - 1] == name.last());
    }
    assert(whole.last() == name.last());
    crate::text::a_text_is_split_at_the_last(name, '/');
    crate::text::a_text_is_split_at_the_last(whole, '/');
    assert(whole[dir.len() as int] == '/');
    let front = before_last(whole, '/');
    let back = after_last(whole, '/');
    assert(whole == front + seq!['/'] + back);
    assert(front.len() == dir.len()) by {
        if front.len() < dir.len() {
            let k = dir.len() - front.len() - 1;
            assert(whole[dir.len() as int] == back[k]);
            assert(back[k] == '/');
        } else if front.len() > dir.len() {
            let k = front.len() - dir.len() - 1;
            assert(whole[front.len() as int] == '/');
            assert(whole[front.len() as int] == name[k]);
            assert(name[k] == '/');
        }
    }
    assert(back =~= name) by {
        assert(back.len() == name.len());
        assert forall|i: int| 0 <= i < back.len() implies back[i] == name[i] by {
            assert(whole[dir.len() + 1 + i] == back[i]);
            assert(whole[dir.len() + 1 + i] == name[i]);
        }
    }
    assert((name + seq!['/']).last() == '/');
}

/// Opening a directory lists it, under its name without the separator, and
/// shows it from its top; opening a file leaves the place as it is.
pub proof fn a_directory_is_opened_and_listed(p: FilesPanel, name: Seq<char>)
    requires
        p.list.cursor < p.entries@.len(),
    ensures
        p.entries@[p.list.cursor as int].name@ == name + seq!['/'] ==> {
            &&& p.after(KeyCode::Enter).path == name
            &&& p.after(KeyCode::Enter).list == (ListBox { cursor: 0, top: 0 })
            &&& p.asks(KeyCode::Enter, true) == seq![Deed::ListFiles(name)]
        },
        p.entries@[p.list.cursor as int].name@ == name && name.len() > 0 && name.last() != '/' ==> {
            &&& p.after(KeyCode::Enter).path == p.path@
            &&& p.after(KeyCode::Enter).list == p.list
            &&& p.asks(KeyCode::Enter, true).last() matches Deed::Download { name: n, out: o } && n
                == name
        },
{
    assert((name + seq!['/']).drop_last() =~= name);
    assert((name + seq!['/']).last() == '/');
}

/// Going up lists what the path is below of, and nothing above the root.
pub proof fn going_up_lists_what_is_above(p: FilesPanel, dir: Seq<char>, name: Seq<char>)
    requires
        !name.contains('/'),
        p.path@ == dir + seq!['/'] + name,
    ensures
        p.after(KeyCode::Backspace).path == dir,
        p.after(KeyCode::Left) == p.after(KeyCode::Backspace),
        p.asks(KeyCode::Backspace, true) == seq![Deed::ListFiles(dir)],
{
    let whole = p.path@;
    crate::text::a_text_is_split_at_the_last(whole, '/');
    assert(whole[dir.len() as int] == '/');
    let front = before_last(whole, '/');
    let back = after_last(whole, '/');
    assert(front.len() == dir.len()) by {
        if front.len() < dir.len() {
            let k = dir.len() - front.len() - 1;
            assert(whole[dir.len() as int] == back[k]);
            assert(back[k] == '/');
        } else if front.len() > dir.len() {
            let k = front.len() - dir.len() - 1;
            assert(whole[front.len() as int] == '/');
            assert(whole[front.len() as int] == name[k]);
            assert(name[k] == '/');
        }
    }
    assert(front =~= dir) by {
        assert forall|i: int| 0 <= i < dir.len() implies front[i] == dir[i] by {
            assert(whole[i] == front[i]);
        }
    }
}

/// An entry is shown with its size, or as a directory, and under its name.
pub proof fn an_entry_is_shown_with_its_size(r: FileRows<'_>, i: int)
    requires
        0 <= i < r.entries@.len(),
    ensures
        ({
            let e = r.entries@[i];
            let shown = r.inks_at(i);
            &&& shown.last().text == e.name@
            &&& e.name@.len() > 0 && e.name@.last() == '/' ==> shown[0].text == "         dir"@
            &&& !(e.name@.len() > 0 && e.name@.last() == '/') ==> {
                &&& decimal(e.size as nat).is_suffix_of(shown[0].text)
                &&& shown[0].text.len() >= 12
            }
        }),
{
}

} // verus!
